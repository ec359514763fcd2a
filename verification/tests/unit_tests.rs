use shakmaty::fen::Fen;
use shakmaty::{CastlingMode, Chess, Position};
use ucitap2json::config::parse_config_arg;
use ucitap2json::moves::{apply_moves, convert_pv_to_san, parse_uci_move};
use ucitap2json::num::{parse_i32_tok, parse_u32_tok, parse_u64_tok};
use ucitap2json::text::{output_name, tokenize, trim_fen};

fn pos(fen: &str) -> Chess {
    fen.parse::<Fen>()
        .unwrap()
        .into_position(CastlingMode::Standard)
        .unwrap()
}

#[test]
fn trim_fen_keeps_first_four_fields() {
    assert_eq!(
        trim_fen("rnbqkbnr/pppppppp/8/8/8/8/PPPPPPPP/RNBQKBNR w KQkq - 0 1"),
        "rnbqkbnr/pppppppp/8/8/8/8/PPPPPPPP/RNBQKBNR w KQkq -"
    );
}

#[test]
fn trim_fen_short_input_unchanged() {
    assert_eq!(trim_fen("a b c"), "a b c");
    assert_eq!(trim_fen("  a  b "), "  a  b ");
}

#[test]
fn tokenize_splits_on_whitespace() {
    let toks = tokenize("  a\tbb  ccc ");
    assert_eq!(toks, vec!["a".to_string(), "bb".to_string(), "ccc".to_string()]);
}

#[test]
fn output_name_suffixes() {
    assert_eq!(output_name("game", false), "game.json");
    assert_eq!(output_name("game", true), "game.zst");
}

#[test]
fn parse_unsigned_tokens() {
    assert_eq!(parse_u64_tok("12345"), Some(12345));
    assert_eq!(parse_u64_tok("+7"), Some(7));
    assert_eq!(parse_u64_tok(""), None);
    assert_eq!(parse_u64_tok("+"), None);
    assert_eq!(parse_u64_tok("12x"), None);
    assert_eq!(parse_u64_tok("18446744073709551615"), Some(u64::MAX));
    assert_eq!(parse_u64_tok("18446744073709551616"), None);
    assert_eq!(parse_u32_tok("4294967295"), Some(u32::MAX));
    assert_eq!(parse_u32_tok("4294967296"), None);
}

#[test]
fn parse_signed_tokens() {
    assert_eq!(parse_i32_tok("-42"), Some(-42));
    assert_eq!(parse_i32_tok("+42"), Some(42));
    assert_eq!(parse_i32_tok("2147483647"), Some(i32::MAX));
    assert_eq!(parse_i32_tok("2147483648"), None);
    assert_eq!(parse_i32_tok("-2147483648"), Some(i32::MIN));
    assert_eq!(parse_i32_tok("-2147483649"), None);
    assert_eq!(parse_i32_tok("-"), None);
    assert_eq!(parse_i32_tok("1.5"), None);
}

#[test]
fn config_arg_scanning() {
    let args = vec![
        "prog".to_string(),
        "--config".to_string(),
        "my.json".to_string(),
    ];
    assert_eq!(parse_config_arg(&args), Some("my.json".to_string()));
    let none = vec!["prog".to_string(), "--config".to_string()];
    assert_eq!(parse_config_arg(&none), None);
    let empty: Vec<String> = Vec::new();
    assert_eq!(parse_config_arg(&empty), None);
}

#[test]
fn resolver_accepts_legal_coordinate_moves() {
    let b = Chess::default();
    assert!(parse_uci_move("e2e4", &b).is_some());
    assert!(parse_uci_move("g1f3", &b).is_some());
    assert!(parse_uci_move("e2e5", &b).is_none());
    assert!(parse_uci_move("e2", &b).is_none());
    assert!(parse_uci_move("z9z9", &b).is_none());
}

#[test]
fn resolver_respects_promotion_letter() {
    let b = pos("8/P6k/8/8/8/8/8/K7 w - - 0 1");
    assert!(parse_uci_move("a7a8q", &b).is_some());
    assert!(parse_uci_move("a7a8n", &b).is_some());
    // Without a promotion letter no legal move matches: every a7-a8 move
    // promotes.
    assert!(parse_uci_move("a7a8", &b).is_none());
}

#[test]
fn pv_conversion_renders_san() {
    let b = Chess::default();
    assert_eq!(convert_pv_to_san("e2e4 e7e5 g1f3", &b), "e4 e5 Nf3");
    assert_eq!(convert_pv_to_san("junk", &b), "");
    assert_eq!(convert_pv_to_san("", &b), "");
    assert_eq!(convert_pv_to_san("e2e4 x e7e5", &b), "e4");
}

#[test]
fn pv_conversion_renders_promotion() {
    let b = pos("8/P6k/8/8/8/8/8/K7 w - - 0 1");
    assert_eq!(convert_pv_to_san("a7a8q", &b), "a8=Q");
    assert_eq!(convert_pv_to_san("a7a8r", &b), "a8=R");
}

#[test]
fn apply_moves_plays_resolved_prefix() {
    let b = apply_moves(Chess::default(), "e2e4 e7e5");
    let mut expected = Chess::default();
    let m1 = parse_uci_move("e2e4", &expected).unwrap();
    expected.play_unchecked(expected.legal_moves()[m1]);
    let m2 = parse_uci_move("e7e5", &expected).unwrap();
    expected.play_unchecked(expected.legal_moves()[m2]);
    assert_eq!(b, expected);
}

#[test]
fn apply_moves_stops_at_unresolvable() {
    let b = apply_moves(Chess::default(), "e2e4 nonsense e7e5");
    let mut expected = Chess::default();
    let m1 = parse_uci_move("e2e4", &expected).unwrap();
    expected.play_unchecked(expected.legal_moves()[m1]);
    assert_eq!(b, expected);
}

#[test]
fn pv_conversion_does_not_mutate_the_board() {
    let b = Chess::default();
    assert_eq!(convert_pv_to_san("e2e4 e7e5", &b), "e4 e5");
    assert_eq!(convert_pv_to_san("e2e4 e7e5", &b), "e4 e5");
    assert_eq!(b, Chess::default());
}
