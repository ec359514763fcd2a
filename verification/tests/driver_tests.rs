use ucitap2json::driver::Driver;

const START_FP: &str = "rnbqkbnr/pppppppp/8/8/8/8/PPPPPPPP/RNBQKBNR w KQkq -";

fn run_lines(lines: &[&str]) -> Driver {
    let mut d = Driver::new();
    for l in lines {
        d.process_line(l);
    }
    d
}

#[test]
fn end_to_end_startpos() {
    let d = run_lines(&[
        "uci",
        "id name TestEngine",
        "ucinewgame",
        "position startpos",
        "info depth 10 score cp 25 nodes 12345 nps 500000 time 20 pv e2e4 e7e5 g1f3",
        "bestmove e2e4",
    ]);
    let recs = d.records();
    assert_eq!(recs.len(), 1);
    let r = &recs[0];
    assert_eq!(r.engine, "TestEngine");
    assert_eq!(r.fen, START_FP);
    assert_eq!(r.ply, Some(10));
    assert_eq!(r.score, Some(25));
    assert_eq!(r.mate, None);
    assert_eq!(r.nodes, Some(12345));
    assert_eq!(r.nps, Some(500000));
    assert_eq!(r.time, Some(20));
    assert_eq!(r.pv.as_deref(), Some("e4 e5 Nf3"));
}

#[test]
fn end_to_end_promotion() {
    let d = run_lines(&[
        "position fen 8/P6k/8/8/8/8/8/K7 w - - 0 1",
        "info depth 1 score cp 900 pv a7a8q",
        "bestmove a7a8q",
    ]);
    let recs = d.records();
    assert_eq!(recs.len(), 1);
    let r = &recs[0];
    assert_eq!(r.fen, "8/P6k/8/8/8/8/8/K7 w - -");
    assert_eq!(r.pv.as_deref(), Some("a8=Q"));
}

#[test]
fn promotion_token_without_letter_does_not_resolve() {
    // The only legal moves from a7 to a8 are promotions, so the bare token
    // must not resolve to any of them.
    let d = run_lines(&[
        "position fen 8/P6k/8/8/8/8/8/K7 w - - 0 1",
        "info depth 1 pv a7a8",
        "bestmove a7a8q",
    ]);
    let recs = d.records();
    assert_eq!(recs.len(), 1);
    assert_eq!(recs[0].pv.as_deref(), Some(""));
}

#[test]
fn bestmove_without_position_is_dropped() {
    let d = run_lines(&["id name E", "info depth 3", "bestmove e2e4"]);
    assert_eq!(d.records().len(), 0);
}

#[test]
fn newgame_resets_fields_but_keeps_engine() {
    let d = run_lines(&[
        "id name Keeper",
        "position startpos",
        "info depth 7 score cp 1 nodes 2 nps 3 time 4 pv e2e4",
        "bestmove e2e4",
        "ucinewgame",
        "position startpos",
        "bestmove d2d4",
    ]);
    let recs = d.records();
    assert_eq!(recs.len(), 2);
    assert_eq!(recs[0].ply, Some(7));
    let r = &recs[1];
    assert_eq!(r.engine, "Keeper");
    assert_eq!(r.fen, START_FP);
    assert_eq!(r.ply, None);
    assert_eq!(r.score, None);
    assert_eq!(r.mate, None);
    assert_eq!(r.nodes, None);
    assert_eq!(r.nps, None);
    assert_eq!(r.time, None);
    assert_eq!(r.pv, None);
}

#[test]
fn newgame_clears_fingerprint() {
    let d = run_lines(&["position startpos", "ucinewgame", "bestmove e2e4"]);
    assert_eq!(d.records().len(), 0);
}

#[test]
fn last_write_wins_across_lines() {
    let d = run_lines(&[
        "position startpos",
        "info depth 5",
        "info depth 9",
        "bestmove e2e4",
    ]);
    let recs = d.records();
    assert_eq!(recs.len(), 1);
    assert_eq!(recs[0].ply, Some(9));
}

#[test]
fn last_write_wins_within_line() {
    let d = run_lines(&["position startpos", "info depth 5 depth 7", "bestmove e2e4"]);
    assert_eq!(d.records()[0].ply, Some(7));
}

#[test]
fn unparsable_value_keeps_previous() {
    let d = run_lines(&[
        "position startpos",
        "info depth 10",
        "info depth xx",
        "bestmove e2e4",
    ]);
    assert_eq!(d.records()[0].ply, Some(10));
}

#[test]
fn malformed_position_description_keeps_board() {
    let d = run_lines(&["position fen garbage", "bestmove e2e4"]);
    let recs = d.records();
    assert_eq!(recs.len(), 1);
    assert_eq!(recs[0].fen, START_FP);
}

#[test]
fn move_list_halts_at_first_unresolvable_token() {
    let d = run_lines(&["position startpos moves e2e4 junk e7e5", "bestmove e2e4"]);
    let recs = d.records();
    assert_eq!(recs.len(), 1);
    assert_eq!(
        recs[0].fen,
        "rnbqkbnr/pppppppp/8/8/4P3/8/PPPP1PPP/RNBQKBNR b KQkq -"
    );
}

#[test]
fn pv_truncates_at_first_unresolvable_token() {
    let d = run_lines(&[
        "position startpos",
        "info depth 1 pv e2e4 junk e7e5",
        "bestmove e2e4",
    ]);
    assert_eq!(d.records()[0].pv.as_deref(), Some("e4"));
}

#[test]
fn explicit_fen_with_move_list() {
    let d = run_lines(&[
        "position fen rnbqkbnr/pppppppp/8/8/8/8/PPPPPPPP/RNBQKBNR w KQkq - 0 1 moves e2e4",
        "bestmove e7e5",
    ]);
    assert_eq!(
        d.records()[0].fen,
        "rnbqkbnr/pppppppp/8/8/4P3/8/PPPP1PPP/RNBQKBNR b KQkq -"
    );
}

#[test]
fn fields_cleared_after_each_flush() {
    let d = run_lines(&[
        "position startpos",
        "info depth 4 nodes 100",
        "bestmove e2e4",
        "position startpos moves e2e4",
        "bestmove e7e5",
    ]);
    let recs = d.records();
    assert_eq!(recs.len(), 2);
    assert_eq!(recs[0].ply, Some(4));
    assert_eq!(recs[1].ply, None);
    assert_eq!(recs[1].nodes, None);
}

#[test]
fn unrecognized_lines_are_ignored() {
    let d = run_lines(&[
        "readyok",
        "option name Hash type spin",
        "position startpos",
        "isready",
        "bestmove e2e4",
    ]);
    assert_eq!(d.records().len(), 1);
}

#[test]
fn engine_name_overwritten() {
    let d = run_lines(&[
        "id name First",
        "id name Second Engine 2.0",
        "position startpos",
        "bestmove e2e4",
    ]);
    assert_eq!(d.records()[0].engine, "Second Engine 2.0");
}
