//! The move resolver and the principal-variation converter: coordinate move
//! tokens are resolved against the legal moves of a position, move lists are
//! applied up to the first unresolvable token, and variations are rendered
//! in standard algebraic notation.

use vstd::prelude::*;
use vstd::string::*;
use crate::rules::{
    CoordMove, fen_of, legal_of, played_fen, san_of, legal_coords, play_nth, san_nth, clone_board,
};
use crate::text::{tokens_of, tokenize, join_spaces, join_prefix};

verus! {

pub open spec fn is_promo_char(c: char) -> bool {
    c == 'q' || c == 'r' || c == 'b' || c == 'n'
}

/// The board square spelled by a file letter and a rank digit, as a
/// rank-major index, when both are in range.
pub open spec fn square_of(f: char, r: char) -> Option<u8> {
    if 'a' <= f && f <= 'h' && '1' <= r && r <= '8' {
        Some((((r as u32 - '1' as u32) * 8) + (f as u32 - 'a' as u32)) as u8)
    } else {
        None
    }
}

/// The coordinates spelled by a move token: two squares, and a promotion
/// piece exactly when the token has a fifth character that names one.
pub open spec fn coord_of_token(tok: Seq<char>) -> Option<CoordMove> {
    if tok.len() < 4 {
        None
    } else {
        match (square_of(tok[0], tok[1]), square_of(tok[2], tok[3])) {
            (Some(f), Some(t)) => Some(
                CoordMove {
                    from_sq: Some(f),
                    to_sq: t,
                    promo: if tok.len() == 5 && is_promo_char(tok[4]) {
                        Some(tok[4])
                    } else {
                        None
                    },
                },
            ),
            _ => None,
        }
    }
}

/// A legal move answers to a token's coordinates when origin, destination
/// and promotion choice all agree.
pub open spec fn cm_match(m: CoordMove, t: CoordMove) -> bool {
    m.from_sq == t.from_sq && m.to_sq == t.to_sq && m.promo == t.promo
}

/// The first index at or after `j` whose move answers to `t`.
pub open spec fn find_match_from(ms: Seq<CoordMove>, t: CoordMove, j: int) -> Option<int>
    decreases ms.len() - j + 1,
{
    if j < 0 || j >= ms.len() {
        None
    } else if cm_match(ms[j], t) {
        Some(j)
    } else {
        find_match_from(ms, t, j + 1)
    }
}

pub proof fn lemma_find_match_in_range(ms: Seq<CoordMove>, t: CoordMove, j: int)
    ensures
        match find_match_from(ms, t, j) {
            Some(i) => j <= i < ms.len() && cm_match(ms[i], t),
            None => true,
        },
    decreases ms.len() - j + 1,
{
    if !(j < 0 || j >= ms.len()) && !cm_match(ms[j], t) {
        lemma_find_match_in_range(ms, t, j + 1);
    }
}

/// What a move token denotes on the position described by `fen`: the unique
/// legal move whose coordinates answer to the token, or nothing when the
/// token is malformed, no legal move answers, or more than one does.
pub open spec fn resolve_of(fen: Seq<char>, tok: Seq<char>) -> Option<int> {
    match coord_of_token(tok) {
        None => None,
        Some(t) => match find_match_from(legal_of(fen), t, 0) {
            None => None,
            Some(i) => if find_match_from(legal_of(fen), t, i + 1) is None {
                Some(i)
            } else {
                None
            },
        },
    }
}

fn square_of_chars(f: char, r: char) -> (res: Option<u8>)
    ensures
        res == square_of(f, r),
{
    if 'a' <= f && f <= 'h' && '1' <= r && r <= '8' {
        Some((((r as u32 - '1' as u32) * 8) + (f as u32 - 'a' as u32)) as u8)
    } else {
        None
    }
}

fn cm_matches(m: &CoordMove, t: &CoordMove) -> (r: bool)
    ensures
        r == cm_match(*m, *t),
{
    let from_eq = match (m.from_sq, t.from_sq) {
        (Some(a), Some(b)) => a == b,
        (None, None) => true,
        _ => false,
    };
    let promo_eq = match (m.promo, t.promo) {
        (Some(a), Some(b)) => a == b,
        (None, None) => true,
        _ => false,
    };
    from_eq && m.to_sq == t.to_sq && promo_eq
}

fn token_coords(uci: &str) -> (r: Option<CoordMove>)
    ensures
        r == coord_of_token(uci@),
{
    let n = uci.unicode_len();
    if n < 4 {
        return None;
    }
    let c0 = uci.get_char(0);
    let c1 = uci.get_char(1);
    let c2 = uci.get_char(2);
    let c3 = uci.get_char(3);
    let from_sq = square_of_chars(c0, c1);
    let to_sq = square_of_chars(c2, c3);
    match (from_sq, to_sq) {
        (Some(f), Some(t)) => {
            let promo = if n == 5 {
                let c4 = uci.get_char(4);
                if c4 == 'q' || c4 == 'r' || c4 == 'b' || c4 == 'n' {
                    Some(c4)
                } else {
                    None
                }
            } else {
                None
            };
            Some(CoordMove { from_sq: Some(f), to_sq: t, promo })
        },
        _ => None,
    }
}

/// Resolves a coordinate move token against a position: the index, in the
/// rules engine's generation order, of the unique legal move the token
/// denotes, or nothing.
pub fn parse_uci_move(uci: &str, board: &shakmaty::Chess) -> (r: Option<usize>)
    ensures
        match r {
            Some(i) => resolve_of(fen_of(*board), uci@) == Some(i as int),
            None => resolve_of(fen_of(*board), uci@) is None,
        },
{
    let t = match token_coords(uci) {
        Some(t) => t,
        None => {
            return None;
        },
    };
    let ms = legal_coords(board);
    let ghost msv = legal_of(fen_of(*board));
    let mut j: usize = 0;
    let mut first: Option<usize> = None;
    let mut dup: bool = false;
    while j < ms.len()
        invariant
            ms@ == msv,
            j <= ms@.len(),
            match first {
                None => !dup && find_match_from(msv, t, 0) == find_match_from(msv, t, j as int),
                Some(i) => i < j && find_match_from(msv, t, 0) == Some(i as int) && (if dup {
                    find_match_from(msv, t, i + 1) is Some
                } else {
                    find_match_from(msv, t, i + 1) == find_match_from(msv, t, j as int)
                }),
            },
        decreases ms@.len() - j,
    {
        let hit = cm_matches(&ms[j], &t);
        if hit {
            match first {
                None => {
                    first = Some(j);
                },
                Some(_) => {
                    dup = true;
                },
            }
        }
        j += 1;
    }
    match first {
        None => None,
        Some(i) => {
            if dup {
                None
            } else {
                Some(i)
            }
        },
    }
}

/// The position reached by applying a token list in order, halting at the
/// first token that does not resolve.
pub open spec fn apply_of(fen: Seq<char>, toks: Seq<Seq<char>>) -> Seq<char>
    decreases toks.len(),
{
    if toks.len() == 0 {
        fen
    } else {
        match resolve_of(fen, toks[0]) {
            Some(i) => apply_of(played_fen(fen, i), toks.skip(1)),
            None => fen,
        }
    }
}

/// Applies a whitespace-separated move list to a board, move by move,
/// stopping at the first unresolvable token.
pub fn apply_moves(board: shakmaty::Chess, moves_str: &str) -> (r: shakmaty::Chess)
    ensures
        fen_of(r) == apply_of(fen_of(board), tokens_of(moves_str@)),
{
    let toks = tokenize(moves_str);
    let ghost tv = toks.deep_view();
    let ghost fen0 = fen_of(board);
    let mut b = board;
    let mut k: usize = 0;
    let mut stopped: bool = false;
    proof {
        assert(tv.skip(0) =~= tv);
    }
    while k < toks.len() && !stopped
        invariant
            tv == toks.deep_view(),
            k <= toks@.len(),
            toks@.len() == tv.len(),
            !stopped ==> apply_of(fen0, tv) == apply_of(fen_of(b), tv.skip(k as int)),
            stopped ==> apply_of(fen0, tv) == fen_of(b),
        decreases toks@.len() - k + (if stopped {
            0int
        } else {
            1int
        }),
    {
        proof {
            assert(tv.skip(k as int)[0] == tv[k as int]);
            assert(tv.skip(k as int).skip(1) =~= tv.skip(k as int + 1));
        }
        match parse_uci_move(toks[k].as_str(), &b) {
            Some(i) => {
                proof {
                    lemma_find_match_in_range(legal_of(fen_of(b)), coord_of_token(tv[k as int]).unwrap(), 0);
                }
                b = play_nth(&b, i);
                k += 1;
            },
            None => {
                stopped = true;
            },
        }
    }
    proof {
        if !stopped {
            assert(tv.skip(k as int) =~= Seq::<Seq<char>>::empty());
        }
    }
    b
}

/// The longest resolvable prefix of a variation, each move rendered in
/// standard algebraic notation on the position it is played from.
pub open spec fn pv_san_of(fen: Seq<char>, toks: Seq<Seq<char>>) -> Seq<Seq<char>>
    decreases toks.len(),
{
    if toks.len() == 0 {
        Seq::empty()
    } else {
        match resolve_of(fen, toks[0]) {
            Some(i) => seq![san_of(fen, i)] + pv_san_of(played_fen(fen, i), toks.skip(1)),
            None => Seq::empty(),
        }
    }
}

/// Renders a whitespace-separated coordinate move sequence in standard
/// algebraic notation on a snapshot of `initial_board`, truncating at the
/// first unresolvable token, space-joined.
pub fn convert_pv_to_san(pv: &str, initial_board: &shakmaty::Chess) -> (r: String)
    ensures
        r@ == join_spaces(pv_san_of(fen_of(*initial_board), tokens_of(pv@))),
{
    let toks = tokenize(pv);
    let ghost tv = toks.deep_view();
    let ghost fen0 = fen_of(*initial_board);
    let mut b = clone_board(initial_board);
    let mut sans: Vec<String> = Vec::new();
    let mut k: usize = 0;
    let mut stopped: bool = false;
    proof {
        assert(tv.skip(0) =~= tv);
        assert(sans.deep_view() + pv_san_of(fen0, tv) =~= pv_san_of(fen0, tv));
    }
    while k < toks.len() && !stopped
        invariant
            tv == toks.deep_view(),
            k <= toks@.len(),
            toks@.len() == tv.len(),
            !stopped ==> pv_san_of(fen0, tv) == sans.deep_view() + pv_san_of(
                fen_of(b),
                tv.skip(k as int),
            ),
            stopped ==> pv_san_of(fen0, tv) == sans.deep_view(),
        decreases toks@.len() - k + (if stopped {
            0int
        } else {
            1int
        }),
    {
        proof {
            assert(tv.skip(k as int)[0] == tv[k as int]);
            assert(tv.skip(k as int).skip(1) =~= tv.skip(k as int + 1));
        }
        match parse_uci_move(toks[k].as_str(), &b) {
            Some(i) => {
                proof {
                    lemma_find_match_in_range(legal_of(fen_of(b)), coord_of_token(tv[k as int]).unwrap(), 0);
                }
                let ghost old_sans = sans.deep_view();
                let san = san_nth(&b, i);
                sans.push(san);
                proof {
                    assert(sans.deep_view() =~= old_sans + seq![san_of(fen_of(b), i as int)]);
                    assert(old_sans + (seq![san_of(fen_of(b), i as int)] + pv_san_of(
                        played_fen(fen_of(b), i as int),
                        tv.skip(k as int + 1),
                    )) =~= sans.deep_view() + pv_san_of(
                        played_fen(fen_of(b), i as int),
                        tv.skip(k as int + 1),
                    ));
                }
                b = play_nth(&b, i);
                k += 1;
            },
            None => {
                proof {
                    assert(sans.deep_view() + Seq::<Seq<char>>::empty() =~= sans.deep_view());
                }
                stopped = true;
            },
        }
    }
    proof {
        if !stopped {
            assert(tv.skip(k as int) =~= Seq::<Seq<char>>::empty());
            assert(sans.deep_view() + Seq::<Seq<char>>::empty() =~= sans.deep_view());
        }
    }
    let n = sans.len();
    let out = join_prefix(&sans, n);
    proof {
        assert(sans.deep_view().take(n as int) =~= sans.deep_view());
    }
    out
}

/// The move resolver honours an explicit promotion letter exactly, and a
/// token without one never resolves to a promotion, even when a promoting
/// move to the same destination is legal.
pub proof fn lemma_resolver_promotion(fen: Seq<char>, tok: Seq<char>)
    ensures
        match resolve_of(fen, tok) {
            Some(i) => {
                &&& 0 <= i < legal_of(fen).len()
                &&& (tok.len() == 5 && is_promo_char(tok[4]) ==> legal_of(fen)[i].promo == Some(
                    tok[4],
                ))
                &&& (!(tok.len() == 5 && is_promo_char(tok[4])) ==> legal_of(fen)[i].promo
                    is None)
            },
            None => true,
        },
{
    if resolve_of(fen, tok) is Some {
        let t = coord_of_token(tok).unwrap();
        lemma_find_match_in_range(legal_of(fen), t, 0);
    }
}

/// The position reached after the first `k` tokens of a variation, each
/// resolved and played in turn.
pub open spec fn pv_state(fen: Seq<char>, toks: Seq<Seq<char>>, k: int) -> Seq<char>
    decreases k,
{
    if k <= 0 || toks.len() == 0 {
        fen
    } else {
        match resolve_of(fen, toks[0]) {
            Some(i) => pv_state(played_fen(fen, i), toks.skip(1), k - 1),
            None => fen,
        }
    }
}

/// A converted variation never reaches past its first unresolvable token:
/// each rendered move is the notation of a token that resolved on the
/// position reached before it, and if the output is shorter than the input,
/// the next token fails to resolve there.
pub proof fn lemma_pv_truncation(fen: Seq<char>, toks: Seq<Seq<char>>)
    ensures
        pv_san_of(fen, toks).len() <= toks.len(),
        forall|k: int| 0 <= k < pv_san_of(fen, toks).len() ==> {
            let st = pv_state(fen, toks, k);
            &&& resolve_of(st, #[trigger] toks[k]) is Some
            &&& pv_san_of(fen, toks)[k] == san_of(st, resolve_of(st, toks[k]).unwrap())
        },
        pv_san_of(fen, toks).len() < toks.len() ==> resolve_of(
            pv_state(fen, toks, pv_san_of(fen, toks).len() as int),
            toks[pv_san_of(fen, toks).len() as int],
        ) is None,
    decreases toks.len(),
{
    if toks.len() > 0 {
        match resolve_of(fen, toks[0]) {
            Some(i) => {
                lemma_pv_truncation(played_fen(fen, i), toks.skip(1));
                let rest = pv_san_of(played_fen(fen, i), toks.skip(1));
                let whole = pv_san_of(fen, toks);
                assert(whole.len() == 1 + rest.len());
                assert forall|k: int| 0 <= k < whole.len() implies {
                    let st = pv_state(fen, toks, k);
                    &&& resolve_of(st, #[trigger] toks[k]) is Some
                    &&& whole[k] == san_of(st, resolve_of(st, toks[k]).unwrap())
                } by {
                    if k > 0 {
                        assert(toks.skip(1)[k - 1] == toks[k]);
                        assert(pv_state(fen, toks, k) == pv_state(
                            played_fen(fen, i),
                            toks.skip(1),
                            k - 1,
                        ));
                        assert(whole[k] == rest[k - 1]);
                    }
                }
                if whole.len() < toks.len() {
                    assert(toks.skip(1)[rest.len() as int] == toks[whole.len() as int]);
                    assert(pv_state(fen, toks, whole.len() as int) == pv_state(
                        played_fen(fen, i),
                        toks.skip(1),
                        rest.len() as int,
                    ));
                }
            },
            None => {
            },
        }
    }
}

} // verus!
