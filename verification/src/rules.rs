//! The interface to the chess rules engine (the shakmaty crate). The library
//! never rebuilds the rules of chess: move generation, move application,
//! position parsing and rendering are consumed through the trusted items
//! below. A position is identified in specifications by `fen_of`, the full
//! position description that the engine renders for it; legal moves are
//! addressed by their index in the engine's generation order, projected to
//! plain coordinates by `legal_of`.

use vstd::prelude::*;
use shakmaty::Position;

verus! {

#[verifier::external_type_specification]
#[verifier::external_body]
pub struct ExChess(shakmaty::Chess);

/// A rules-legal move reduced to what the protocol can spell: origin and
/// destination square indices (rank-major, 0 through 63) and the lower-case
/// letter of the promotion piece, if any.
#[derive(Clone, Copy)]
pub struct CoordMove {
    pub from_sq: Option<u8>,
    pub to_sq: u8,
    pub promo: Option<char>,
}

/// The full position description (six space-separated fields) that the rules
/// engine renders for a position, with en-passant squares shown only when a
/// legal en-passant capture exists.
pub uninterp spec fn fen_of(b: shakmaty::Chess) -> Seq<char>;

/// The legal moves of the position whose description is `fen`, in the rules
/// engine's generation order, each projected to its coordinates.
pub uninterp spec fn legal_of(fen: Seq<char>) -> Seq<CoordMove>;

/// The description of the position reached by playing the `i`-th legal move
/// on the position described by `fen`.
pub uninterp spec fn played_fen(fen: Seq<char>, i: int) -> Seq<char>;

/// The standard algebraic notation of the `i`-th legal move of the position
/// described by `fen`.
pub uninterp spec fn san_of(fen: Seq<char>, i: int) -> Seq<char>;

/// What position-description parsing yields on `s`: the description of the
/// accepted position, or `None` when the text is rejected.
pub uninterp spec fn parsed_fen(s: Seq<char>) -> Option<Seq<char>>;

/// The description of the standard starting position.
pub open spec fn start_fen() -> Seq<char> {
    "rnbqkbnr/pppppppp/8/8/8/8/PPPPPPPP/RNBQKBNR w KQkq - 0 1"@
}

/// Relies on Chess::default: the standard starting position, whose rendered
/// description is the standard starting FEN.
#[verifier::external_body]
pub fn start_board() -> (b: shakmaty::Chess)
    ensures
        fen_of(b) == start_fen(),
{
    shakmaty::Chess::default()
}

/// Relies on Chess::clone: an exact copy of the position.
#[verifier::external_body]
pub fn clone_board(b: &shakmaty::Chess) -> (r: shakmaty::Chess)
    ensures
        fen_of(r) == fen_of(*b),
{
    b.clone()
}

/// Relies on Fen::from_position (at the legal en-passant mode) and its
/// Display rendering: the position's full description, a function of the
/// position alone.
#[verifier::external_body]
pub fn board_fen(b: &shakmaty::Chess) -> (r: String)
    ensures
        r@ == fen_of(*b),
{
    shakmaty::fen::Fen::from_position(b, shakmaty::EnPassantMode::Legal).to_string()
}

/// Relies on Fen's FromStr and Fen::into_position (standard castling mode):
/// both accept or reject on the text alone, and the accepted position is a
/// function of the text alone.
#[verifier::external_body]
pub fn parse_fen(s: &str) -> (r: Option<shakmaty::Chess>)
    ensures
        match r {
            Some(b) => parsed_fen(s@) == Some(fen_of(b)),
            None => parsed_fen(s@) is None,
        },
{
    match s.parse::<shakmaty::fen::Fen>() {
        Ok(f) => match f.into_position(shakmaty::CastlingMode::Standard) {
            Ok(p) => Some(p),
            Err(_) => None,
        },
        Err(_) => None,
    }
}

/// Relies on Position::legal_moves and the coordinate accessors of Move
/// (Move::from, Move::to, Move::promotion, Role::char, Square::to_u32): the
/// legal moves of a position, in generation order, projected one for one to
/// plain coordinates.
#[verifier::external_body]
pub fn legal_coords(b: &shakmaty::Chess) -> (r: Vec<CoordMove>)
    ensures
        r@ == legal_of(fen_of(*b)),
{
    b.legal_moves().iter().map(
        |m| CoordMove {
            from_sq: m.from().map(|s| s.to_u32() as u8),
            to_sq: m.to().to_u32() as u8,
            promo: m.promotion().map(|p| p.char()),
        },
    ).collect()
}

/// Relies on Position::legal_moves and Position::play_unchecked: playing the
/// `i`-th generated legal move on a copy of the position; the result is a
/// function of the position and the index alone, since generation order is
/// deterministic. Moves are addressed by index so that only plain values
/// cross the trusted boundary; the move list is regenerated here rather
/// than holding an opaque move value in verified code.
#[verifier::external_body]
pub fn play_nth(b: &shakmaty::Chess, i: usize) -> (r: shakmaty::Chess)
    requires
        i < legal_of(fen_of(*b)).len(),
    ensures
        fen_of(r) == played_fen(fen_of(*b), i as int),
{
    let m = b.legal_moves()[i];
    let mut nb = b.clone();
    nb.play_unchecked(m);
    nb
}

/// Relies on Position::legal_moves, San::from_move and its Display
/// rendering: the standard algebraic notation of the `i`-th generated legal
/// move on the position it is played from, a function of the position and
/// the index alone.
#[verifier::external_body]
pub fn san_nth(b: &shakmaty::Chess, i: usize) -> (r: String)
    requires
        i < legal_of(fen_of(*b)).len(),
    ensures
        r@ == san_of(fen_of(*b), i as int),
{
    let m = b.legal_moves()[i];
    shakmaty::san::San::from_move(b, m).to_string()
}

} // verus!
