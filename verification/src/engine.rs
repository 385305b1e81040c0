//! The chess rules engine, behind trusted wrappers.
//!
//! A `Board` pairs an opaque engine position with the ghost sequence of
//! packed moves that produced it from the standard start. Everything the
//! engine computes is deterministic in that prefix, so each read crosses
//! the boundary as a named function of the prefix: the piece code on a
//! square, the side to move, a square's attack set, the legal moves,
//! whether a prefix replays legally, and the SAN text of a move. Squares
//! are indices 0..64 (`rank * 8 + file`); pieces are codes 0..=12 (0
//! empty, 1..=6 white pawn..king, 7..=12 black pawn..king); promotions
//! are the move codec's codes 0..=6, code `c` naming the engine's role
//! with discriminant `c`.

use vstd::prelude::*;
use shakmaty::Position;
use crate::moves::{
    Move, valid_bitfield, spec_encode_move, spec_code_promotion, lemma_bitfield_round_trip,
};

verus! {

#[verifier::external_type_specification]
#[verifier::external_body]
pub struct ExChess(shakmaty::Chess);

/// The number of piece codes: empty plus six roles for each colour.
pub open spec fn piece_code_bound() -> int {
    13
}

/// The piece code on one square after a move prefix: names what
/// `shakmaty::Board::piece_at` reads off the replayed position.
pub uninterp spec fn spec_piece_of(prefix: Seq<u16>, sq: int) -> u8;

/// Whether White is to move after a move prefix: names
/// `shakmaty::Position::turn` on the replayed position.
pub uninterp spec fn spec_turn_of(prefix: Seq<u16>) -> bool;

/// The squares attacked by the piece on one square after a move prefix:
/// names `shakmaty::Board::attacks_from` on the replayed position.
pub uninterp spec fn spec_attack_set_of(prefix: Seq<u16>, sq: int) -> Seq<u8>;

/// The legal moves after a move prefix, as (mover piece code, target
/// square) pairs: names `shakmaty::Position::legal_moves` on the replayed
/// position.
pub uninterp spec fn spec_legal_of(prefix: Seq<u16>) -> Seq<(u8, u8)>;

/// Whether a move prefix replays legally from the standard start: names
/// the success of `shakmaty::uci::UciMove::to_move` plus
/// `shakmaty::Position::play`, applied move by move.
pub uninterp spec fn spec_replay_ok(prefix: Seq<u16>) -> bool;

/// The SAN text of the from/to/promotion move at the position after a
/// prefix: names `shakmaty::san::San::from_move`'s rendering.
pub uninterp spec fn spec_san_text(prefix: Seq<u16>, from: int, to: int, promo: int) -> Seq<u8>;

/// The from/to/promotion a SAN token resolves to at the position after a
/// prefix, `None` when it parses to no unique legal move: names
/// `shakmaty::san::SanPlus::from_ascii` plus `shakmaty::san::San::to_move`.
pub uninterp spec fn spec_san_resolution(prefix: Seq<u16>, token: Seq<u8>) -> Option<(u8, u8, u8)>;

/// The piece codes on all 64 squares after a move prefix.
pub open spec fn spec_pieces_of(prefix: Seq<u16>) -> Seq<u8> {
    Seq::new(64, |sq: int| spec_piece_of(prefix, sq))
}

/// The attack sets of all 64 squares after a move prefix.
pub open spec fn spec_attacks_of(prefix: Seq<u16>) -> Seq<Seq<u8>> {
    Seq::new(64, |sq: int| spec_attack_set_of(prefix, sq))
}

/// The packed form of a from/to/promotion triple, as it extends a prefix.
pub open spec fn spec_packed(from: int, to: int, promo: int) -> u16 {
    spec_encode_move(from, to, spec_code_promotion(promo)) as u16
}

/// The standard starting placement, one piece code per square.
pub open spec fn spec_start_board() -> Seq<u8> {
    seq![
        4u8, 2u8, 3u8, 5u8, 6u8, 3u8, 2u8, 4u8,
        1u8, 1u8, 1u8, 1u8, 1u8, 1u8, 1u8, 1u8,
        0u8, 0u8, 0u8, 0u8, 0u8, 0u8, 0u8, 0u8,
        0u8, 0u8, 0u8, 0u8, 0u8, 0u8, 0u8, 0u8,
        0u8, 0u8, 0u8, 0u8, 0u8, 0u8, 0u8, 0u8,
        0u8, 0u8, 0u8, 0u8, 0u8, 0u8, 0u8, 0u8,
        7u8, 7u8, 7u8, 7u8, 7u8, 7u8, 7u8, 7u8,
        10u8, 8u8, 9u8, 11u8, 12u8, 9u8, 8u8, 10u8,
    ]
}

/// An engine position together with the ghost move prefix that produced
/// it from the standard start. Only `start` and `play` build one, each
/// pairing the engine's replayed position with exactly the moves that
/// were played.
pub struct Board {
    chess: shakmaty::Chess,
    prefix: Ghost<Seq<u16>>,
}

impl Board {
    /// The packed moves that produced this position.
    pub closed spec fn prefix(&self) -> Seq<u16> {
        self.prefix@
    }

    /// The standard starting position: nothing played yet.
    pub fn start() -> (r: Board)
        ensures
            r.prefix() == Seq::<u16>::empty(),
    {
        Board { chess: start_chess(), prefix: Ghost(Seq::empty()) }
    }

    /// Plays one packed move: the position after it when the engine finds
    /// the extended replay legal, `None` exactly when it does not.
    pub fn play(&self, m: &Move) -> (r: Option<Board>)
        requires
            valid_bitfield(m.bitfield),
        ensures
            match r {
                Some(b2) => {
                    &&& b2.prefix() == self.prefix().push(m.bitfield)
                    &&& spec_replay_ok(b2.prefix())
                },
                None => !spec_replay_ok(self.prefix().push(m.bitfield)),
            },
    {
        let from: u8 = m.move_from();
        let to: u8 = m.move_to();
        let promo: u8 = (m.bitfield / 4096) as u8;
        proof {
            lemma_bitfield_round_trip(m.bitfield);
            assert(spec_packed(from as int, to as int, promo as int) == m.bitfield);
        }
        match play_raw(self, from, to, promo) {
            Some(chess) => Some(Board { chess, prefix: Ghost(self.prefix@.push(m.bitfield)) }),
            None => None,
        }
    }
}

/// Relies on `shakmaty::Chess::default`: the standard starting position.
#[verifier::external_body]
fn start_chess() -> shakmaty::Chess {
    shakmaty::Chess::default()
}

/// Relies on `shakmaty::Position::turn`: true when White is to move —
/// and the engine starts a game with White to move.
#[verifier::external_body]
pub(crate) fn turn_is_white(b: &Board) -> (r: bool)
    ensures
        r == spec_turn_of(b.prefix()),
        b.prefix().len() == 0 ==> r == true,
{
    b.chess.turn() == shakmaty::Color::White
}

/// Relies on `shakmaty::Board::piece_at`: the piece standing on a square,
/// as a code 0..=12 — and the engine starts a game with the standard
/// placement.
#[verifier::external_body]
pub(crate) fn piece_code_at(b: &Board, sq: u8) -> (r: u8)
    requires
        sq < 64,
    ensures
        r == spec_piece_of(b.prefix(), sq as int),
        r < piece_code_bound(),
        b.prefix().len() == 0 ==> r == spec_start_board()[sq as int],
{
    match b.chess.board().piece_at(shakmaty::Square::new(sq as u32)) {
        None => 0,
        Some(p) => p.role as u8 + if p.color == shakmaty::Color::White { 0 } else { 6 },
    }
}

/// Relies on `shakmaty::Board::attacks_from`: the squares attacked by the
/// piece on `sq`, as indices.
#[verifier::external_body]
pub(crate) fn attack_targets(b: &Board, sq: u8) -> (r: Vec<u8>)
    requires
        sq < 64,
    ensures
        r@ == spec_attack_set_of(b.prefix(), sq as int),
        forall|i: int| 0 <= i < r@.len() ==> r@[i] < 64,
{
    let bb = b.chess.board().attacks_from(shakmaty::Square::new(sq as u32));
    bb.into_iter().map(|s| u32::from(s) as u8).collect()
}

/// Relies on `shakmaty::Position::legal_moves`, `shakmaty::Move::role` and
/// `shakmaty::Move::to`: for each legal move, the moving piece's code
/// (coloured by the side to move) and the target square index. For a
/// castling move the engine reports the rook's square as the target.
#[verifier::external_body]
pub(crate) fn legal_targets(b: &Board) -> (r: Vec<(u8, u8)>)
    ensures
        r@ == spec_legal_of(b.prefix()),
        forall|i: int|
            0 <= i < r@.len() ==> 1 <= (#[trigger] r@[i]).0 < piece_code_bound() && r@[i].1 < 64,
{
    let off: u8 = if b.chess.turn() == shakmaty::Color::White { 0 } else { 6 };
    b.chess.legal_moves().iter().map(|m| (m.role() as u8 + off, u32::from(m.to()) as u8)).collect()
}

/// Relies on `shakmaty::uci::UciMove::to_move` and
/// `shakmaty::Position::play`: applies a from/to/promotion move, giving
/// the position after it; `None` exactly when the engine finds the
/// extended replay illegal.
#[verifier::external_body]
fn play_raw(b: &Board, from: u8, to: u8, promo: u8) -> (r: Option<shakmaty::Chess>)
    requires
        from < 64,
        to < 64,
        promo <= 6,
    ensures
        r is Some <==> spec_replay_ok(
            b.prefix().push(spec_packed(from as int, to as int, promo as int)),
        ),
{
    let promotion = match promo {
        1 => Some(shakmaty::Role::Pawn), 2 => Some(shakmaty::Role::Knight),
        3 => Some(shakmaty::Role::Bishop), 4 => Some(shakmaty::Role::Rook),
        5 => Some(shakmaty::Role::Queen), 6 => Some(shakmaty::Role::King), _ => None,
    };
    let from = shakmaty::Square::new(from as u32);
    let to = shakmaty::Square::new(to as u32);
    let uci = shakmaty::uci::UciMove::Normal { from, to, promotion };
    let m = match uci.to_move(&b.chess) {
        Ok(m) => m,
        Err(_) => return None,
    };
    b.chess.clone().play(&m).ok()
}

/// Relies on `shakmaty::san::SanPlus::from_ascii` and
/// `shakmaty::san::San::to_move`: resolves a SAN token against the
/// position into a from/to/promotion triple — deterministic in the prefix
/// and the token, `None` when the token does not parse or names no unique
/// legal move there (the engine gives a pawn drop no origin; that too is
/// `None`). A resolved move is legal, so the extended replay is too.
#[verifier::external_body]
pub(crate) fn resolve_san(b: &Board, san: &Vec<u8>) -> (r: Option<(u8, u8, u8)>)
    ensures
        r == spec_san_resolution(b.prefix(), san@),
        r matches Some(t) ==> t.0 < 64 && t.1 < 64 && t.2 <= 6 && spec_replay_ok(
            b.prefix().push(spec_packed(t.0 as int, t.1 as int, t.2 as int)),
        ),
{
    let parsed = match shakmaty::san::SanPlus::from_ascii(san.as_slice()) {
        Ok(p) => p,
        Err(_) => return None,
    };
    let m = match parsed.san.to_move(&b.chess) {
        Ok(m) => m,
        Err(_) => return None,
    };
    let from = u32::from(m.from()?) as u8;
    Some((from, u32::from(m.to()) as u8, m.promotion().map_or(0, |p| p as u8)))
}

/// Relies on `shakmaty::san::San::from_move` (with
/// `shakmaty::uci::UciMove::to_move` to check the move): renders a
/// from/to/promotion move as SAN text for the position; `None` exactly
/// when the engine finds the extended replay illegal.
#[verifier::external_body]
pub(crate) fn san_raw(b: &Board, from: u8, to: u8, promo: u8) -> (r: Option<Vec<u8>>)
    requires
        from < 64,
        to < 64,
        promo <= 6,
    ensures
        r matches Some(t) ==> t@ == spec_san_text(
            b.prefix(),
            from as int,
            to as int,
            promo as int,
        ) && spec_replay_ok(b.prefix().push(spec_packed(from as int, to as int, promo as int))),
        r is None ==> !spec_replay_ok(
            b.prefix().push(spec_packed(from as int, to as int, promo as int)),
        ),
{
    let promotion = match promo {
        1 => Some(shakmaty::Role::Pawn), 2 => Some(shakmaty::Role::Knight),
        3 => Some(shakmaty::Role::Bishop), 4 => Some(shakmaty::Role::Rook),
        5 => Some(shakmaty::Role::Queen), 6 => Some(shakmaty::Role::King), _ => None,
    };
    let from = shakmaty::Square::new(from as u32);
    let to = shakmaty::Square::new(to as u32);
    let uci = shakmaty::uci::UciMove::Normal { from, to, promotion };
    let m = match uci.to_move(&b.chess) {
        Ok(m) => m,
        Err(_) => return None,
    };
    Some(format!("{}", shakmaty::san::San::from_move(&b.chess, &m)).into_bytes())
}

} // verus!
