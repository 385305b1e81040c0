//! The 16-bit move codec.
//!
//! A move is a pair of squares plus an optional promotion piece, packed into
//! one `u16`: the promotion code sits in bits 14..12, the origin square in
//! bits 11..6 and the target square in bits 5..0. Each 6-bit square field
//! holds the file in its upper three bits and the rank in its lower three.

use vstd::prelude::*;

verus! {

/// A piece a pawn can be promoted to (the codec also admits `Pawn` and
/// `King` codes, mirroring the wire format's seven promotion values).
#[derive(Clone, Copy, Debug, PartialEq, Eq, Structural)]
pub enum Role {
    Pawn,
    Knight,
    Bishop,
    Rook,
    Queen,
    King,
}

/// The promotion code stored in bits 14..12 of the bitfield.
pub open spec fn spec_promotion_code(p: Option<Role>) -> int {
    match p {
        None => 0,
        Some(Role::Pawn) => 1,
        Some(Role::Knight) => 2,
        Some(Role::Bishop) => 3,
        Some(Role::Rook) => 4,
        Some(Role::Queen) => 5,
        Some(Role::King) => 6,
    }
}

/// The promotion a code in 0..=6 stands for.
pub open spec fn spec_code_promotion(c: int) -> Option<Role> {
    if c == 1 {
        Some(Role::Pawn)
    } else if c == 2 {
        Some(Role::Knight)
    } else if c == 3 {
        Some(Role::Bishop)
    } else if c == 4 {
        Some(Role::Rook)
    } else if c == 5 {
        Some(Role::Queen)
    } else if c == 6 {
        Some(Role::King)
    } else {
        None
    }
}

/// Swaps the file and rank parts of a 6-bit value: a square index
/// `rank * 8 + file` becomes the packed form `file * 8 + rank`, and the
/// same map decodes the packed form back to the square index.
pub open spec fn spec_swap_file_rank(sq: int) -> int {
    (sq % 8) * 8 + sq / 8
}

/// The 16-bit packing of a move: promotion code, then origin, then target.
pub open spec fn spec_encode_move(from: int, to: int, p: Option<Role>) -> int {
    spec_promotion_code(p) * 4096 + spec_swap_file_rank(from) * 64 + spec_swap_file_rank(to)
}

/// A bitfield is a move encoding exactly when its promotion code is at
/// most 6 (this also keeps the top bit clear).
pub open spec fn valid_bitfield(b: u16) -> bool {
    b < 7 * 4096
}

/// The origin square a bitfield decodes to.
pub open spec fn spec_move_from(b: u16) -> int {
    spec_swap_file_rank((b as int / 64) % 64)
}

/// The target square a bitfield decodes to.
pub open spec fn spec_move_to(b: u16) -> int {
    spec_swap_file_rank(b as int % 64)
}

/// The promotion a bitfield decodes to.
pub open spec fn spec_move_promotion(b: u16) -> Option<Role> {
    spec_code_promotion(b as int / 4096)
}

/// The packed bitfields of a move list, in order.
pub open spec fn spec_bitfields(ms: Seq<Move>) -> Seq<u16> {
    Seq::new(ms.len(), |i: int| ms[i].bitfield)
}

/// A chess move packed into 16 bits.
#[derive(Clone, Copy, Debug, PartialEq, Eq, Structural)]
pub struct Move {
    pub bitfield: u16,
}

impl Move {
    /// Packs an origin square, a target square (both square indices,
    /// `rank * 8 + file`) and an optional promotion into a bitfield.
    pub fn new(from: u8, to: u8, promotion: Option<Role>) -> (r: Move)
        requires
            from < 64,
            to < 64,
        ensures
            r.bitfield == spec_encode_move(from as int, to as int, promotion),
            valid_bitfield(r.bitfield),
            spec_move_from(r.bitfield) == from as int,
            spec_move_to(r.bitfield) == to as int,
            spec_move_promotion(r.bitfield) == promotion,
    {
        let from_packed: u16 = (from as u16 % 8) * 8 + from as u16 / 8;
        let to_packed: u16 = (to as u16 % 8) * 8 + to as u16 / 8;
        let promo: u16 = match promotion {
            None => 0,
            Some(Role::Pawn) => 1,
            Some(Role::Knight) => 2,
            Some(Role::Bishop) => 3,
            Some(Role::Rook) => 4,
            Some(Role::Queen) => 5,
            Some(Role::King) => 6,
        };
        let bitfield: u16 = promo * 4096 + from_packed * 64 + to_packed;
        proof {
            lemma_move_round_trip(from as int, to as int, promotion);
        }
        Move { bitfield }
    }

    /// The promotion piece, if any.
    pub fn promotion(&self) -> (r: Option<Role>)
        requires
            valid_bitfield(self.bitfield),
        ensures
            r == spec_move_promotion(self.bitfield),
    {
        let code: u16 = self.bitfield / 4096;
        match code {
            1 => Some(Role::Pawn),
            2 => Some(Role::Knight),
            3 => Some(Role::Bishop),
            4 => Some(Role::Rook),
            5 => Some(Role::Queen),
            6 => Some(Role::King),
            _ => None,
        }
    }

    /// The origin square index.
    pub fn move_from(&self) -> (r: u8)
        ensures
            r as int == spec_move_from(self.bitfield),
            r < 64,
    {
        let packed: u16 = (self.bitfield / 64) % 64;
        ((packed % 8) * 8 + packed / 8) as u8
    }

    /// The target square index.
    pub fn move_to(&self) -> (r: u8)
        ensures
            r as int == spec_move_to(self.bitfield),
            r < 64,
    {
        let packed: u16 = self.bitfield % 64;
        ((packed % 8) * 8 + packed / 8) as u8
    }
}

/// The UCI letter of a promotion code 1..=6.
pub open spec fn spec_promo_letter(c: int) -> u8 {
    if c == 1 {
        112
    } else if c == 2 {
        110
    } else if c == 3 {
        98
    } else if c == 4 {
        114
    } else if c == 5 {
        113
    } else {
        107
    }
}

/// A square index as UCI text: its file letter, then its rank digit.
pub open spec fn spec_square_text(sq: int) -> Seq<u8> {
    seq![(97 + sq % 8) as u8, (49 + sq / 8) as u8]
}

/// A packed move as UCI text: origin, target, and the promotion letter
/// when there is one.
pub open spec fn spec_uci_text(b: u16) -> Seq<u8> {
    spec_square_text(spec_move_from(b)) + spec_square_text(spec_move_to(b)) + (if b as int / 4096
        == 0 {
        Seq::<u8>::empty()
    } else {
        seq![spec_promo_letter(b as int / 4096)]
    })
}

impl Move {
    /// The move as UCI text, e.g. `e2e4` or `h7h8q`.
    pub fn to_uci(&self) -> (r: Vec<u8>)
        requires
            valid_bitfield(self.bitfield),
        ensures
            r@ == spec_uci_text(self.bitfield),
    {
        let from: u8 = self.move_from();
        let to: u8 = self.move_to();
        let code: u16 = self.bitfield / 4096;
        let mut v: Vec<u8> = Vec::new();
        v.push(97 + from % 8);
        v.push(49 + from / 8);
        v.push(97 + to % 8);
        v.push(49 + to / 8);
        if code != 0 {
            let letter: u8 = if code == 1 {
                112
            } else if code == 2 {
                110
            } else if code == 3 {
                98
            } else if code == 4 {
                114
            } else if code == 5 {
                113
            } else {
                107
            };
            v.push(letter);
        }
        proof {
            assert(v@ =~= spec_uci_text(self.bitfield));
        }
        v
    }
}

/// Swapping file and rank twice gives the square back.
pub proof fn lemma_swap_involution(sq: int)
    requires
        0 <= sq < 64,
    ensures
        spec_swap_file_rank(spec_swap_file_rank(sq)) == sq,
        0 <= spec_swap_file_rank(sq) < 64,
{
    assert(spec_swap_file_rank(spec_swap_file_rank(sq)) == sq
        && 0 <= spec_swap_file_rank(sq) < 64) by (nonlinear_arith)
        requires 0 <= sq < 64;
}

/// Move round trip, the other way: re-encoding the decoded squares and
/// promotion of any valid bitfield gives the bitfield back.
pub proof fn lemma_bitfield_round_trip(b: u16)
    requires
        valid_bitfield(b),
    ensures
        spec_encode_move(spec_move_from(b), spec_move_to(b), spec_move_promotion(b)) == b,
        0 <= spec_move_from(b) < 64,
        0 <= spec_move_to(b) < 64,
{
    let p = b as int / 4096;
    let fpack = (b as int / 64) % 64;
    let tpack = b as int % 64;
    assert(0 <= p <= 6);
    assert(spec_promotion_code(spec_code_promotion(p)) == p);
    assert(0 <= fpack < 64 && 0 <= tpack < 64 && 0 <= fpack % 8 * 8 + fpack / 8 < 64 && 0 <= tpack
        % 8 * 8 + tpack / 8 < 64) by (nonlinear_arith)
        requires
            fpack == (b as int / 64) % 64,
            tpack == b as int % 64,
            b >= 0;
    assert(spec_swap_file_rank(spec_swap_file_rank(fpack)) == fpack) by {
        lemma_swap_involution(fpack);
    }
    assert(spec_swap_file_rank(spec_swap_file_rank(tpack)) == tpack) by {
        lemma_swap_involution(tpack);
    }
    assert(p * 4096 + fpack * 64 + tpack == b) by (nonlinear_arith)
        requires
            p == b as int / 4096,
            fpack == (b as int / 64) % 64,
            tpack == b as int % 64,
            0 <= b < 7 * 4096;
}

/// Move round trip: decoding the encoding of any pair of squares and any
/// of the seven promotion values gives the same squares and promotion back.
pub proof fn lemma_move_round_trip(from: int, to: int, p: Option<Role>)
    requires
        0 <= from < 64,
        0 <= to < 64,
    ensures
        0 <= spec_encode_move(from, to, p) < 7 * 4096,
        spec_move_from(spec_encode_move(from, to, p) as u16) == from,
        spec_move_to(spec_encode_move(from, to, p) as u16) == to,
        spec_move_promotion(spec_encode_move(from, to, p) as u16) == p,
{
    lemma_swap_involution(from);
    lemma_swap_involution(to);
    let pc = spec_promotion_code(p);
    let f = spec_swap_file_rank(from);
    let t = spec_swap_file_rank(to);
    let b = pc * 4096 + f * 64 + t;
    assert(0 <= pc <= 6);
    assert(0 <= b < 7 * 4096 && b / 4096 == pc && (b / 64) % 64 == f && b % 64 == t)
        by (nonlinear_arith)
        requires
            0 <= pc <= 6,
            0 <= f < 64,
            0 <= t < 64,
            b == pc * 4096 + f * 64 + t;
}

} // verus!
