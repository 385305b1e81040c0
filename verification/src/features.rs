//! The position feature encoder: an 8×8×37 tensor per position.
//!
//! Cell values are IEEE-754 single-precision bit patterns (0.0, 1.0 or
//! −1.0), kept as `u32` so that the tensor is byte-exact without floating
//! point. Plane layout: 12 occupancy planes (one per piece code), the
//! side-to-move plane, 12 attacked-by planes and 12 reachable-by planes.
//! Row 0 of each plane is rank 8: a cell `(x, y)` speaks of the square
//! with file `x` and rank `7 - y`.

use vstd::prelude::*;
use crate::engine::{
    Board, turn_is_white, piece_code_at, attack_targets, legal_targets, piece_code_bound,
    spec_pieces_of, spec_turn_of, spec_attacks_of, spec_legal_of, spec_replay_ok,
    spec_start_board,
};
use crate::moves::{Move, valid_bitfield, spec_bitfields};

verus! {

/// Planes per position.
pub const FEATURES: usize = 37;

/// Cells per position: 8 files x 8 rows x 37 planes.
pub const POSITION_CELLS: usize = 2368;

/// The bit pattern of 0.0f32.
pub const F32_ZERO_BITS: u32 = 0x00000000;

/// The bit pattern of 1.0f32.
pub const F32_ONE_BITS: u32 = 0x3F800000;

/// The bit pattern of -1.0f32.
pub const F32_NEG_ONE_BITS: u32 = 0xBF800000;

/// What the feature encoder reads of a position, as plain values:
/// the piece code on each square, the side to move, the squares each
/// square's piece attacks, and the (mover code, target square) pair of
/// each legal move.
pub struct PositionModel {
    pub pieces: Vec<u8>,
    pub white_to_move: bool,
    pub attacks: Vec<Vec<u8>>,
    pub legal: Vec<(u8, u8)>,
}

/// The mathematical shape of a position model.
pub ghost struct ModelView {
    pub pieces: Seq<u8>,
    pub white_to_move: bool,
    pub attacks: Seq<Seq<u8>>,
    pub legal: Seq<(u8, u8)>,
}

impl View for PositionModel {
    type V = ModelView;

    open spec fn view(&self) -> ModelView {
        ModelView {
            pieces: self.pieces@,
            white_to_move: self.white_to_move,
            attacks: self.attacks.deep_view(),
            legal: self.legal@,
        }
    }
}

/// A model is well-formed when it has one piece code per square, one
/// attack list per square, and every square index and piece code is in
/// range.
pub open spec fn wf_model(m: ModelView) -> bool {
    &&& m.pieces.len() == 64
    &&& m.attacks.len() == 64
    &&& forall|i: int| 0 <= i < 64 ==> #[trigger] m.pieces[i] < piece_code_bound()
    &&& forall|i: int, j: int|
        0 <= i < 64 && 0 <= j < m.attacks[i].len() ==> #[trigger] m.attacks[i][j] < 64
    &&& forall|i: int|
        0 <= i < m.legal.len() ==> 1 <= (#[trigger] m.legal[i]).0 < piece_code_bound()
            && m.legal[i].1 < 64
}

/// The flat index of cell `(x, y, f)` in the row-major 8x8x37 layout.
pub open spec fn spec_flat(x: int, y: int, f: int) -> int {
    x * 296 + y * 37 + f
}

/// Whether the square `sq` is attacked by a piece with code `code`.
pub open spec fn spec_attacked(m: ModelView, code: int, sq: int) -> bool {
    exists|s: int|
        0 <= s < 64 && m.pieces[s] == code && (#[trigger] m.attacks[s]).contains(sq as u8)
}

/// Whether the square `sq` is the target of a legal move by a piece with
/// code `code`.
pub open spec fn spec_reachable(m: ModelView, code: int, sq: int) -> bool {
    exists|i: int|
        0 <= i < m.legal.len() && (#[trigger] m.legal[i]).0 == code && m.legal[i].1 == sq
}

/// The value of cell `(x, y, f)`: occupancy for planes 0..12, the turn for
/// plane 12, attacked-by for planes 13..25, reachable-by for planes
/// 25..37. The cell speaks of the square with file `x` and rank `7 - y`.
pub open spec fn spec_cell(m: ModelView, x: int, y: int, f: int) -> u32 {
    let sq = (7 - y) * 8 + x;
    if f < 12 {
        if m.pieces[sq] == f + 1 {
            F32_ONE_BITS
        } else {
            F32_ZERO_BITS
        }
    } else if f == 12 {
        if m.white_to_move {
            F32_ONE_BITS
        } else {
            F32_NEG_ONE_BITS
        }
    } else if f < 25 {
        if spec_attacked(m, f - 12, sq) {
            F32_ONE_BITS
        } else {
            F32_ZERO_BITS
        }
    } else {
        if spec_reachable(m, f - 24, sq) {
            F32_ONE_BITS
        } else {
            F32_ZERO_BITS
        }
    }
}

/// The whole tensor of a model, flattened row-major.
pub open spec fn spec_tensor(m: ModelView) -> Seq<u32> {
    Seq::new(2368, |i: int| spec_cell(m, i / 296, (i / 37) % 8, i % 37))
}

/// Each cell of the tensor reads back through `spec_cell`.
pub proof fn lemma_tensor_cell(m: ModelView, x: int, y: int, f: int)
    requires
        0 <= x < 8,
        0 <= y < 8,
        0 <= f < 37,
    ensures
        0 <= spec_flat(x, y, f) < 2368,
        spec_tensor(m)[spec_flat(x, y, f)] == spec_cell(m, x, y, f),
{
    let i = spec_flat(x, y, f);
    assert(0 <= i < 2368 && i / 296 == x && (i / 37) % 8 == y && i % 37 == f)
        by (nonlinear_arith)
        requires
            0 <= x < 8,
            0 <= y < 8,
            0 <= f < 37,
            i == x * 296 + y * 37 + f;
}

/// Side-to-move plane: with White to move every cell of plane 12 holds
/// +1.0; with Black to move, −1.0.
pub proof fn lemma_turn_plane(m: ModelView, x: int, y: int)
    requires
        0 <= x < 8,
        0 <= y < 8,
    ensures
        spec_tensor(m)[spec_flat(x, y, 12)] == if m.white_to_move {
            F32_ONE_BITS
        } else {
            F32_NEG_ONE_BITS
        },
{
    lemma_tensor_cell(m, x, y, 12);
}

/// How many of the occupancy planes 0..`f` hold 1.0 at cell `(x, y)`.
pub open spec fn spec_occ_cell_ones(m: ModelView, x: int, y: int, f: int) -> int
    decreases f,
{
    if f <= 0 {
        0
    } else {
        spec_occ_cell_ones(m, x, y, f - 1) + (if spec_cell(m, x, y, f - 1) == F32_ONE_BITS {
            1int
        } else {
            0int
        })
    }
}

/// The occupancy-plane ones over the first `s` squares (square `sq` sits
/// at cell `(sq % 8, 7 - sq / 8)`).
pub open spec fn spec_occ_ones(m: ModelView, s: int) -> int
    decreases s,
{
    if s <= 0 {
        0
    } else {
        spec_occ_ones(m, s - 1) + spec_occ_cell_ones(m, (s - 1) % 8, 7 - (s - 1) / 8, 12)
    }
}

/// How many of the first `s` squares hold a piece.
pub open spec fn spec_occupied(pieces: Seq<u8>, s: int) -> int
    decreases s,
{
    if s <= 0 {
        0
    } else {
        spec_occupied(pieces, s - 1) + (if pieces[s - 1] != 0 {
            1int
        } else {
            0int
        })
    }
}

/// One cell's occupancy planes hold exactly one 1.0 when its square is
/// occupied and none when it is empty.
proof fn lemma_occ_cell_ones(m: ModelView, x: int, y: int)
    requires
        wf_model(m),
        0 <= x < 8,
        0 <= y < 8,
    ensures
        spec_occ_cell_ones(m, x, y, 12) == if m.pieces[(7 - y) * 8 + x] != 0 {
            1int
        } else {
            0int
        },
{
    let sq = (7 - y) * 8 + x;
    assert(0 <= sq < 64);
    assert(m.pieces[sq] < 13);
    reveal_with_fuel(spec_occ_cell_ones, 13);
}

proof fn lemma_occ_ones_upto(m: ModelView, s: int)
    requires
        wf_model(m),
        0 <= s <= 64,
    ensures
        spec_occ_ones(m, s) == spec_occupied(m.pieces, s),
    decreases s,
{
    if s > 0 {
        lemma_occ_ones_upto(m, s - 1);
        let x = (s - 1) % 8;
        let y = 7 - (s - 1) / 8;
        assert(0 <= x < 8 && 0 <= y < 8 && (7 - y) * 8 + x == s - 1) by (nonlinear_arith)
            requires
                0 <= s - 1 < 64,
                x == (s - 1) % 8,
                y == 7 - (s - 1) / 8;
        lemma_occ_cell_ones(m, x, y);
    }
}

/// Occupancy count law: across the twelve occupancy planes, any
/// well-formed model's tensor holds exactly one 1.0 cell per occupied
/// square (each cell reads back from the tensor through
/// `lemma_tensor_cell`).
pub proof fn lemma_occupancy_ones(m: ModelView)
    requires
        wf_model(m),
    ensures
        spec_occ_ones(m, 64) == spec_occupied(m.pieces, 64),
{
    lemma_occ_ones_upto(m, 64);
}

/// The standard starting placement occupies exactly 32 squares.
pub proof fn lemma_start_board_occupied()
    ensures
        spec_occupied(spec_start_board(), 64) == 32,
{
    reveal_with_fuel(spec_occupied, 65);
}

/// Start-position feature invariants: a model with White to move and the
/// standard placement has +1.0 across the whole side-to-move plane and
/// exactly 32 ones across the twelve occupancy planes. `Board::start`'s
/// boundary facts give `encode_position`'s model exactly these
/// hypotheses.
pub proof fn lemma_start_position_features(m: ModelView)
    requires
        wf_model(m),
        m.white_to_move,
        m.pieces == spec_start_board(),
    ensures
        forall|x: int, y: int|
            0 <= x < 8 && 0 <= y < 8 ==> spec_tensor(m)[#[trigger] spec_flat(x, y, 12)]
                == F32_ONE_BITS,
        spec_occ_ones(m, 64) == 32,
{
    assert forall|x: int, y: int|
        0 <= x < 8 && 0 <= y < 8 implies spec_tensor(m)[#[trigger] spec_flat(x, y, 12)]
        == F32_ONE_BITS by {
        lemma_turn_plane(m, x, y);
    }
    lemma_occupancy_ones(m);
    lemma_start_board_occupied();
}

/// Whether `v` holds `x`.
fn contains_u8(v: &Vec<u8>, x: u8) -> (r: bool)
    ensures
        r == v@.contains(x),
{
    let n: usize = v.len();
    let mut i: usize = 0;
    while i < n
        invariant
            i <= n,
            n == v@.len(),
            forall|j: int| 0 <= j < i ==> v@[j] != x,
        decreases n - i,
    {
        if v[i] == x {
            return true;
        }
        i = i + 1;
    }
    false
}

/// Whether the square `sq` is attacked by a piece with code `code`.
fn attacked(m: &PositionModel, code: u8, sq: u8) -> (r: bool)
    requires
        wf_model(m@),
    ensures
        r == spec_attacked(m@, code as int, sq as int),
{
    let mut s: usize = 0;
    while s < 64
        invariant
            s <= 64,
            wf_model(m@),
            forall|t: int|
                0 <= t < s ==> !(m@.pieces[t] == code && (#[trigger] m@.attacks[t]).contains(sq)),
        decreases 64 - s,
    {
        if m.pieces[s] == code && contains_u8(&m.attacks[s], sq) {
            proof {
                assert(m@.attacks[s as int] == m.attacks@[s as int]@);
            }
            return true;
        }
        proof {
            assert(m@.attacks[s as int] == m.attacks@[s as int]@);
        }
        s = s + 1;
    }
    false
}

/// Whether the square `sq` is the target of a legal move by a piece with
/// code `code`.
fn reachable(m: &PositionModel, code: u8, sq: u8) -> (r: bool)
    ensures
        r == spec_reachable(m@, code as int, sq as int),
{
    let n: usize = m.legal.len();
    let mut i: usize = 0;
    while i < n
        invariant
            i <= n,
            n == m@.legal.len(),
            forall|j: int| 0 <= j < i ==> !((#[trigger] m@.legal[j]).0 == code && m@.legal[j].1 == sq),
        decreases n - i,
    {
        let t: (u8, u8) = m.legal[i];
        if t.0 == code && t.1 == sq {
            return true;
        }
        i = i + 1;
    }
    false
}

/// Encodes a model into its tensor, cell by cell.
pub fn encode_model(m: &PositionModel) -> (r: Vec<u32>)
    requires
        wf_model(m@),
    ensures
        r@ == spec_tensor(m@),
{
    let mut out: Vec<u32> = Vec::new();
    let mut x: usize = 0;
    while x < 8
        invariant
            x <= 8,
            wf_model(m@),
            out@.len() == x * 296,
            forall|i: int| 0 <= i < out@.len() ==> out@[i] == spec_tensor(m@)[i],
        decreases 8 - x,
    {
        let mut y: usize = 0;
        while y < 8
            invariant
                x < 8,
                y <= 8,
                wf_model(m@),
                out@.len() == x * 296 + y * 37,
                forall|i: int| 0 <= i < out@.len() ==> out@[i] == spec_tensor(m@)[i],
            decreases 8 - y,
        {
            let mut f: usize = 0;
            while f < 37
                invariant
                    x < 8,
                    y < 8,
                    f <= 37,
                    wf_model(m@),
                    out@.len() == x * 296 + y * 37 + f,
                    forall|i: int| 0 <= i < out@.len() ==> out@[i] == spec_tensor(m@)[i],
                decreases 37 - f,
            {
                let sq: u8 = ((7 - y) * 8 + x) as u8;
                let cell: u32 = if f < 12 {
                    if m.pieces[sq as usize] == (f + 1) as u8 {
                        F32_ONE_BITS
                    } else {
                        F32_ZERO_BITS
                    }
                } else if f == 12 {
                    if m.white_to_move {
                        F32_ONE_BITS
                    } else {
                        F32_NEG_ONE_BITS
                    }
                } else if f < 25 {
                    if attacked(m, (f - 12) as u8, sq) {
                        F32_ONE_BITS
                    } else {
                        F32_ZERO_BITS
                    }
                } else {
                    if reachable(m, (f - 24) as u8, sq) {
                        F32_ONE_BITS
                    } else {
                        F32_ZERO_BITS
                    }
                };
                proof {
                    lemma_tensor_cell(m@, x as int, y as int, f as int);
                    assert(cell == spec_cell(m@, x as int, y as int, f as int));
                }
                out.push(cell);
                f = f + 1;
            }
            y = y + 1;
        }
        x = x + 1;
    }
    proof {
        assert(out@ =~= spec_tensor(m@));
    }
    out
}

/// The model of the position a move prefix replays to, assembled from the
/// engine boundary's named reads.
pub open spec fn spec_model_of(prefix: Seq<u16>) -> ModelView {
    ModelView {
        pieces: spec_pieces_of(prefix),
        white_to_move: spec_turn_of(prefix),
        attacks: spec_attacks_of(prefix),
        legal: spec_legal_of(prefix),
    }
}

/// Whether every prefix of a move list replays legally from the start.
pub open spec fn spec_game_replays(ms: Seq<Move>) -> bool {
    forall|k: int| 1 <= k <= ms.len() ==> spec_replay_ok(#[trigger] spec_bitfields(ms).take(k))
}

/// The tensor row of the position after ply `k` of a move list.
pub open spec fn spec_position_rows(ms: Seq<Move>) -> Seq<Seq<u32>> {
    Seq::new(ms.len(), |k: int| spec_tensor(spec_model_of(spec_bitfields(ms).take(k + 1))))
}

/// Reads everything the encoder needs out of an engine position: exactly
/// the model of the position's move prefix.
pub fn extract_model(b: &Board) -> (r: PositionModel)
    ensures
        r@ == spec_model_of(b.prefix()),
        wf_model(r@),
        b.prefix().len() == 0 ==> r@.pieces == spec_start_board() && r@.white_to_move,
{
    let white_to_move: bool = turn_is_white(b);
    let mut pieces: Vec<u8> = Vec::new();
    let mut attacks: Vec<Vec<u8>> = Vec::new();
    let mut s: usize = 0;
    while s < 64
        invariant
            s <= 64,
            pieces@.len() == s,
            attacks@.len() == s,
            white_to_move == spec_turn_of(b.prefix()),
            b.prefix().len() == 0 ==> white_to_move,
            forall|i: int|
                b.prefix().len() == 0 && 0 <= i < s ==> #[trigger] pieces@[i]
                    == spec_start_board()[i],
            forall|i: int| 0 <= i < s ==> #[trigger] pieces@[i] == spec_pieces_of(b.prefix())[i],
            forall|i: int| 0 <= i < s ==> #[trigger] pieces@[i] < piece_code_bound(),
            forall|i: int| 0 <= i < s ==> #[trigger] attacks@[i]@ == spec_attacks_of(b.prefix())[i],
            forall|i: int, j: int|
                0 <= i < s && 0 <= j < attacks@[i]@.len() ==> #[trigger] attacks@[i]@[j] < 64,
        decreases 64 - s,
    {
        pieces.push(piece_code_at(b, s as u8));
        attacks.push(attack_targets(b, s as u8));
        s = s + 1;
    }
    let legal: Vec<(u8, u8)> = legal_targets(b);
    let m = PositionModel { pieces, white_to_move, attacks, legal };
    proof {
        assert(m@.pieces =~= spec_pieces_of(b.prefix()));
        assert forall|i: int| 0 <= i < 64 implies #[trigger] m@.attacks[i] == spec_attacks_of(
            b.prefix(),
        )[i] by {
            assert(m@.attacks[i] == attacks@[i]@);
        }
        assert(m@.attacks =~= spec_attacks_of(b.prefix()));
        assert(m@ == spec_model_of(b.prefix()));
        if b.prefix().len() == 0 {
            assert(m@.pieces =~= spec_start_board());
        }
        assert(forall|i: int, j: int|
            0 <= i < 64 && 0 <= j < m@.attacks[i].len() ==> #[trigger] m@.attacks[i][j] < 64);
    }
    m
}

/// Encodes an engine position: the tensor of the model of its move
/// prefix — a pure function of the position.
pub fn encode_position(b: &Board) -> (r: Vec<u32>)
    ensures
        r@ == spec_tensor(spec_model_of(b.prefix())),
        wf_model(spec_model_of(b.prefix())),
        r@.len() == 2368,
        b.prefix().len() == 0 ==> spec_model_of(b.prefix()).pieces == spec_start_board()
            && spec_model_of(b.prefix()).white_to_move,
{
    let model = extract_model(b);
    encode_model(&model)
}

/// The position after playing each move of a game from the start, encoded
/// in order: one tensor per ply, exactly when the whole move list replays
/// legally, and `None` exactly when some prefix of it does not.
pub fn encode_game_tensors(moves: &Vec<Move>) -> (r: Option<Vec<Vec<u32>>>)
    requires
        forall|i: int| 0 <= i < moves@.len() ==> valid_bitfield(#[trigger] moves@[i].bitfield),
    ensures
        match r {
            Some(ps) => {
                &&& spec_game_replays(moves@)
                &&& ps.deep_view() == spec_position_rows(moves@)
                &&& ps@.len() == moves@.len()
                &&& forall|i: int| 0 <= i < ps@.len() ==> (#[trigger] ps@[i])@.len() == 2368
            },
            None => !spec_game_replays(moves@),
        },
{
    let mut board: Board = Board::start();
    let mut out: Vec<Vec<u32>> = Vec::new();
    let n: usize = moves.len();
    let mut i: usize = 0;
    proof {
        assert(spec_bitfields(moves@).take(0) =~= Seq::<u16>::empty());
    }
    while i < n
        invariant
            i <= n,
            n == moves@.len(),
            out@.len() == i,
            board.prefix() == spec_bitfields(moves@).take(i as int),
            forall|k: int|
                1 <= k <= i ==> spec_replay_ok(#[trigger] spec_bitfields(moves@).take(k)),
            forall|j: int|
                0 <= j < moves@.len() ==> valid_bitfield(#[trigger] moves@[j].bitfield),
            forall|j: int|
                0 <= j < i ==> (#[trigger] out@[j])@ == spec_position_rows(moves@)[j],
            forall|j: int| 0 <= j < out@.len() ==> (#[trigger] out@[j])@.len() == 2368,
        decreases n - i,
    {
        let m: Move = moves[i];
        proof {
            assert(spec_bitfields(moves@).take(i as int).push(m.bitfield) =~= spec_bitfields(
                moves@,
            ).take(i as int + 1));
        }
        board = match board.play(&m) {
            Some(b) => b,
            None => {
                proof {
                    assert(!spec_replay_ok(spec_bitfields(moves@).take(i as int + 1)));
                }
                return None;
            },
        };
        out.push(encode_position(&board));
        i = i + 1;
    }
    proof {
        assert forall|j: int| 0 <= j < out@.len() implies out.deep_view()[j]
            == spec_position_rows(moves@)[j] by {
            assert(out.deep_view()[j] == out@[j]@);
        }
        assert(out.deep_view().len() == out@.len());
        assert(out.deep_view() =~= spec_position_rows(moves@));
    }
    Some(out)
}

} // verus!
