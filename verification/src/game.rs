//! The game record: players, ratings, time control, outcome and the move
//! list, together with the outcome's text form and the rating filter used
//! when converting a game corpus.

use vstd::prelude::*;
use crate::bytes::pow256;
use crate::moves::Move;
use crate::moves::valid_bitfield;

verus! {

/// How a finished game ended.
#[derive(Clone, Copy, Debug, PartialEq, Eq, Structural)]
pub enum Outcome {
    WhiteWin,
    BlackWin,
    Draw,
}

/// The wire code of an outcome.
pub open spec fn spec_outcome_code(o: Outcome) -> int {
    match o {
        Outcome::WhiteWin => 0,
        Outcome::BlackWin => 1,
        Outcome::Draw => 2,
    }
}

/// The outcome a wire code in 0..=2 stands for.
pub open spec fn spec_code_outcome(c: int) -> Outcome {
    if c == 0 {
        Outcome::WhiteWin
    } else if c == 1 {
        Outcome::BlackWin
    } else {
        Outcome::Draw
    }
}

/// The PGN result text of an outcome: `1-0`, `0-1` or `1/2-1/2`.
pub open spec fn spec_outcome_text(o: Outcome) -> Seq<u8> {
    match o {
        Outcome::WhiteWin => seq![49u8, 45u8, 48u8],
        Outcome::BlackWin => seq![48u8, 45u8, 49u8],
        Outcome::Draw => seq![49u8, 47u8, 50u8, 45u8, 49u8, 47u8, 50u8],
    }
}

/// The outcome a PGN result text stands for, if any.
pub open spec fn spec_parse_outcome_text(s: Seq<u8>) -> Option<Outcome> {
    if s == spec_outcome_text(Outcome::WhiteWin) {
        Some(Outcome::WhiteWin)
    } else if s == spec_outcome_text(Outcome::BlackWin) {
        Some(Outcome::BlackWin)
    } else if s == spec_outcome_text(Outcome::Draw) {
        Some(Outcome::Draw)
    } else {
        None
    }
}

impl Outcome {
    /// The wire code of this outcome, as an executable value.
    pub fn code(&self) -> (r: u32)
        ensures
            r as int == spec_outcome_code(*self),
    {
        match self {
            Outcome::WhiteWin => 0,
            Outcome::BlackWin => 1,
            Outcome::Draw => 2,
        }
    }

    /// The PGN result text of this outcome, as bytes.
    pub fn text(&self) -> (r: Vec<u8>)
        ensures
            r@ == spec_outcome_text(*self),
    {
        let mut v: Vec<u8> = Vec::new();
        match self {
            Outcome::WhiteWin => {
                v.push(49);
                v.push(45);
                v.push(48);
            },
            Outcome::BlackWin => {
                v.push(48);
                v.push(45);
                v.push(49);
            },
            Outcome::Draw => {
                v.push(49);
                v.push(47);
                v.push(50);
                v.push(45);
                v.push(49);
                v.push(47);
                v.push(50);
            },
        }
        proof {
            assert(v@ =~= spec_outcome_text(*self));
        }
        v
    }

    /// Reads an outcome back from its PGN result text.
    pub fn parse_text(s: &Vec<u8>) -> (r: Option<Outcome>)
        ensures
            r == spec_parse_outcome_text(s@),
    {
        if s.len() == 3 && s[0] == 49 && s[1] == 45 && s[2] == 48 {
            proof {
                assert(s@ =~= spec_outcome_text(Outcome::WhiteWin));
            }
            Some(Outcome::WhiteWin)
        } else if s.len() == 3 && s[0] == 48 && s[1] == 45 && s[2] == 49 {
            proof {
                assert(s@ =~= spec_outcome_text(Outcome::BlackWin));
            }
            Some(Outcome::BlackWin)
        } else if s.len() == 7 && s[0] == 49 && s[1] == 47 && s[2] == 50 && s[3] == 45 && s[4]
            == 49 && s[5] == 47 && s[6] == 50 {
            proof {
                assert(s@ =~= spec_outcome_text(Outcome::Draw));
            }
            Some(Outcome::Draw)
        } else {
            proof {
                assert(s@ != spec_outcome_text(Outcome::WhiteWin));
                assert(s@ != spec_outcome_text(Outcome::BlackWin));
                assert(s@ != spec_outcome_text(Outcome::Draw));
            }
            None
        }
    }
}

/// Reading an outcome's text back gives the outcome: the result string
/// survives a render-and-parse round trip.
pub proof fn lemma_outcome_text_round_trip(o: Outcome)
    ensures
        spec_parse_outcome_text(spec_outcome_text(o)) == Some(o),
{
    assert(spec_outcome_text(Outcome::WhiteWin) != spec_outcome_text(Outcome::BlackWin));
    assert(spec_outcome_text(Outcome::WhiteWin).len() == 3);
    assert(spec_outcome_text(Outcome::Draw).len() == 7);
}

/// One recorded game: names as raw PGN tag bytes, ratings, outcome, time
/// control (`i32::MAX` in both fields stands for an untimed game) and the
/// packed move list.
#[derive(Clone, Debug, PartialEq, Eq)]
pub struct Game {
    pub white_name: Vec<u8>,
    pub black_name: Vec<u8>,
    pub white_elo: i32,
    pub black_elo: i32,
    pub outcome: Outcome,
    pub timectl_sec: i32,
    pub timectl_inc: i32,
    pub moves: Vec<Move>,
}

/// The mathematical shape of a game: byte sequences for the names,
/// unbounded integers for the numeric fields, a sequence of packed moves.
pub ghost struct GameView {
    pub white_name: Seq<u8>,
    pub black_name: Seq<u8>,
    pub white_elo: int,
    pub black_elo: int,
    pub outcome: Outcome,
    pub timectl_sec: int,
    pub timectl_inc: int,
    pub moves: Seq<Move>,
}

impl View for Game {
    type V = GameView;

    open spec fn view(&self) -> GameView {
        GameView {
            white_name: self.white_name@,
            black_name: self.black_name@,
            white_elo: self.white_elo as int,
            black_elo: self.black_elo as int,
            outcome: self.outcome,
            timectl_sec: self.timectl_sec as int,
            timectl_inc: self.timectl_inc as int,
            moves: self.moves@,
        }
    }
}

/// A game view is well-formed when its numeric fields fit their wire
/// widths and every packed move carries a promotion code the move codec
/// can decode. Every `Game` built from decoded or freshly packed moves
/// satisfies this.
pub open spec fn wf_game(g: GameView) -> bool {
    &&& g.white_name.len() < pow256(8)
    &&& g.black_name.len() < pow256(8)
    &&& g.moves.len() < pow256(8)
    &&& -0x80000000 <= g.white_elo < 0x80000000
    &&& -0x80000000 <= g.black_elo < 0x80000000
    &&& -0x80000000 <= g.timectl_sec < 0x80000000
    &&& -0x80000000 <= g.timectl_inc < 0x80000000
    &&& forall|i: int| 0 <= i < g.moves.len() ==> valid_bitfield(#[trigger] g.moves[i].bitfield)
}

impl Game {
    /// Whether every packed move is decodable, so that the record codec
    /// and the PGN renderer accept the game: callers that build moves by
    /// hand can test this before handing the game over.
    pub fn is_well_formed(&self) -> (r: bool)
        ensures
            r == wf_game(self@),
    {
        proof {
            assert(pow256(8) == 0x10000000000000000) by {
                reveal_with_fuel(pow256, 9);
            }
        }
        let n: usize = self.moves.len();
        let white_len: usize = self.white_name.len();
        let black_len: usize = self.black_name.len();
        let mut i: usize = 0;
        while i < n
            invariant
                i <= n,
                n == self.moves@.len(),
                forall|j: int| 0 <= j < i ==> valid_bitfield(#[trigger] self.moves@[j].bitfield),
            decreases n - i,
        {
            if self.moves[i].bitfield >= 7 * 4096 {
                return false;
            }
            i = i + 1;
        }
        proof {
            assert(white_len as int == self@.white_name.len());
            assert(black_len as int == self@.black_name.len());
            assert(n as int == self@.moves.len());
        }
        true
    }
}

/// Whether a game's ratings pass the corpus filter: the rating gap is at
/// most `max_elo_diff` and both players are rated above `min_elo`.
pub open spec fn spec_game_selected(
    white_elo: int,
    black_elo: int,
    min_elo: int,
    max_elo_diff: int,
) -> bool {
    let diff = black_elo - white_elo;
    let gap = if diff < 0 {
        -diff
    } else {
        diff
    };
    gap <= max_elo_diff && black_elo > min_elo && white_elo > min_elo
}

/// The rating filter applied when a corpus is converted: games with too
/// wide a rating gap, or with either player at or below the floor, are
/// left out.
pub fn game_passes_filter(g: &Game, min_elo: i32, max_elo_diff: i32) -> (r: bool)
    ensures
        r == spec_game_selected(
            g.white_elo as int,
            g.black_elo as int,
            min_elo as int,
            max_elo_diff as int,
        ),
{
    let diff: i64 = g.black_elo as i64 - g.white_elo as i64;
    let gap: i64 = if diff < 0 {
        -diff
    } else {
        diff
    };
    gap <= max_elo_diff as i64 && g.black_elo > min_elo && g.white_elo > min_elo
}

} // verus!
