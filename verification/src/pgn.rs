//! The PGN visitor: a state machine that builds one `Game` per game of a
//! PGN file out of the events an external tokenizer emits, and the
//! reverse direction, rendering a `Game` back as PGN text.
//!
//! The visitor collects the seven headers it cares about, resolves each
//! SAN move against the running position through the rules engine, skips
//! games with an unusable Result or a Termination other than `Normal`,
//! and at the end of a game either yields a complete `Game`, yields
//! nothing for a skipped game, or fails the run on a missing field.

use vstd::prelude::*;
use crate::decimal::{
    spec_parse_i32, spec_parse_timectl, parse_i32, parse_timectl, push_dec_i32, push_dec_u64,
    spec_i32_text,
};
use crate::engine::{
    Board, resolve_san, san_raw, spec_san_resolution, spec_san_text, spec_replay_ok, spec_packed,
};
use crate::features::spec_game_replays;
use crate::errors::DataError;
use crate::game::{
    Game, Outcome, spec_outcome_text, spec_parse_outcome_text, wf_game,
};
use crate::moves::{
    Move, Role, valid_bitfield, spec_bitfields, spec_move_from, spec_move_to,
    lemma_bitfield_round_trip,
};
use crate::recordcodec::push_bytes;

verus! {

/// The PGN tag name `White`.
pub open spec fn spec_tag_white() -> Seq<u8> {
    seq![87u8, 104u8, 105u8, 116u8, 101u8]
}

/// The PGN tag name `Black`.
pub open spec fn spec_tag_black() -> Seq<u8> {
    seq![66u8, 108u8, 97u8, 99u8, 107u8]
}

/// The PGN tag name `WhiteElo`.
pub open spec fn spec_tag_white_elo() -> Seq<u8> {
    seq![87u8, 104u8, 105u8, 116u8, 101u8, 69u8, 108u8, 111u8]
}

/// The PGN tag name `BlackElo`.
pub open spec fn spec_tag_black_elo() -> Seq<u8> {
    seq![66u8, 108u8, 97u8, 99u8, 107u8, 69u8, 108u8, 111u8]
}

/// The PGN tag name `TimeControl`.
pub open spec fn spec_tag_timecontrol() -> Seq<u8> {
    seq![84u8, 105u8, 109u8, 101u8, 67u8, 111u8, 110u8, 116u8, 114u8, 111u8, 108u8]
}

/// The PGN tag name `Result`.
pub open spec fn spec_tag_result() -> Seq<u8> {
    seq![82u8, 101u8, 115u8, 117u8, 108u8, 116u8]
}

/// The PGN tag name `Termination`.
pub open spec fn spec_tag_termination() -> Seq<u8> {
    seq![84u8, 101u8, 114u8, 109u8, 105u8, 110u8, 97u8, 116u8, 105u8, 111u8, 110u8]
}

/// The tag value `Normal`.
pub open spec fn spec_normal_text() -> Seq<u8> {
    seq![78u8, 111u8, 114u8, 109u8, 97u8, 108u8]
}

/// The tag value `-` (an untimed game).
pub open spec fn spec_untimed_text() -> Seq<u8> {
    seq![45u8]
}

/// The header fields collected while one game's tags go by.
pub struct Headers {
    pub white_name: Option<Vec<u8>>,
    pub black_name: Option<Vec<u8>>,
    pub white_elo: Option<i32>,
    pub black_elo: Option<i32>,
    pub outcome: Option<Outcome>,
    pub timectl_sec: Option<i32>,
    pub timectl_inc: Option<i32>,
}

/// The mathematical shape of the collected headers.
pub ghost struct HeadersView {
    pub white_name: Option<Seq<u8>>,
    pub black_name: Option<Seq<u8>>,
    pub white_elo: Option<int>,
    pub black_elo: Option<int>,
    pub outcome: Option<Outcome>,
    pub timectl_sec: Option<int>,
    pub timectl_inc: Option<int>,
}

impl View for Headers {
    type V = HeadersView;

    open spec fn view(&self) -> HeadersView {
        HeadersView {
            white_name: match self.white_name {
                Some(ref v) => Some(v@),
                None => None,
            },
            black_name: match self.black_name {
                Some(ref v) => Some(v@),
                None => None,
            },
            white_elo: match self.white_elo {
                Some(v) => Some(v as int),
                None => None,
            },
            black_elo: match self.black_elo {
                Some(v) => Some(v as int),
                None => None,
            },
            outcome: self.outcome,
            timectl_sec: match self.timectl_sec {
                Some(v) => Some(v as int),
                None => None,
            },
            timectl_inc: match self.timectl_inc {
                Some(v) => Some(v as int),
                None => None,
            },
        }
    }
}

/// All header fields empty.
pub open spec fn spec_headers_empty() -> HeadersView {
    HeadersView {
        white_name: None,
        black_name: None,
        white_elo: None,
        black_elo: None,
        outcome: None,
        timectl_sec: None,
        timectl_inc: None,
    }
}

impl Headers {
    /// No header collected yet.
    pub fn empty() -> (r: Headers)
        ensures
            r@ == spec_headers_empty(),
    {
        Headers {
            white_name: None,
            black_name: None,
            white_elo: None,
            black_elo: None,
            outcome: None,
            timectl_sec: None,
            timectl_inc: None,
        }
    }
}

/// Builds `Game` records from a PGN tokenizer's events.
pub struct PgnVisitor {
    pub headers: Headers,
    pub moves: Vec<Move>,
    pub board: Board,
    pub skip: bool,
}

/// Every move collected so far carries a decodable promotion code, and
/// the running position is the replay of exactly those moves.
pub open spec fn wf_visitor(v: &PgnVisitor) -> bool {
    &&& forall|i: int| 0 <= i < v.moves@.len() ==> valid_bitfield(#[trigger] v.moves@[i].bitfield)
    &&& v.board.prefix() == spec_bitfields(v.moves@)
}

impl PgnVisitor {
    /// A fresh visitor: empty headers, no moves, the starting position,
    /// not skipping.
    pub fn new() -> (r: PgnVisitor)
        ensures
            r.headers@ == spec_headers_empty(),
            r.moves@ == Seq::<Move>::empty(),
            r.skip == false,
            wf_visitor(&r),
    {
        let r = PgnVisitor {
            headers: Headers::empty(),
            moves: Vec::new(),
            board: Board::start(),
            skip: false,
        };
        proof {
            assert(spec_bitfields(r.moves@) =~= Seq::<u16>::empty());
        }
        r
    }

    /// A new game begins: every accumulator is reset.
    pub fn begin_game(&mut self)
        ensures
            final(self).headers@ == spec_headers_empty(),
            final(self).moves@ == Seq::<Move>::empty(),
            final(self).skip == false,
            wf_visitor(final(self)),
    {
        self.headers = Headers::empty();
        self.moves = Vec::new();
        self.skip = false;
        self.board = Board::start();
        proof {
            assert(spec_bitfields(self.moves@) =~= Seq::<u16>::empty());
        }
    }

    /// One header tag goes by. Name tags store the value; rating tags
    /// parse it as a number (an unreadable number fails the game); a
    /// TimeControl of `-` stores the untimed sentinel in both fields and
    /// any other value is read as `seconds+increment`; a Result is mapped
    /// to an outcome, and an unusable Result, like a Termination other
    /// than `Normal`, marks the game skipped. Unknown tags change
    /// nothing.
    pub fn header(&mut self, key: &Vec<u8>, value: &Vec<u8>) -> (r: Result<(), DataError>)
        ensures
            final(self).moves == old(self).moves,
            final(self).board == old(self).board,
            r matches Err(e) ==> e == DataError::Validation && *final(self) == *old(self),
            key@ == spec_tag_white() ==> r is Ok && final(self).skip == old(self).skip && final(self).headers@ == (HeadersView { white_name: Some(value@), ..old(self).headers@ }),
            key@ == spec_tag_black() ==> r is Ok && final(self).skip == old(self).skip && final(self).headers@ == (HeadersView { black_name: Some(value@), ..old(self).headers@ }),
            key@ == spec_tag_white_elo() ==> match spec_parse_i32(value@) {
                Some(v) => r is Ok && final(self).skip == old(self).skip && final(self).headers@
                    == (HeadersView { white_elo: Some(v), ..old(self).headers@ }),
                None => r is Err,
            },
            key@ == spec_tag_black_elo() ==> match spec_parse_i32(value@) {
                Some(v) => r is Ok && final(self).skip == old(self).skip && final(self).headers@
                    == (HeadersView { black_elo: Some(v), ..old(self).headers@ }),
                None => r is Err,
            },
            key@ == spec_tag_timecontrol() ==> if value@ == spec_untimed_text() {
                r is Ok && final(self).skip == old(self).skip && final(self).headers@ == (
                HeadersView {
                    timectl_sec: Some(0x7fffffff as int),
                    timectl_inc: Some(0x7fffffff as int),
                    ..old(self).headers@
                })
            } else {
                match spec_parse_timectl(value@) {
                    Some(t) => r is Ok && final(self).skip == old(self).skip && final(self).headers@ == (HeadersView {
                        timectl_sec: Some(t.0),
                        timectl_inc: Some(t.1),
                        ..old(self).headers@
                    }),
                    None => r is Err,
                }
            },
            key@ == spec_tag_result() ==> r is Ok && match spec_parse_outcome_text(value@) {
                Some(o) => final(self).skip == old(self).skip && final(self).headers@ == (
                HeadersView { outcome: Some(o), ..old(self).headers@ }),
                None => final(self).skip && final(self).headers == old(self).headers,
            },
            key@ == spec_tag_termination() ==> r is Ok && final(self).headers == old(self).headers
                && final(self).skip == (old(self).skip || value@ != spec_normal_text()),
            (key@ != spec_tag_white() && key@ != spec_tag_black() && key@ != spec_tag_white_elo()
                && key@ != spec_tag_black_elo() && key@ != spec_tag_timecontrol() && key@
                != spec_tag_result() && key@ != spec_tag_termination()) ==> r is Ok && *final(self)
                == *old(self),
            wf_visitor(old(self)) ==> wf_visitor(final(self)),
    {
        if bytes_match(key, &tag_white()) {
            self.headers.white_name = Some(value.clone());
            Ok(())
        } else if bytes_match(key, &tag_black()) {
            self.headers.black_name = Some(value.clone());
            Ok(())
        } else if bytes_match(key, &tag_white_elo()) {
            let v: i32 = match parse_i32(value) {
                Ok(v) => v,
                Err(e) => {
                    return Err(e);
                },
            };
            self.headers.white_elo = Some(v);
            Ok(())
        } else if bytes_match(key, &tag_black_elo()) {
            let v: i32 = match parse_i32(value) {
                Ok(v) => v,
                Err(e) => {
                    return Err(e);
                },
            };
            self.headers.black_elo = Some(v);
            Ok(())
        } else if bytes_match(key, &tag_timecontrol()) {
            if value.len() == 1 && value[0] == 45 {
                proof {
                    assert(value@ =~= spec_untimed_text());
                }
                self.headers.timectl_sec = Some(0x7fffffff);
                self.headers.timectl_inc = Some(0x7fffffff);
                Ok(())
            } else {
                proof {
                    assert(value@ != spec_untimed_text());
                }
                let (sec, inc): (i32, i32) = match parse_timectl(value) {
                    Ok(t) => t,
                    Err(e) => {
                        return Err(e);
                    },
                };
                self.headers.timectl_sec = Some(sec);
                self.headers.timectl_inc = Some(inc);
                Ok(())
            }
        } else if bytes_match(key, &tag_result()) {
            match Outcome::parse_text(value) {
                Some(o) => {
                    self.headers.outcome = Some(o);
                },
                None => {
                    self.skip = true;
                },
            }
            Ok(())
        } else if bytes_match(key, &tag_termination()) {
            if !(value.len() == 6 && value[0] == 78 && value[1] == 111 && value[2] == 114
                && value[3] == 109 && value[4] == 97 && value[5] == 108) {
                proof {
                    assert(value@ != spec_normal_text());
                }
                self.skip = true;
            } else {
                proof {
                    assert(value@ =~= spec_normal_text());
                }
            }
            Ok(())
        } else {
            Ok(())
        }
    }

    /// After the headers: the tokenizer may skip the movetext of a game
    /// already marked skipped.
    pub fn end_headers(&self) -> (r: bool)
        ensures
            r == self.skip,
    {
        self.skip
    }

    /// A variation opens: it is never entered.
    pub fn begin_variation(&self) -> (r: bool)
        ensures
            r == true,
    {
        true
    }

    /// One SAN move goes by: it is resolved against the running position
    /// through the rules engine, appended as a packed move, and the
    /// position advances. It fails, leaving the visitor as it was, exactly
    /// when the engine resolves the token to no legal move here.
    pub fn san(&mut self, san: &Vec<u8>) -> (r: Result<(), DataError>)
        requires
            wf_visitor(old(self)),
        ensures
            final(self).headers == old(self).headers,
            final(self).skip == old(self).skip,
            wf_visitor(final(self)),
            match r {
                Ok(()) => match spec_san_resolution(old(self).board.prefix(), san@) {
                    Some(t) => final(self).moves@ == old(self).moves@.push(
                        Move { bitfield: spec_packed(t.0 as int, t.1 as int, t.2 as int) },
                    ),
                    None => false,
                },
                Err(e) => {
                    &&& e == DataError::Format
                    &&& *final(self) == *old(self)
                    &&& spec_san_resolution(old(self).board.prefix(), san@) is None
                },
            },
    {
        let (from, to, promo): (u8, u8, u8) = match resolve_san(&self.board, san) {
            Some(t) => t,
            None => {
                return Err(DataError::Format);
            },
        };
        let promotion: Option<Role> = match promo {
            0 => None,
            1 => Some(Role::Pawn),
            2 => Some(Role::Knight),
            3 => Some(Role::Bishop),
            4 => Some(Role::Rook),
            5 => Some(Role::Queen),
            _ => Some(Role::King),
        };
        let m: Move = Move::new(from, to, promotion);
        proof {
            assert(m.bitfield == spec_packed(from as int, to as int, promo as int));
        }
        let next: Board = match self.board.play(&m) {
            Some(b) => b,
            None => {
                proof {
                    assert(false);
                }
                return Err(DataError::Format);
            },
        };
        self.moves.push(m);
        self.board = next;
        proof {
            assert(spec_bitfields(self.moves@) =~= spec_bitfields(old(self).moves@).push(
                m.bitfield,
            ));
        }
        Ok(())
    }

    /// The game ends. A skipped game yields nothing; a complete one
    /// yields its `Game`; a missing field is a hard error that aborts the
    /// whole file's processing.
    pub fn end_game(&self) -> (r: Result<Option<Game>, DataError>)
        requires
            wf_visitor(self),
        ensures
            self.skip ==> (r matches Ok(g) && g is None),
            !self.skip ==> match r {
                Ok(g) => {
                    &&& g matches Some(g)
                    &&& self.headers@.white_name == Some(g@.white_name)
                    &&& self.headers@.black_name == Some(g@.black_name)
                    &&& self.headers@.white_elo == Some(g@.white_elo)
                    &&& self.headers@.black_elo == Some(g@.black_elo)
                    &&& self.headers@.outcome == Some(g@.outcome)
                    &&& self.headers@.timectl_sec == Some(g@.timectl_sec)
                    &&& self.headers@.timectl_inc == Some(g@.timectl_inc)
                    &&& g@.moves == self.moves@
                    &&& wf_game(g@)
                },
                Err(e) => {
                    &&& e == DataError::Validation
                    &&& (self.headers@.white_name is None || self.headers@.black_name is None
                        || self.headers@.white_elo is None || self.headers@.black_elo is None
                        || self.headers@.outcome is None || self.headers@.timectl_sec is None
                        || self.headers@.timectl_inc is None)
                },
            },
    {
        if self.skip {
            return Ok(None);
        }
        let white_name: Vec<u8> = match self.headers.white_name {
            Some(ref v) => clone_bytes(v),
            None => {
                return Err(DataError::Validation);
            },
        };
        let black_name: Vec<u8> = match self.headers.black_name {
            Some(ref v) => clone_bytes(v),
            None => {
                return Err(DataError::Validation);
            },
        };
        let white_elo: i32 = match self.headers.white_elo {
            Some(v) => v,
            None => {
                return Err(DataError::Validation);
            },
        };
        let black_elo: i32 = match self.headers.black_elo {
            Some(v) => v,
            None => {
                return Err(DataError::Validation);
            },
        };
        let outcome: Outcome = match self.headers.outcome {
            Some(o) => o,
            None => {
                return Err(DataError::Validation);
            },
        };
        let timectl_sec: i32 = match self.headers.timectl_sec {
            Some(v) => v,
            None => {
                return Err(DataError::Validation);
            },
        };
        let timectl_inc: i32 = match self.headers.timectl_inc {
            Some(v) => v,
            None => {
                return Err(DataError::Validation);
            },
        };
        let moves: Vec<Move> = clone_moves(&self.moves);
        proof {
            assert(crate::bytes::pow256(8) == 0x10000000000000000) by {
                reveal_with_fuel(crate::bytes::pow256, 9);
            }
        }
        Ok(
            Some(
                Game {
                    white_name,
                    black_name,
                    white_elo,
                    black_elo,
                    outcome,
                    timectl_sec,
                    timectl_inc,
                    moves,
                },
            ),
        )
    }
}

/// One PGN header line: `[Tag "value"]` and a newline.
pub open spec fn spec_pgn_line(tag: Seq<u8>, value: Seq<u8>) -> Seq<u8> {
    seq![91u8] + tag + seq![32u8, 34u8] + value + seq![34u8, 93u8, 10u8]
}

/// The header block `write_pgn` emits: the five collected tags, a
/// `Termination "Normal"` line, and a blank line.
pub open spec fn spec_pgn_header_lines(g: crate::game::GameView) -> Seq<u8> {
    spec_pgn_line(spec_tag_white(), g.white_name) + spec_pgn_line(
        spec_tag_white_elo(),
        spec_i32_text(g.white_elo),
    ) + spec_pgn_line(spec_tag_black(), g.black_name) + spec_pgn_line(
        spec_tag_black_elo(),
        spec_i32_text(g.black_elo),
    ) + spec_pgn_line(
        spec_tag_timecontrol(),
        spec_i32_text(g.timectl_sec) + seq![43u8] + spec_i32_text(g.timectl_inc),
    ) + spec_pgn_line(spec_tag_termination(), spec_normal_text()) + seq![10u8]
}

/// Appends one `[Tag "value"]` line.
fn push_pgn_line(out: &mut Vec<u8>, tag: &Vec<u8>, value: &Vec<u8>)
    ensures
        final(out)@ == old(out)@ + spec_pgn_line(tag@, value@),
{
    out.push(91);
    push_bytes(out, tag);
    out.push(32);
    out.push(34);
    push_bytes(out, value);
    out.push(34);
    out.push(93);
    out.push(10);
    proof {
        assert(out@ =~= old(out)@ + spec_pgn_line(tag@, value@));
    }
}

/// The text of move `k` in the movetext: White's moves are preceded by
/// their move number, and every move's SAN rendering is followed by a
/// space.
pub open spec fn spec_move_token(ms: Seq<Move>, k: int) -> Seq<u8> {
    let numbering = if k % 2 == 0 {
        crate::decimal::spec_dec_nat(k / 2 + 1) + seq![46u8, 32u8]
    } else {
        Seq::<u8>::empty()
    };
    numbering + spec_san_text(
        spec_bitfields(ms).take(k),
        spec_move_from(ms[k].bitfield),
        spec_move_to(ms[k].bitfield),
        ms[k].bitfield as int / 4096,
    ) + seq![32u8]
}

/// The movetext of the first `j` moves of a game.
pub open spec fn spec_movetext(ms: Seq<Move>, j: int) -> Seq<u8>
    decreases j,
{
    if j <= 0 {
        Seq::empty()
    } else {
        spec_movetext(ms, j - 1) + spec_move_token(ms, j - 1)
    }
}

impl Game {
    /// Renders the game as PGN text: the header block, the numbered
    /// movetext with each move re-rendered as SAN by the rules engine,
    /// and the result string on its own line. Succeeds, with exactly that
    /// text, whenever the stored moves replay legally from the start; it
    /// fails exactly when they do not, which means the record is corrupt.
    pub fn write_pgn(&self) -> (r: Result<Vec<u8>, DataError>)
        requires
            wf_game(self@),
        ensures
            match r {
                Ok(v) => {
                    &&& spec_game_replays(self@.moves)
                    &&& v@ == spec_pgn_header_lines(self@) + spec_movetext(
                        self@.moves,
                        self@.moves.len() as int,
                    ) + spec_outcome_text(self@.outcome) + seq![10u8, 10u8]
                },
                Err(e) => {
                    &&& e == DataError::Inconsistency
                    &&& !spec_game_replays(self@.moves)
                },
            },
    {
        let ghost hdr = spec_pgn_header_lines(self@);
        let mut out: Vec<u8> = Vec::new();
        push_pgn_line(&mut out, &tag_white(), &self.white_name);
        let mut white_elo_text: Vec<u8> = Vec::new();
        push_dec_i32(&mut white_elo_text, self.white_elo);
        push_pgn_line(&mut out, &tag_white_elo(), &white_elo_text);
        push_pgn_line(&mut out, &tag_black(), &self.black_name);
        let mut black_elo_text: Vec<u8> = Vec::new();
        push_dec_i32(&mut black_elo_text, self.black_elo);
        push_pgn_line(&mut out, &tag_black_elo(), &black_elo_text);
        let mut timectl_text: Vec<u8> = Vec::new();
        push_dec_i32(&mut timectl_text, self.timectl_sec);
        timectl_text.push(43);
        push_dec_i32(&mut timectl_text, self.timectl_inc);
        push_pgn_line(&mut out, &tag_timecontrol(), &timectl_text);
        let mut normal_text: Vec<u8> = Vec::new();
        normal_text.push(78);
        normal_text.push(111);
        normal_text.push(114);
        normal_text.push(109);
        normal_text.push(97);
        normal_text.push(108);
        proof {
            assert(normal_text@ =~= spec_normal_text());
        }
        push_pgn_line(&mut out, &tag_termination(), &normal_text);
        out.push(10);
        proof {
            assert(out@ =~= hdr);
        }
        let mut board: Board = Board::start();
        let n: usize = self.moves.len();
        let mut j: usize = 0;
        proof {
            assert(spec_bitfields(self@.moves).take(0) =~= Seq::<u16>::empty());
        }
        while j < n
            invariant
                j <= n,
                n == self.moves@.len(),
                wf_game(self@),
                hdr == spec_pgn_header_lines(self@),
                board.prefix() == spec_bitfields(self@.moves).take(j as int),
                forall|k: int|
                    1 <= k <= j ==> spec_replay_ok(#[trigger] spec_bitfields(self@.moves).take(k)),
                out@ == hdr + spec_movetext(self@.moves, j as int),
            decreases n - j,
        {
            if j % 2 == 0 {
                push_dec_u64(&mut out, (j / 2 + 1) as u64);
                out.push(46);
                out.push(32);
            }
            let m: Move = self.moves[j];
            let from: u8 = m.move_from();
            let to: u8 = m.move_to();
            let promo: u8 = (m.bitfield / 4096) as u8;
            proof {
                lemma_bitfield_round_trip(m.bitfield);
                assert(spec_packed(from as int, to as int, promo as int) == m.bitfield);
                assert(spec_bitfields(self@.moves).take(j as int).push(m.bitfield)
                    =~= spec_bitfields(self@.moves).take(j as int + 1));
            }
            let san: Vec<u8> = match san_raw(&board, from, to, promo) {
                Some(t) => t,
                None => {
                    proof {
                        assert(!spec_replay_ok(spec_bitfields(self@.moves).take(j as int + 1)));
                    }
                    return Err(DataError::Inconsistency);
                },
            };
            push_bytes(&mut out, &san);
            out.push(32);
            board = match board.play(&m) {
                Some(b) => b,
                None => {
                    proof {
                        assert(false);
                    }
                    return Err(DataError::Inconsistency);
                },
            };
            proof {
                assert(out@ =~= hdr + spec_movetext(self@.moves, j as int + 1));
            }
            j = j + 1;
        }
        let outcome_text: Vec<u8> = self.outcome.text();
        push_bytes(&mut out, &outcome_text);
        out.push(10);
        out.push(10);
        proof {
            assert(out@ =~= hdr + spec_movetext(self@.moves, n as int) + spec_outcome_text(
                self@.outcome,
            ) + seq![10u8, 10u8]);
        }
        Ok(out)
    }
}

/// Whether two byte strings hold the same bytes.
pub fn bytes_match(a: &Vec<u8>, b: &Vec<u8>) -> (r: bool)
    ensures
        r == (a@ == b@),
{
    let n: usize = a.len();
    if n != b.len() {
        return false;
    }
    let mut i: usize = 0;
    while i < n
        invariant
            i <= n,
            n == a@.len(),
            n == b@.len(),
            forall|j: int| 0 <= j < i ==> a@[j] == b@[j],
        decreases n - i,
    {
        if a[i] != b[i] {
            return false;
        }
        i = i + 1;
    }
    proof {
        assert(a@ =~= b@);
    }
    true
}

/// A copy of a byte string.
fn clone_bytes(v: &Vec<u8>) -> (r: Vec<u8>)
    ensures
        r@ == v@,
        r@.len() <= usize::MAX,
{
    let mut r: Vec<u8> = Vec::new();
    let n: usize = v.len();
    let mut i: usize = 0;
    while i < n
        invariant
            i <= n,
            n == v@.len(),
            r@ == v@.take(i as int),
        decreases n - i,
    {
        r.push(v[i]);
        proof {
            assert(v@.take(i as int).push(v@[i as int]) =~= v@.take(i as int + 1));
        }
        i = i + 1;
    }
    proof {
        assert(v@.take(n as int) =~= v@);
    }
    r
}

/// A copy of a move list.
fn clone_moves(v: &Vec<Move>) -> (r: Vec<Move>)
    ensures
        r@ == v@,
        r@.len() <= usize::MAX,
{
    let mut r: Vec<Move> = Vec::new();
    let n: usize = v.len();
    let mut i: usize = 0;
    while i < n
        invariant
            i <= n,
            n == v@.len(),
            r@ == v@.take(i as int),
        decreases n - i,
    {
        r.push(v[i]);
        proof {
            assert(v@.take(i as int).push(v@[i as int]) =~= v@.take(i as int + 1));
        }
        i = i + 1;
    }
    proof {
        assert(v@.take(n as int) =~= v@);
    }
    r
}

/// The tag name `White` as bytes.
fn tag_white() -> (r: Vec<u8>)
    ensures
        r@ == spec_tag_white(),
{
    let mut v: Vec<u8> = Vec::new();
    v.push(87);
    v.push(104);
    v.push(105);
    v.push(116);
    v.push(101);
    proof {
        assert(v@ =~= spec_tag_white());
    }
    v
}

/// The tag name `Black` as bytes.
fn tag_black() -> (r: Vec<u8>)
    ensures
        r@ == spec_tag_black(),
{
    let mut v: Vec<u8> = Vec::new();
    v.push(66);
    v.push(108);
    v.push(97);
    v.push(99);
    v.push(107);
    proof {
        assert(v@ =~= spec_tag_black());
    }
    v
}

/// The tag name `WhiteElo` as bytes.
fn tag_white_elo() -> (r: Vec<u8>)
    ensures
        r@ == spec_tag_white_elo(),
{
    let mut v: Vec<u8> = tag_white();
    v.push(69);
    v.push(108);
    v.push(111);
    proof {
        assert(v@ =~= spec_tag_white_elo());
    }
    v
}

/// The tag name `BlackElo` as bytes.
fn tag_black_elo() -> (r: Vec<u8>)
    ensures
        r@ == spec_tag_black_elo(),
{
    let mut v: Vec<u8> = tag_black();
    v.push(69);
    v.push(108);
    v.push(111);
    proof {
        assert(v@ =~= spec_tag_black_elo());
    }
    v
}

/// The tag name `TimeControl` as bytes.
fn tag_timecontrol() -> (r: Vec<u8>)
    ensures
        r@ == spec_tag_timecontrol(),
{
    let mut v: Vec<u8> = Vec::new();
    v.push(84);
    v.push(105);
    v.push(109);
    v.push(101);
    v.push(67);
    v.push(111);
    v.push(110);
    v.push(116);
    v.push(114);
    v.push(111);
    v.push(108);
    proof {
        assert(v@ =~= spec_tag_timecontrol());
    }
    v
}

/// The tag name `Result` as bytes.
fn tag_result() -> (r: Vec<u8>)
    ensures
        r@ == spec_tag_result(),
{
    let mut v: Vec<u8> = Vec::new();
    v.push(82);
    v.push(101);
    v.push(115);
    v.push(117);
    v.push(108);
    v.push(116);
    proof {
        assert(v@ =~= spec_tag_result());
    }
    v
}

/// The tag name `Termination` as bytes.
fn tag_termination() -> (r: Vec<u8>)
    ensures
        r@ == spec_tag_termination(),
{
    let mut v: Vec<u8> = Vec::new();
    v.push(84);
    v.push(101);
    v.push(114);
    v.push(109);
    v.push(105);
    v.push(110);
    v.push(97);
    v.push(116);
    v.push(105);
    v.push(111);
    v.push(110);
    proof {
        assert(v@ =~= spec_tag_termination());
    }
    v
}

} // verus!
