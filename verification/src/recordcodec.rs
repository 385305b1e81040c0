//! The byte layout of one game record, in both directions.
//!
//! A record is the concatenation of: each player name as an 8-byte
//! little-endian length followed by that many bytes; the two ratings, the
//! outcome code and the two time-control fields as 4-byte little-endian
//! values (signed fields in two's complement); and the move list as an
//! 8-byte little-endian count followed by one 2-byte little-endian packed
//! move each. A record carries nothing after the move list.

use vstd::prelude::*;
use crate::bytes::{
    pow256, spec_le_bytes, spec_int_of_le, spec_i32_bits, spec_bits_i32, lemma_le_bytes_len,
    lemma_le_round_trip, lemma_i32_bits_round_trip, push_le16, push_le32, push_le64, read_le16,
    read_le32, read_le64, i32_bits, bits_i32,
};
use crate::errors::DataError;
use crate::game::{
    Game, GameView, Outcome, spec_outcome_code, spec_code_outcome, wf_game,
};
use crate::moves::{Move, valid_bitfield};

verus! {

/// A length-prefixed byte field: 8-byte little-endian length, then the bytes.
pub open spec fn spec_field_bytes(s: Seq<u8>) -> Seq<u8> {
    spec_le_bytes(s.len() as int, 8) + s
}

/// The move list's bytes: each packed move as two little-endian bytes.
pub open spec fn spec_moves_bytes(ms: Seq<Move>) -> Seq<u8>
    decreases ms.len(),
{
    if ms.len() == 0 {
        Seq::empty()
    } else {
        spec_le_bytes(ms[0].bitfield as int, 2) + spec_moves_bytes(ms.drop_first())
    }
}

/// The body of one serialized game record.
pub open spec fn spec_game_body(g: GameView) -> Seq<u8> {
    spec_field_bytes(g.white_name) + spec_field_bytes(g.black_name) + spec_le_bytes(
        spec_i32_bits(g.white_elo),
        4,
    ) + spec_le_bytes(spec_i32_bits(g.black_elo), 4) + spec_le_bytes(
        spec_outcome_code(g.outcome),
        4,
    ) + spec_le_bytes(spec_i32_bits(g.timectl_sec), 4) + spec_le_bytes(
        spec_i32_bits(g.timectl_inc),
        4,
    ) + spec_le_bytes(g.moves.len() as int, 8) + spec_moves_bytes(g.moves)
}

/// Reads an `n`-byte little-endian value off the front of `b`.
pub open spec fn spec_parse_uint(b: Seq<u8>, n: nat) -> Option<(int, Seq<u8>)> {
    if b.len() >= n {
        Some((spec_int_of_le(b.take(n as int)), b.skip(n as int)))
    } else {
        None
    }
}

/// Reads a length-prefixed byte field off the front of `b`.
pub open spec fn spec_parse_field(b: Seq<u8>) -> Option<(Seq<u8>, Seq<u8>)> {
    match spec_parse_uint(b, 8) {
        Some((n, rest)) => if rest.len() >= n {
            Some((rest.take(n), rest.skip(n)))
        } else {
            None
        },
        None => None,
    }
}

/// Reads `k` packed moves off the front of `b`, refusing any bitfield the
/// move codec could not decode.
pub open spec fn spec_parse_moves(b: Seq<u8>, k: nat) -> Option<(Seq<Move>, Seq<u8>)>
    decreases k,
{
    if k == 0 {
        Some((Seq::empty(), b))
    } else {
        match spec_parse_uint(b, 2) {
            Some((v, rest)) => if valid_bitfield(v as u16) && v < 0x10000 {
                match spec_parse_moves(rest, (k - 1) as nat) {
                    Some((ms, tail)) => Some((seq![Move { bitfield: v as u16 }] + ms, tail)),
                    None => None,
                }
            } else {
                None
            },
            None => None,
        }
    }
}

/// Reads one whole game record, which must span `b` exactly.
pub open spec fn spec_parse_game(b: Seq<u8>) -> Option<GameView> {
    match spec_parse_field(b) {
        None => None,
        Some((white_name, b1)) => match spec_parse_field(b1) {
            None => None,
            Some((black_name, b2)) => match spec_parse_uint(b2, 4) {
                None => None,
                Some((we, b3)) => match spec_parse_uint(b3, 4) {
                    None => None,
                    Some((be, b4)) => match spec_parse_uint(b4, 4) {
                        None => None,
                        Some((oc, b5)) => if oc > 2 {
                            None
                        } else {
                            match spec_parse_uint(b5, 4) {
                                None => None,
                                Some((sec, b6)) => match spec_parse_uint(b6, 4) {
                                    None => None,
                                    Some((inc, b7)) => match spec_parse_uint(b7, 8) {
                                        None => None,
                                        Some((k, b8)) => match spec_parse_moves(b8, k as nat) {
                                            None => None,
                                            Some((moves, tail)) => if tail.len() == 0 {
                                                Some(GameView {
                                                    white_name,
                                                    black_name,
                                                    white_elo: spec_bits_i32(we),
                                                    black_elo: spec_bits_i32(be),
                                                    outcome: spec_code_outcome(oc),
                                                    timectl_sec: spec_bits_i32(sec),
                                                    timectl_inc: spec_bits_i32(inc),
                                                    moves,
                                                })
                                            } else {
                                                None
                                            },
                                        },
                                    },
                                },
                            }
                        },
                    },
                },
            },
        },
    }
}

/// Appending one move appends its two bytes.
pub proof fn lemma_moves_bytes_push(ms: Seq<Move>, m: Move)
    ensures
        spec_moves_bytes(ms.push(m)) == spec_moves_bytes(ms) + spec_le_bytes(m.bitfield as int, 2),
    decreases ms.len(),
{
    lemma_le_bytes_len(m.bitfield as int, 2);
    let s = ms.push(m);
    assert(s.len() == ms.len() + 1);
    assert(s[0] == if ms.len() == 0 {
        m
    } else {
        ms[0]
    });
    if ms.len() == 0 {
        assert(s.drop_first() =~= Seq::<Move>::empty());
        assert(spec_moves_bytes(s) == spec_le_bytes(s[0].bitfield as int, 2) + spec_moves_bytes(
            s.drop_first(),
        ));
        assert(spec_moves_bytes(s) =~= spec_moves_bytes(ms) + spec_le_bytes(m.bitfield as int, 2));
    } else {
        assert(s.drop_first() =~= ms.drop_first().push(m));
        lemma_moves_bytes_push(ms.drop_first(), m);
        assert(spec_moves_bytes(s) == spec_le_bytes(ms[0].bitfield as int, 2) + (spec_moves_bytes(
            ms.drop_first(),
        ) + spec_le_bytes(m.bitfield as int, 2)));
        assert(spec_moves_bytes(s) =~= spec_moves_bytes(ms) + spec_le_bytes(m.bitfield as int, 2));
    }
}

/// Parsing an `n`-byte value off its own encoding gives the value back.
pub proof fn lemma_parse_uint_inv(v: int, n: nat, rest: Seq<u8>)
    requires
        0 <= v < pow256(n),
    ensures
        spec_parse_uint(spec_le_bytes(v, n) + rest, n) == Some((v, rest)),
{
    lemma_le_bytes_len(v, n);
    let b = spec_le_bytes(v, n) + rest;
    assert(b.take(n as int) =~= spec_le_bytes(v, n));
    lemma_le_round_trip(v, n);
    assert(b.skip(n as int) =~= rest);
}

/// Parsing a field off its own encoding gives the bytes back.
pub proof fn lemma_parse_field_inv(s: Seq<u8>, rest: Seq<u8>)
    requires
        s.len() < pow256(8),
    ensures
        spec_parse_field(spec_field_bytes(s) + rest) == Some((s, rest)),
{
    let b = spec_field_bytes(s) + rest;
    assert(b =~= spec_le_bytes(s.len() as int, 8) + (s + rest));
    lemma_parse_uint_inv(s.len() as int, 8, s + rest);
    assert((s + rest).take(s.len() as int) =~= s);
    assert((s + rest).skip(s.len() as int) =~= rest);
}

/// Parsing `k` moves off their own encoding gives the moves back.
pub proof fn lemma_parse_moves_inv(ms: Seq<Move>, rest: Seq<u8>)
    requires
        forall|i: int| 0 <= i < ms.len() ==> valid_bitfield(#[trigger] ms[i].bitfield),
    ensures
        spec_parse_moves(spec_moves_bytes(ms) + rest, ms.len() as nat) == Some((ms, rest)),
    decreases ms.len(),
{
    if ms.len() == 0 {
        assert(spec_moves_bytes(ms) + rest =~= rest);
    } else {
        let m = ms[0];
        let tail = ms.drop_first();
        let b = spec_moves_bytes(ms) + rest;
        assert(b =~= spec_le_bytes(m.bitfield as int, 2) + (spec_moves_bytes(tail) + rest));
        assert(m.bitfield < pow256(2)) by {
            reveal_with_fuel(pow256, 3);
        }
        lemma_parse_uint_inv(m.bitfield as int, 2, spec_moves_bytes(tail) + rest);
        lemma_parse_moves_inv(tail, rest);
        assert(seq![Move { bitfield: m.bitfield }] + tail =~= ms);
    }
}

/// Record round trip: parsing the serialized body of any well-formed game
/// gives that game back.
#[verifier::rlimit(100)]
#[verifier::spinoff_prover]
pub proof fn lemma_parse_game_inv(g: GameView)
    requires
        wf_game(g),
    ensures
        spec_parse_game(spec_game_body(g)) == Some(g),
{
    let we = spec_le_bytes(spec_i32_bits(g.white_elo), 4);
    let be = spec_le_bytes(spec_i32_bits(g.black_elo), 4);
    let oc = spec_le_bytes(spec_outcome_code(g.outcome), 4);
    let sec = spec_le_bytes(spec_i32_bits(g.timectl_sec), 4);
    let inc = spec_le_bytes(spec_i32_bits(g.timectl_inc), 4);
    let cnt = spec_le_bytes(g.moves.len() as int, 8);
    let mvs = spec_moves_bytes(g.moves);

    let r1 = spec_field_bytes(g.black_name) + we + be + oc + sec + inc + cnt + mvs;
    let r2 = we + be + oc + sec + inc + cnt + mvs;
    let r3 = be + oc + sec + inc + cnt + mvs;
    let r4 = oc + sec + inc + cnt + mvs;
    let r5 = sec + inc + cnt + mvs;
    let r6 = inc + cnt + mvs;
    let r7 = cnt + mvs;

    assert(spec_game_body(g) =~= spec_field_bytes(g.white_name) + r1);
    lemma_parse_field_inv(g.white_name, r1);
    assert(r1 =~= spec_field_bytes(g.black_name) + r2);
    lemma_parse_field_inv(g.black_name, r2);

    proof_four_byte_bound();
    lemma_i32_bits_round_trip(g.white_elo);
    lemma_i32_bits_round_trip(g.black_elo);
    lemma_i32_bits_round_trip(g.timectl_sec);
    lemma_i32_bits_round_trip(g.timectl_inc);

    assert(r2 =~= we + r3);
    lemma_parse_uint_inv(spec_i32_bits(g.white_elo), 4, r3);
    assert(r3 =~= be + r4);
    lemma_parse_uint_inv(spec_i32_bits(g.black_elo), 4, r4);
    assert(r4 =~= oc + r5);
    lemma_parse_uint_inv(spec_outcome_code(g.outcome), 4, r5);
    assert(r5 =~= sec + r6);
    lemma_parse_uint_inv(spec_i32_bits(g.timectl_sec), 4, r6);
    assert(r6 =~= inc + r7);
    lemma_parse_uint_inv(spec_i32_bits(g.timectl_inc), 4, r7);
    assert(r7 =~= cnt + mvs);
    lemma_parse_uint_inv(g.moves.len() as int, 8, mvs);
    assert(mvs =~= spec_moves_bytes(g.moves) + Seq::<u8>::empty());
    lemma_parse_moves_inv(g.moves, Seq::empty());
}

/// The bound `4`-byte encodings live under.
proof fn proof_four_byte_bound()
    ensures
        pow256(4) == 0x100000000,
        pow256(8) == 0x10000000000000000,
{
    reveal_with_fuel(pow256, 9);
}

/// Appends all of `src` to `buf`.
pub fn push_bytes(buf: &mut Vec<u8>, src: &Vec<u8>)
    ensures
        final(buf)@ == old(buf)@ + src@,
{
    let n: usize = src.len();
    let mut i: usize = 0;
    while i < n
        invariant
            i <= n,
            n == src@.len(),
            buf@ == old(buf)@ + src@.take(i as int),
        decreases n - i,
    {
        buf.push(src[i]);
        proof {
            assert(old(buf)@ + src@.take(i as int) + seq![src@[i as int]] =~= old(buf)@
                + src@.take(i as int + 1));
        }
        i = i + 1;
    }
    proof {
        assert(src@.take(n as int) =~= src@);
    }
}

/// Serializes one game record body.
pub fn encode_game(g: &Game) -> (r: Vec<u8>)
    requires
        wf_game(g@),
    ensures
        r@ == spec_game_body(g@),
{
    let mut buf: Vec<u8> = Vec::new();
    push_le64(&mut buf, g.white_name.len() as u64);
    push_bytes(&mut buf, &g.white_name);
    push_le64(&mut buf, g.black_name.len() as u64);
    push_bytes(&mut buf, &g.black_name);
    push_le32(&mut buf, i32_bits(g.white_elo));
    push_le32(&mut buf, i32_bits(g.black_elo));
    push_le32(&mut buf, g.outcome.code());
    push_le32(&mut buf, i32_bits(g.timectl_sec));
    push_le32(&mut buf, i32_bits(g.timectl_inc));
    push_le64(&mut buf, g.moves.len() as u64);
    let ghost prefix = buf@;
    let n: usize = g.moves.len();
    let mut i: usize = 0;
    while i < n
        invariant
            i <= n,
            n == g.moves@.len(),
            buf@ == prefix + spec_moves_bytes(g.moves@.take(i as int)),
        decreases n - i,
    {
        let m: Move = g.moves[i];
        push_le16(&mut buf, m.bitfield);
        proof {
            lemma_moves_bytes_push(g.moves@.take(i as int), g.moves@[i as int]);
            assert(g.moves@.take(i as int).push(g.moves@[i as int]) =~= g.moves@.take(i as int + 1));
        }
        i = i + 1;
    }
    proof {
        assert(g.moves@.take(n as int) =~= g.moves@);
        assert(buf@ =~= spec_game_body(g@));
    }
    buf
}

/// Reads an 8-byte value at the cursor, advancing it.
fn take_u64(data: &Vec<u8>, pos: &mut usize) -> (r: Result<u64, DataError>)
    requires
        *old(pos) <= data@.len(),
    ensures
        match r {
            Ok(v) => {
                &&& spec_parse_uint(data@.skip(*old(pos) as int), 8) == Some(
                    (v as int, data@.skip(*final(pos) as int)),
                )
                &&& *final(pos) == *old(pos) + 8
                &&& *final(pos) <= data@.len()
            },
            Err(e) => {
                &&& spec_parse_uint(data@.skip(*old(pos) as int), 8) is None
                &&& *final(pos) == *old(pos)
                &&& e == DataError::Format
            },
        },
{
    let len: usize = data.len();
    if len - *pos < 8 {
        return Err(DataError::Format);
    }
    let v: u64 = read_le64(data, *pos);
    proof {
        let rest = data@.skip(*pos as int);
        assert(rest.take(8) =~= data@.subrange(*pos as int, *pos as int + 8));
        assert(rest.skip(8) =~= data@.skip(*pos as int + 8));
    }
    *pos = *pos + 8;
    Ok(v)
}

/// Reads a 4-byte value at the cursor, advancing it.
fn take_u32(data: &Vec<u8>, pos: &mut usize) -> (r: Result<u32, DataError>)
    requires
        *old(pos) <= data@.len(),
    ensures
        match r {
            Ok(v) => {
                &&& spec_parse_uint(data@.skip(*old(pos) as int), 4) == Some(
                    (v as int, data@.skip(*final(pos) as int)),
                )
                &&& *final(pos) == *old(pos) + 4
                &&& *final(pos) <= data@.len()
            },
            Err(e) => {
                &&& spec_parse_uint(data@.skip(*old(pos) as int), 4) is None
                &&& *final(pos) == *old(pos)
                &&& e == DataError::Format
            },
        },
{
    let len: usize = data.len();
    if len - *pos < 4 {
        return Err(DataError::Format);
    }
    let v: u32 = read_le32(data, *pos);
    proof {
        let rest = data@.skip(*pos as int);
        assert(rest.take(4) =~= data@.subrange(*pos as int, *pos as int + 4));
        assert(rest.skip(4) =~= data@.skip(*pos as int + 4));
    }
    *pos = *pos + 4;
    Ok(v)
}

/// Reads a length-prefixed byte field at the cursor, advancing it.
pub(crate) fn take_field(data: &Vec<u8>, pos: &mut usize) -> (r: Result<Vec<u8>, DataError>)
    requires
        *old(pos) <= data@.len(),
    ensures
        match r {
            Ok(v) => {
                &&& spec_parse_field(data@.skip(*old(pos) as int)) == Some(
                    (v@, data@.skip(*final(pos) as int)),
                )
                &&& *final(pos) <= data@.len()
                &&& *old(pos) <= *final(pos)
            },
            Err(e) => {
                &&& spec_parse_field(data@.skip(*old(pos) as int)) is None
                &&& *old(pos) <= *final(pos) <= data@.len()
                &&& e == DataError::Format
            },
        },
{
    let ghost rest0 = data@.skip(*pos as int);
    let n64: u64 = match take_u64(data, pos) {
        Ok(v) => v,
        Err(e) => {
            return Err(e);
        },
    };
    let len: usize = data.len();
    if n64 > (len - *pos) as u64 {
        return Err(DataError::Format);
    }
    let n: usize = n64 as usize;
    let ghost rest1 = data@.skip(*pos as int);
    let start: usize = *pos;
    let mut v: Vec<u8> = Vec::new();
    let mut i: usize = 0;
    while i < n
        invariant
            i <= n,
            start + n <= len,
            len == data@.len(),
            v@ == data@.subrange(start as int, start as int + i as int),
        decreases n - i,
    {
        v.push(data[start + i]);
        proof {
            assert(data@.subrange(start as int, start as int + i as int) + seq![
                data@[start as int + i as int],
            ] =~= data@.subrange(start as int, start as int + i as int + 1));
        }
        i = i + 1;
    }
    *pos = start + n;
    proof {
        assert(v@ =~= rest1.take(n64 as int));
        assert(data@.skip(*pos as int) =~= rest1.skip(n64 as int));
    }
    Ok(v)
}

/// Reads `count` packed moves at the cursor, advancing it.
fn take_moves(data: &Vec<u8>, pos: &mut usize, count: u64) -> (r: Result<Vec<Move>, DataError>)
    requires
        *old(pos) <= data@.len(),
    ensures
        match r {
            Ok(v) => {
                &&& spec_parse_moves(data@.skip(*old(pos) as int), count as nat) == Some(
                    (v@, data@.skip(*final(pos) as int)),
                )
                &&& *final(pos) <= data@.len()
                &&& forall|j: int|
                    0 <= j < v@.len() ==> valid_bitfield(#[trigger] v@[j].bitfield)
            },
            Err(e) => {
                &&& spec_parse_moves(data@.skip(*old(pos) as int), count as nat) is None
                &&& *old(pos) <= *final(pos) <= data@.len()
                &&& e == DataError::Format
            },
        },
{
    let ghost rest0 = data@.skip(*pos as int);
    let mut v: Vec<Move> = Vec::new();
    let mut i: u64 = 0;
    while i < count
        invariant
            i <= count,
            *old(pos) <= *pos <= data@.len(),
            rest0 == data@.skip(*old(pos) as int),
            v@.len() == i,
            forall|j: int| 0 <= j < v@.len() ==> valid_bitfield(#[trigger] v@[j].bitfield),
            match spec_parse_moves(data@.skip(*pos as int), (count - i) as nat) {
                Some((ms, tail)) => spec_parse_moves(rest0, count as nat) == Some((v@ + ms, tail)),
                None => spec_parse_moves(rest0, count as nat) is None,
            },
        decreases count - i,
    {
        let ghost rest_i = data@.skip(*pos as int);
        let len: usize = data.len();
        if len - *pos < 2 {
            proof {
                assert(rest_i.len() < 2);
                assert(spec_parse_moves(rest_i, (count - i) as nat) is None);
            }
            return Err(DataError::Format);
        }
        let w: u16 = read_le16(data, *pos);
        proof {
            assert(rest_i.take(2) =~= data@.subrange(*pos as int, *pos as int + 2));
            assert(rest_i.skip(2) =~= data@.skip(*pos as int + 2));
        }
        if w >= 7 * 4096 {
            proof {
                assert(spec_parse_uint(rest_i, 2) == Some(
                    (w as int, data@.skip(*pos as int + 2)),
                ));
                assert(!valid_bitfield(w));
                assert(spec_parse_moves(rest_i, (count - i) as nat) is None);
            }
            return Err(DataError::Format);
        }
        *pos = *pos + 2;
        let m = Move { bitfield: w };
        v.push(m);
        proof {
            let tail_k = (count - i - 1) as nat;
            let ghost old_v = v@.drop_last();
            match spec_parse_moves(data@.skip(*pos as int), tail_k) {
                Some((ms, tail)) => {
                    assert(old_v + (seq![m] + ms) =~= v@ + ms);
                },
                None => {},
            }
        }
        i = i + 1;
    }
    proof {
        assert(v@ + Seq::<Move>::empty() =~= v@);
    }
    Ok(v)
}

/// Deserializes one game record. Succeeds exactly on byte sequences the
/// serializer produces: the result's serialization is the input, and any
/// well-formed game's serialization decodes to that game.
pub fn decode_game(data: &Vec<u8>) -> (r: Result<Game, DataError>)
    ensures
        match r {
            Ok(g) => {
                &&& spec_parse_game(data@) == Some(g@)
                &&& wf_game(g@)
                &&& data@ == spec_game_body(g@)
            },
            Err(e) => {
                &&& spec_parse_game(data@) is None
                &&& e == DataError::Format
            },
        },
{
    let mut pos: usize = 0;
    proof {
        assert(data@.skip(0) =~= data@);
    }
    let white_name: Vec<u8> = match take_field(data, &mut pos) {
        Ok(v) => v,
        Err(e) => {
            return Err(e);
        },
    };
    let black_name: Vec<u8> = match take_field(data, &mut pos) {
        Ok(v) => v,
        Err(e) => {
            return Err(e);
        },
    };
    let we: u32 = match take_u32(data, &mut pos) {
        Ok(v) => v,
        Err(e) => {
            return Err(e);
        },
    };
    let be: u32 = match take_u32(data, &mut pos) {
        Ok(v) => v,
        Err(e) => {
            return Err(e);
        },
    };
    let oc: u32 = match take_u32(data, &mut pos) {
        Ok(v) => v,
        Err(e) => {
            return Err(e);
        },
    };
    if oc > 2 {
        return Err(DataError::Format);
    }
    let sec: u32 = match take_u32(data, &mut pos) {
        Ok(v) => v,
        Err(e) => {
            return Err(e);
        },
    };
    let inc: u32 = match take_u32(data, &mut pos) {
        Ok(v) => v,
        Err(e) => {
            return Err(e);
        },
    };
    let count: u64 = match take_u64(data, &mut pos) {
        Ok(v) => v,
        Err(e) => {
            return Err(e);
        },
    };
    let moves: Vec<Move> = match take_moves(data, &mut pos, count) {
        Ok(v) => v,
        Err(e) => {
            return Err(e);
        },
    };
    if pos != data.len() {
        proof {
            assert(data@.skip(pos as int).len() > 0);
        }
        return Err(DataError::Format);
    }
    let outcome: Outcome = if oc == 0 {
        Outcome::WhiteWin
    } else if oc == 1 {
        Outcome::BlackWin
    } else {
        Outcome::Draw
    };
    let g = Game {
        white_name,
        black_name,
        white_elo: bits_i32(we),
        black_elo: bits_i32(be),
        outcome,
        timectl_sec: bits_i32(sec),
        timectl_inc: bits_i32(inc),
        moves,
    };
    proof {
        assert(data@.skip(pos as int).len() == 0);
        proof_four_byte_bound();
        assert(spec_parse_game(data@) == Some(g@));
        lemma_parse_game_unique(data@, g@);
    }
    Ok(g)
}

/// A record parse pins the input down: if parsing `b` gives `g`, then `b`
/// is `g`'s serialization.
pub proof fn lemma_parse_game_unique(b: Seq<u8>, g: GameView)
    requires
        spec_parse_game(b) == Some(g),
    ensures
        wf_game(g),
        b == spec_game_body(g),
{
    lemma_parse_field_complete(b);
    let (white_name, b1) = spec_parse_field(b).unwrap();
    lemma_parse_field_complete(b1);
    let (black_name, b2) = spec_parse_field(b1).unwrap();
    lemma_parse_uint_complete(b2, 4);
    let (we, b3) = spec_parse_uint(b2, 4).unwrap();
    lemma_parse_uint_complete(b3, 4);
    let (be, b4) = spec_parse_uint(b3, 4).unwrap();
    lemma_parse_uint_complete(b4, 4);
    let (oc, b5) = spec_parse_uint(b4, 4).unwrap();
    lemma_parse_uint_complete(b5, 4);
    let (sec, b6) = spec_parse_uint(b5, 4).unwrap();
    lemma_parse_uint_complete(b6, 4);
    let (inc, b7) = spec_parse_uint(b6, 4).unwrap();
    lemma_parse_uint_complete(b7, 8);
    let (k, b8) = spec_parse_uint(b7, 8).unwrap();
    lemma_parse_moves_complete(b8, k as nat);
    let (moves, tail) = spec_parse_moves(b8, k as nat).unwrap();
    proof_four_byte_bound();
    assert(tail.len() == 0);
    assert(tail =~= Seq::<u8>::empty());
    assert(g.white_name == white_name && g.black_name == black_name);
    assert(g.moves == moves);
    lemma_i32_bits_round_trip(g.white_elo);
    assert(spec_i32_bits(spec_bits_i32(we)) == we);
    assert(spec_i32_bits(spec_bits_i32(be)) == be);
    assert(spec_i32_bits(spec_bits_i32(sec)) == sec);
    assert(spec_i32_bits(spec_bits_i32(inc)) == inc);
    assert(spec_outcome_code(spec_code_outcome(oc)) == oc);
    assert(spec_moves_bytes(moves) + tail =~= spec_moves_bytes(moves));
    assert(b =~= spec_game_body(g));
}

/// Whenever a uint parse succeeds, the input is the value's encoding
/// followed by the leftover.
proof fn lemma_parse_uint_complete(b: Seq<u8>, n: nat)
    ensures
        match spec_parse_uint(b, n) {
            Some((v, rest)) => {
                &&& 0 <= v < pow256(n)
                &&& b == spec_le_bytes(v, n) + rest
            },
            None => true,
        },
{
    if b.len() >= n {
        let v = spec_int_of_le(b.take(n as int));
        crate::bytes::lemma_le_bytes_of_int(b.take(n as int));
        assert(b =~= b.take(n as int) + b.skip(n as int));
    }
}

/// Whenever a field parse succeeds, the input is that field's encoding
/// followed by the leftover.
pub proof fn lemma_parse_field_complete(b: Seq<u8>)
    ensures
        match spec_parse_field(b) {
            Some((s, rest)) => {
                &&& s.len() < pow256(8)
                &&& b == spec_field_bytes(s) + rest
            },
            None => true,
        },
{
    lemma_parse_uint_complete(b, 8);
    match spec_parse_uint(b, 8) {
        Some((n, r)) => {
            if r.len() >= n {
                assert(r =~= r.take(n) + r.skip(n));
                assert(r.take(n).len() == n);
                assert(b =~= spec_field_bytes(r.take(n)) + r.skip(n));
            }
        },
        None => {},
    }
}

/// Whenever a move-list parse succeeds, the input is the moves' encoding
/// followed by the leftover, and every move is valid.
proof fn lemma_parse_moves_complete(b: Seq<u8>, k: nat)
    ensures
        match spec_parse_moves(b, k) {
            Some((ms, rest)) => {
                &&& ms.len() == k
                &&& b == spec_moves_bytes(ms) + rest
                &&& forall|i: int| 0 <= i < ms.len() ==> valid_bitfield(#[trigger] ms[i].bitfield)
            },
            None => true,
        },
    decreases k,
{
    if k == 0 {
        match spec_parse_moves(b, k) {
            Some((ms, rest)) => {
                assert(b =~= spec_moves_bytes(ms) + rest);
            },
            None => {},
        }
    } else {
        lemma_parse_uint_complete(b, 2);
        match spec_parse_uint(b, 2) {
            Some((v, r)) => {
                if valid_bitfield(v as u16) && v < 0x10000 {
                    lemma_parse_moves_complete(r, (k - 1) as nat);
                    match spec_parse_moves(r, (k - 1) as nat) {
                        Some((ms, rest)) => {
                            let all = seq![Move { bitfield: v as u16 }] + ms;
                            assert(all.drop_first() =~= ms);
                            assert(v as u16 as int == v) by {
                                reveal_with_fuel(pow256, 3);
                            }
                            assert(b =~= spec_moves_bytes(all) + rest);
                        },
                        None => {},
                    }
                }
            },
            None => {},
        }
    }
}

} // verus!
