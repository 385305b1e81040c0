//! The training-data batch and its compressed file format.
//!
//! A batch stacks one encoded position per row next to one one-hot
//! outcome per row; cell values are `f32` bit patterns kept as `u32`. The
//! file format is an 8-byte little-endian header length, a header (16-byte
//! magic, the 4-long input shape and the 2-long output shape as 8-byte
//! little-endian values), then the rows — inputs first, then outputs,
//! each value as four little-endian bytes — compressed as one zstd frame.

use vstd::prelude::*;
use crate::bytes::{
    pow256, spec_le_bytes, spec_int_of_le, lemma_le_bytes_len, lemma_le_round_trip,
    lemma_le_bytes_of_int, lemma_le_bytes_cancel, push_le32, push_le64, read_le32, read_le64,
};
use crate::errors::DataError;
use crate::features::{
    encode_game_tensors, spec_game_replays, spec_position_rows, F32_ZERO_BITS, F32_ONE_BITS,
};
use crate::game::Outcome;
use crate::recordcodec::{spec_parse_game, decode_game, push_bytes};

verus! {

/// The payload bytes a zstd frame decompresses to, named: the frame is a
/// function of the input bytes alone (one compressor, default level).
pub uninterp spec fn zstd_frame(data: Seq<u8>) -> Seq<u8>;

/// Relies on `zstd::stream::encode_all` at the default level: the frame
/// it emits is a function of the input bytes alone, and compressing a
/// slice into a fresh vector has no failure path short of allocation
/// failure, which this library treats as it treats any allocation.
#[verifier::external_body]
fn zstd_compress(data: &Vec<u8>) -> (r: Vec<u8>)
    ensures
        r@ == zstd_frame(data@),
{
    zstd::stream::encode_all(data.as_slice(), 0).expect("compressing to a vector cannot fail")
}

/// Relies on `zstd::stream::decode_all`: compression is lossless, so
/// decoding any frame the compressor produced gives back exactly the
/// bytes that were compressed.
#[verifier::external_body]
fn zstd_decompress(data: &Vec<u8>) -> (r: Result<Vec<u8>, DataError>)
    ensures
        r matches Ok(v) ==> forall|orig: Seq<u8>| data@ == zstd_frame(orig) ==> v@ == orig,
        r matches Err(e) ==> e == DataError::Format && (forall|orig: Seq<u8>|
            data@ != zstd_frame(orig)),
{
    match zstd::stream::decode_all(data.as_slice()) {
        Ok(v) => Ok(v),
        Err(_) => Err(DataError::Format),
    }
}

/// The 16-byte magic of a training-data file.
pub open spec fn spec_train_magic() -> Seq<u8> {
    seq![
        109u8, 121u8, 99u8, 104u8, 101u8, 115u8, 115u8, 116u8, 114u8, 97u8, 105u8, 110u8, 100u8,
        97u8, 116u8, 97u8,
    ]
}

/// The training-file magic as bytes.
fn train_magic() -> (r: Vec<u8>)
    ensures
        r@ == spec_train_magic(),
{
    let mut v: Vec<u8> = Vec::new();
    v.push(109);
    v.push(121);
    v.push(99);
    v.push(104);
    v.push(101);
    v.push(115);
    v.push(115);
    v.push(116);
    v.push(114);
    v.push(97);
    v.push(105);
    v.push(110);
    v.push(100);
    v.push(97);
    v.push(116);
    v.push(97);
    proof {
        assert(v@ =~= spec_train_magic());
    }
    v
}

/// A sequence of 32-bit values as little-endian bytes, in order.
pub open spec fn spec_u32s_bytes(vs: Seq<u32>) -> Seq<u8>
    decreases vs.len(),
{
    if vs.len() == 0 {
        Seq::empty()
    } else {
        spec_le_bytes(vs[0] as int, 4) + spec_u32s_bytes(vs.drop_first())
    }
}

pub proof fn lemma_u32s_bytes_len(vs: Seq<u32>)
    ensures
        spec_u32s_bytes(vs).len() == 4 * vs.len(),
    decreases vs.len(),
{
    if vs.len() > 0 {
        lemma_le_bytes_len(vs[0] as int, 4);
        lemma_u32s_bytes_len(vs.drop_first());
    }
}

/// Appending one value appends its four bytes.
pub proof fn lemma_u32s_bytes_push(vs: Seq<u32>, w: u32)
    ensures
        spec_u32s_bytes(vs.push(w)) == spec_u32s_bytes(vs) + spec_le_bytes(w as int, 4),
    decreases vs.len(),
{
    lemma_le_bytes_len(w as int, 4);
    let s = vs.push(w);
    assert(s[0] == if vs.len() == 0 {
        w
    } else {
        vs[0]
    });
    if vs.len() == 0 {
        assert(s.drop_first() =~= Seq::<u32>::empty());
        assert(spec_u32s_bytes(s) == spec_le_bytes(s[0] as int, 4) + spec_u32s_bytes(
            s.drop_first(),
        ));
        assert(spec_u32s_bytes(s) =~= spec_u32s_bytes(vs) + spec_le_bytes(w as int, 4));
    } else {
        assert(s.drop_first() =~= vs.drop_first().push(w));
        lemma_u32s_bytes_push(vs.drop_first(), w);
        assert(spec_u32s_bytes(s) == spec_le_bytes(vs[0] as int, 4) + (spec_u32s_bytes(
            vs.drop_first(),
        ) + spec_le_bytes(w as int, 4)));
        assert(spec_u32s_bytes(s) =~= spec_u32s_bytes(vs) + spec_le_bytes(w as int, 4));
    }
}

/// Equal bytes of equally many values force equal values.
pub proof fn lemma_u32s_bytes_cancel(v1: Seq<u32>, v2: Seq<u32>)
    requires
        v1.len() == v2.len(),
        spec_u32s_bytes(v1) == spec_u32s_bytes(v2),
    ensures
        v1 == v2,
    decreases v1.len(),
{
    if v1.len() > 0 {
        proof_pow256_4();
        lemma_le_bytes_cancel(
            v1[0] as int,
            v2[0] as int,
            4,
            spec_u32s_bytes(v1.drop_first()),
            spec_u32s_bytes(v2.drop_first()),
        );
        lemma_u32s_bytes_cancel(v1.drop_first(), v2.drop_first());
        assert(v1[0] == v2[0]);
        assert forall|i: int| 0 <= i < v1.len() implies v1[i] == v2[i] by {
            if i > 0 {
                assert(v1[i] == v1.drop_first()[i - 1]);
                assert(v2[i] == v2.drop_first()[i - 1]);
            }
        }
        assert(v1 =~= v2);
    } else {
        assert(v1 =~= v2);
    }
}

proof fn proof_pow256_4()
    ensures
        pow256(4) == 0x100000000,
        pow256(8) == 0x10000000000000000,
{
    reveal_with_fuel(pow256, 9);
}

/// `row` repeated `n` times, end to end.
pub open spec fn spec_repeat_row(row: Seq<u32>, n: int) -> Seq<u32>
    decreases n,
{
    if n <= 0 {
        Seq::empty()
    } else {
        spec_repeat_row(row, n - 1) + row
    }
}

/// A stack of rows, flattened in order.
pub open spec fn spec_concat_rows(rows: Seq<Seq<u32>>) -> Seq<u32>
    decreases rows.len(),
{
    if rows.len() == 0 {
        Seq::empty()
    } else {
        spec_concat_rows(rows.drop_last()) + rows.last()
    }
}

/// The mathematical shape of a training batch.
pub ghost struct TrainView {
    pub ins: Seq<u32>,
    pub outs: Seq<u32>,
    pub rows: int,
}

/// A batch is well-formed when it has 8x8x37 input cells and 3 output
/// cells per row.
pub open spec fn wf_train(t: TrainView) -> bool {
    &&& t.rows >= 0
    &&& t.ins.len() == t.rows * 2368
    &&& t.outs.len() == t.rows * 3
}

/// Whether a batch's serialized payload fits in one address space.
pub open spec fn spec_train_sized(t: TrainView) -> bool {
    t.rows * 9484 <= usize::MAX
}

/// The 64-byte header: magic, input shape `(rows, 8, 8, 37)`, output
/// shape `(rows, 3)`.
pub open spec fn spec_train_header(rows: int) -> Seq<u8> {
    spec_train_magic() + spec_le_bytes(rows, 8) + spec_le_bytes(8, 8) + spec_le_bytes(8, 8)
        + spec_le_bytes(37, 8) + spec_le_bytes(rows, 8) + spec_le_bytes(3, 8)
}

/// The uncompressed payload: input cells, then output cells.
pub open spec fn spec_train_payload(t: TrainView) -> Seq<u8> {
    spec_u32s_bytes(t.ins) + spec_u32s_bytes(t.outs)
}

/// A whole training-data file.
pub open spec fn spec_train_file_bytes(t: TrainView) -> Seq<u8> {
    spec_le_bytes(64, 8) + spec_train_header(t.rows) + zstd_frame(spec_train_payload(t))
}

/// A stacked training batch: `rows` encoded positions and as many one-hot
/// outcome rows, flattened.
#[derive(Debug, Clone, PartialEq, Eq)]
pub struct TrainData {
    ins: Vec<u32>,
    outs: Vec<u32>,
    rows: usize,
}

impl View for TrainData {
    type V = TrainView;

    closed spec fn view(&self) -> TrainView {
        TrainView { ins: self.ins@, outs: self.outs@, rows: self.rows as int }
    }
}

impl TrainData {
    /// An empty batch: no rows, shapes `(0, 8, 8, 37)` and `(0, 3)`.
    pub fn new_empty() -> (r: TrainData)
        ensures
            wf_train(r@),
            r@.rows == 0,
    {
        TrainData { ins: Vec::new(), outs: Vec::new(), rows: 0 }
    }

    /// Whether the batch has exactly one input row and one output row per
    /// counted row: callers can test this at the boundary before
    /// serializing.
    pub fn is_well_formed(&self) -> (r: bool)
        ensures
            r == wf_train(self@),
    {
        let ins_len: usize = self.ins.len();
        let outs_len: usize = self.outs.len();
        if self.rows > usize::MAX / 2368 {
            proof {
                assert(self@.rows * 2368 > usize::MAX) by (nonlinear_arith)
                    requires
                        self@.rows > usize::MAX / 2368,
                        usize::MAX >= 2368,
                        self@.rows >= 0;
            }
            return false;
        }
        proof {
            assert(self@.rows * 2368 <= usize::MAX && self@.rows * 3 <= usize::MAX)
                by (nonlinear_arith)
                requires
                    0 <= self@.rows <= usize::MAX / 2368,
                    usize::MAX >= 2368;
        }
        ins_len == self.rows * 2368 && outs_len == self.rows * 3
    }

    /// How many rows the batch holds.
    pub fn len(&self) -> (r: usize)
        ensures
            r == self@.rows,
    {
        self.rows
    }

    /// The flattened input cells, row-major.
    pub fn ins(&self) -> (r: &Vec<u32>)
        ensures
            r@ == self@.ins,
    {
        &self.ins
    }

    /// The flattened output cells, row-major.
    pub fn outs(&self) -> (r: &Vec<u32>)
        ensures
            r@ == self@.outs,
    {
        &self.outs
    }

    /// Appends one game's positions, each paired with the game's one-hot
    /// outcome row.
    pub fn append_game(&mut self, positions: &Vec<Vec<u32>>, outcome_row: &Vec<u32>)
        requires
            wf_train(old(self)@),
            forall|i: int| 0 <= i < positions@.len() ==> (#[trigger] positions@[i])@.len() == 2368,
            outcome_row@.len() == 3,
            old(self)@.rows + positions@.len() <= usize::MAX,
        ensures
            wf_train(final(self)@),
            final(self)@.rows == old(self)@.rows + positions@.len(),
            final(self)@.ins == old(self)@.ins + spec_concat_rows(positions.deep_view()),
            final(self)@.outs == old(self)@.outs + spec_repeat_row(
                outcome_row@,
                positions@.len() as int,
            ),
    {
        let ghost dv = positions.deep_view();
        let n: usize = positions.len();
        let mut i: usize = 0;
        while i < n
            invariant
                i <= n,
                n == positions@.len(),
                dv == positions.deep_view(),
                dv.len() == n,
                forall|j: int|
                    0 <= j < positions@.len() ==> (#[trigger] positions@[j])@.len() == 2368,
                outcome_row@.len() == 3,
                old(self)@.rows + n <= usize::MAX,
                self.rows == old(self)@.rows + i,
                self@.ins == old(self)@.ins + spec_concat_rows(dv.take(i as int)),
                self@.outs == old(self)@.outs + spec_repeat_row(outcome_row@, i as int),
                wf_train(self@),
            decreases n - i,
        {
            proof {
                assert(dv[i as int] == positions@[i as int]@);
                assert(dv.take(i as int + 1).drop_last() =~= dv.take(i as int));
                assert(dv.take(i as int + 1).last() == dv[i as int]);
            }
            push_u32s(&mut self.ins, &positions[i]);
            push_u32s(&mut self.outs, outcome_row);
            i = i + 1;
            self.rows = self.rows + 1;
        }
        proof {
            assert(dv.take(n as int) =~= dv);
        }
    }

    /// Serializes the batch: header, then the compressed payload. Fails,
    /// with `Format`, exactly when the payload cannot fit one address
    /// space.
    pub fn encode_bin(&self) -> (r: Result<Vec<u8>, DataError>)
        requires
            wf_train(self@),
        ensures
            match r {
                Ok(v) => {
                    &&& v@ == spec_train_file_bytes(self@)
                    &&& spec_train_sized(self@)
                },
                Err(e) => {
                    &&& e == DataError::Format
                    &&& !spec_train_sized(self@)
                },
            },
    {
        if self.rows > usize::MAX / 9484 {
            proof {
                assert(self@.rows * 9484 > usize::MAX) by (nonlinear_arith)
                    requires
                        self@.rows > usize::MAX / 9484,
                        usize::MAX >= 9484,
                        self@.rows >= 0;
            }
            return Err(DataError::Format);
        }
        proof {
            assert(self@.rows * 9484 <= usize::MAX) by (nonlinear_arith)
                requires
                    0 <= self@.rows <= usize::MAX / 9484,
                    usize::MAX >= 9484;
        }
        let mut payload: Vec<u8> = Vec::new();
        push_u32s_bytes(&mut payload, &self.ins);
        push_u32s_bytes(&mut payload, &self.outs);
        proof {
            assert(payload@ =~= spec_train_payload(self@));
        }
        let frame: Vec<u8> = zstd_compress(&payload);
        let mut out: Vec<u8> = Vec::new();
        push_le64(&mut out, 64);
        let magic: Vec<u8> = train_magic();
        push_bytes(&mut out, &magic);
        push_le64(&mut out, self.rows as u64);
        push_le64(&mut out, 8);
        push_le64(&mut out, 8);
        push_le64(&mut out, 37);
        push_le64(&mut out, self.rows as u64);
        push_le64(&mut out, 3);
        push_bytes(&mut out, &frame);
        proof {
            assert(out@ =~= spec_train_file_bytes(self@));
        }
        Ok(out)
    }

    /// Deserializes a training-data file. Whatever file the serializer
    /// produced decodes to the batch that produced it, bit for bit — the
    /// file round trip, stated over every well-formed batch.
    pub fn decode_bin(data: &Vec<u8>) -> (r: Result<TrainData, DataError>)
        ensures
            forall|t: TrainView|
                wf_train(t) && spec_train_sized(t) && data@ == spec_train_file_bytes(t) ==> (
                r matches Ok(out) && out@ == t),
            match r {
                Ok(out) => wf_train(out@),
                Err(e) => e == DataError::Format,
            },
            r matches Ok(out) ==> {
                &&& data@.len() >= 72
                &&& spec_int_of_le(data@.subrange(0, 8)) == 64
                &&& data@.subrange(8, 24) == spec_train_magic()
                &&& out@.rows == spec_int_of_le(data@.subrange(24, 32))
                &&& spec_int_of_le(data@.subrange(32, 40)) == 8
                &&& spec_int_of_le(data@.subrange(40, 48)) == 8
                &&& spec_int_of_le(data@.subrange(48, 56)) == 37
                &&& out@.rows == spec_int_of_le(data@.subrange(56, 64))
                &&& spec_int_of_le(data@.subrange(64, 72)) == 3
            },
    {
        let len: usize = data.len();
        if len < 72 {
            proof {
                assert forall|t: TrainView|
                    wf_train(t) && spec_train_sized(t) && data@ == spec_train_file_bytes(t)
                    implies false by {
                    lemma_train_file_shape(t);
                }
            }
            return Err(DataError::Format);
        }
        let hlen: u64 = read_le64(data, 0);
        if hlen != 64 {
            proof {
                assert forall|t: TrainView|
                    wf_train(t) && spec_train_sized(t) && data@ == spec_train_file_bytes(t)
                    implies false by {
                    lemma_train_file_shape(t);
                }
            }
            return Err(DataError::Format);
        }
        let magic: Vec<u8> = train_magic();
        let mut i: usize = 0;
        while i < 16
            invariant
                i <= 16,
                data@.len() >= 72,
                magic@ == spec_train_magic(),
                forall|j: int| 0 <= j < i ==> data@[8 + j] == spec_train_magic()[j],
            decreases 16 - i,
        {
            if data[8 + i] != magic[i] {
                proof {
                    assert forall|t: TrainView|
                        wf_train(t) && spec_train_sized(t) && data@ == spec_train_file_bytes(t)
                        implies false by {
                        lemma_train_file_shape(t);
                        assert(data@.subrange(8, 24) =~= spec_train_magic());
                    }
                }
                return Err(DataError::Format);
            }
            i = i + 1;
        }
        let rows64: u64 = read_le64(data, 24);
        let d1: u64 = read_le64(data, 32);
        let d2: u64 = read_le64(data, 40);
        let d3: u64 = read_le64(data, 48);
        let orows: u64 = read_le64(data, 56);
        let ocols: u64 = read_le64(data, 64);
        if d1 != 8 || d2 != 8 || d3 != 37 || orows != rows64 || ocols != 3 {
            proof {
                assert forall|t: TrainView|
                    wf_train(t) && spec_train_sized(t) && data@ == spec_train_file_bytes(t)
                    implies false by {
                    lemma_train_file_shape(t);
                }
            }
            return Err(DataError::Format);
        }
        if rows64 > (usize::MAX / 9484) as u64 {
            proof {
                assert forall|t: TrainView|
                    wf_train(t) && spec_train_sized(t) && data@ == spec_train_file_bytes(t)
                    implies false by {
                    lemma_train_file_shape(t);
                    assert(t.rows <= usize::MAX / 9484) by (nonlinear_arith)
                        requires
                            t.rows * 9484 <= usize::MAX,
                            t.rows >= 0,
                            usize::MAX >= 9484;
                }
            }
            return Err(DataError::Format);
        }
        let rows: usize = rows64 as usize;
        let mut comp: Vec<u8> = Vec::new();
        let mut i: usize = 72;
        while i < len
            invariant
                72 <= i <= len,
                len == data@.len(),
                comp@ == data@.subrange(72, i as int),
            decreases len - i,
        {
            comp.push(data[i]);
            proof {
                assert(data@.subrange(72, i as int).push(data@[i as int]) =~= data@.subrange(
                    72,
                    i as int + 1,
                ));
            }
            i = i + 1;
        }
        proof {
            assert(comp@ =~= data@.skip(72));
        }
        let payload: Vec<u8> = match zstd_decompress(&comp) {
            Ok(v) => v,
            Err(e) => {
                proof {
                    assert forall|t: TrainView|
                        wf_train(t) && spec_train_sized(t) && data@ == spec_train_file_bytes(t)
                        implies false by {
                        lemma_train_file_shape(t);
                    }
                }
                return Err(DataError::Format);
            },
        };
        let expected: usize = rows * 9484;
        proof {
            assert(rows * 9484 <= usize::MAX) by (nonlinear_arith)
                requires
                    0 <= rows <= usize::MAX / 9484,
                    usize::MAX >= 9484;
        }
        if payload.len() != expected {
            proof {
                assert forall|t: TrainView|
                    wf_train(t) && spec_train_sized(t) && data@ == spec_train_file_bytes(t)
                    implies false by {
                    lemma_train_file_shape(t);
                    lemma_u32s_bytes_len(t.ins);
                    lemma_u32s_bytes_len(t.outs);
                }
            }
            return Err(DataError::Format);
        }
        let k1: usize = rows * 2368;
        let k2: usize = rows * 3;
        proof {
            assert(rows * 2368 + rows * 3 <= rows * 9484 && 4 * (rows * 2368) + 4 * (rows * 3)
                == rows * 9484) by (nonlinear_arith)
                requires
                    rows >= 0;
        }
        let mut pos: usize = 0;
        let ins: Vec<u32> = read_u32s(&payload, &mut pos, k1);
        let outs: Vec<u32> = read_u32s(&payload, &mut pos, k2);
        let out = TrainData { ins, outs, rows };
        proof {
            assert forall|t: TrainView|
                wf_train(t) && spec_train_sized(t) && data@ == spec_train_file_bytes(t)
                implies out@ == t by {
                lemma_train_file_shape(t);
                lemma_u32s_bytes_len(t.ins);
                lemma_u32s_bytes_len(t.outs);
                assert(t.rows == rows);
                assert(payload@ == spec_train_payload(t));
                assert(payload@.subrange(0, 4 * k1 as int) =~= spec_u32s_bytes(t.ins));
                assert(payload@.subrange(4 * k1 as int, 4 * k1 as int + 4 * k2 as int)
                    =~= spec_u32s_bytes(t.outs));
                lemma_u32s_bytes_cancel(out@.ins, t.ins);
                lemma_u32s_bytes_cancel(out@.outs, t.outs);
            }
            assert(data@.subrange(8, 24) =~= spec_train_magic());
        }
        Ok(out)
    }
}

/// What every serialized training file looks like, field by field:
/// used to read values back out of an encoding at fixed offsets.
proof fn lemma_train_file_shape(t: TrainView)
    requires
        wf_train(t),
        spec_train_sized(t),
    ensures
        spec_train_file_bytes(t).len() >= 72,
        spec_train_file_bytes(t).subrange(0, 8) == spec_le_bytes(64, 8),
        spec_train_file_bytes(t).subrange(8, 24) == spec_train_magic(),
        spec_train_file_bytes(t).subrange(24, 32) == spec_le_bytes(t.rows, 8),
        spec_train_file_bytes(t).subrange(32, 40) == spec_le_bytes(8, 8),
        spec_train_file_bytes(t).subrange(40, 48) == spec_le_bytes(8, 8),
        spec_train_file_bytes(t).subrange(48, 56) == spec_le_bytes(37, 8),
        spec_train_file_bytes(t).subrange(56, 64) == spec_le_bytes(t.rows, 8),
        spec_train_file_bytes(t).subrange(64, 72) == spec_le_bytes(3, 8),
        spec_train_file_bytes(t).skip(72) == zstd_frame(spec_train_payload(t)),
        spec_int_of_le(spec_le_bytes(t.rows, 8)) == t.rows,
        spec_int_of_le(spec_le_bytes(64, 8)) == 64,
        spec_int_of_le(spec_le_bytes(8, 8)) == 8,
        spec_int_of_le(spec_le_bytes(37, 8)) == 37,
        spec_int_of_le(spec_le_bytes(3, 8)) == 3,
        t.rows < pow256(8),
{
    proof_pow256_4();
    lemma_le_bytes_len(64, 8);
    lemma_le_bytes_len(t.rows, 8);
    lemma_le_bytes_len(8, 8);
    lemma_le_bytes_len(37, 8);
    lemma_le_bytes_len(3, 8);
    assert(t.rows < 0x10000000000000000) by (nonlinear_arith)
        requires
            t.rows >= 0,
            t.rows * 9484 <= usize::MAX,
            usize::MAX < 0x10000000000000000;
    let b = spec_train_file_bytes(t);
    assert(b.subrange(0, 8) =~= spec_le_bytes(64, 8));
    assert(b.subrange(8, 24) =~= spec_train_magic());
    assert(b.subrange(24, 32) =~= spec_le_bytes(t.rows, 8));
    assert(b.subrange(32, 40) =~= spec_le_bytes(8, 8));
    assert(b.subrange(40, 48) =~= spec_le_bytes(8, 8));
    assert(b.subrange(48, 56) =~= spec_le_bytes(37, 8));
    assert(b.subrange(56, 64) =~= spec_le_bytes(t.rows, 8));
    assert(b.subrange(64, 72) =~= spec_le_bytes(3, 8));
    assert(b.skip(72) =~= zstd_frame(spec_train_payload(t)));
    lemma_le_round_trip(64, 8);
    lemma_le_round_trip(t.rows, 8);
    lemma_le_round_trip(8, 8);
    lemma_le_round_trip(37, 8);
    lemma_le_round_trip(3, 8);
}

/// Appends each value of `src` to `buf`.
fn push_u32s(buf: &mut Vec<u32>, src: &Vec<u32>)
    ensures
        final(buf)@ == old(buf)@ + src@,
{
    let n: usize = src.len();
    let mut i: usize = 0;
    while i < n
        invariant
            i <= n,
            n == src@.len(),
            buf@ == old(buf)@ + src@.take(i as int),
        decreases n - i,
    {
        buf.push(src[i]);
        proof {
            assert(old(buf)@ + src@.take(i as int) + seq![src@[i as int]] =~= old(buf)@
                + src@.take(i as int + 1));
        }
        i = i + 1;
    }
    proof {
        assert(src@.take(n as int) =~= src@);
    }
}

/// Appends the little-endian bytes of each value of `src` to `buf`.
fn push_u32s_bytes(buf: &mut Vec<u8>, src: &Vec<u32>)
    ensures
        final(buf)@ == old(buf)@ + spec_u32s_bytes(src@),
{
    let n: usize = src.len();
    let mut i: usize = 0;
    while i < n
        invariant
            i <= n,
            n == src@.len(),
            buf@ == old(buf)@ + spec_u32s_bytes(src@.take(i as int)),
        decreases n - i,
    {
        push_le32(buf, src[i]);
        proof {
            lemma_u32s_bytes_push(src@.take(i as int), src@[i as int]);
            assert(src@.take(i as int).push(src@[i as int]) =~= src@.take(i as int + 1));
        }
        i = i + 1;
    }
    proof {
        assert(src@.take(n as int) =~= src@);
    }
}

/// The fixed-order one-hot outcome row: win for White, draw, win for
/// Black.
pub open spec fn spec_outcome_onehot(o: Outcome) -> Seq<u32> {
    match o {
        Outcome::WhiteWin => seq![F32_ONE_BITS, F32_ZERO_BITS, F32_ZERO_BITS],
        Outcome::Draw => seq![F32_ZERO_BITS, F32_ONE_BITS, F32_ZERO_BITS],
        Outcome::BlackWin => seq![F32_ZERO_BITS, F32_ZERO_BITS, F32_ONE_BITS],
    }
}

/// Encodes an outcome as its one-hot row of `f32` bit patterns.
pub fn encode_outcome(outcome: Outcome) -> (r: Vec<u32>)
    ensures
        r@ == spec_outcome_onehot(outcome),
{
    let mut v: Vec<u32> = Vec::new();
    match outcome {
        Outcome::WhiteWin => {
            v.push(F32_ONE_BITS);
            v.push(F32_ZERO_BITS);
            v.push(F32_ZERO_BITS);
        },
        Outcome::Draw => {
            v.push(F32_ZERO_BITS);
            v.push(F32_ONE_BITS);
            v.push(F32_ZERO_BITS);
        },
        Outcome::BlackWin => {
            v.push(F32_ZERO_BITS);
            v.push(F32_ZERO_BITS);
            v.push(F32_ONE_BITS);
        },
    }
    proof {
        assert(v@ =~= spec_outcome_onehot(outcome));
    }
    v
}

/// Decodes one serialized game record and replays it: the encoded
/// position of every ply, plus the game's one-hot outcome row, exactly
/// when the record parses and its moves replay legally. `Format` exactly
/// when the record does not parse; `Inconsistency` exactly when the rules
/// engine rejects a decoded move.
pub fn encode_game_positions(game: Vec<u8>) -> (r: Result<(Vec<Vec<u32>>, Vec<u32>), DataError>)
    ensures
        match spec_parse_game(game@) {
            None => r matches Err(e) && e == DataError::Format,
            Some(g) => match r {
                Ok(t) => {
                    &&& spec_game_replays(g.moves)
                    &&& t.0.deep_view() == spec_position_rows(g.moves)
                    &&& t.0@.len() == g.moves.len()
                    &&& forall|i: int| 0 <= i < t.0@.len() ==> (#[trigger] t.0@[i])@.len() == 2368
                    &&& t.1@ == spec_outcome_onehot(g.outcome)
                },
                Err(e) => {
                    &&& e == DataError::Inconsistency
                    &&& !spec_game_replays(g.moves)
                },
            },
        },
{
    let g: crate::game::Game = match decode_game(&game) {
        Ok(g) => g,
        Err(e) => {
            return Err(e);
        },
    };
    let positions: Vec<Vec<u32>> = match encode_game_tensors(&g.moves) {
        Some(ps) => ps,
        None => {
            return Err(DataError::Inconsistency);
        },
    };
    let outcome_row: Vec<u32> = encode_outcome(g.outcome);
    Ok((positions, outcome_row))
}

/// How many plies one serialized game contributes: its move count when it
/// parses, nothing otherwise.
pub open spec fn spec_plies(b: Seq<u8>) -> int {
    match spec_parse_game(b) {
        Some(g) => g.moves.len() as int,
        None => 0,
    }
}

/// The total plies of a sequence of serialized games.
pub open spec fn spec_total_plies(gs: Seq<Seq<u8>>) -> int
    decreases gs.len(),
{
    if gs.len() == 0 {
        0
    } else {
        spec_total_plies(gs.drop_last()) + spec_plies(gs.last())
    }
}

/// The position rows a serialized game contributes: one tensor per ply
/// when it parses, nothing otherwise.
pub open spec fn spec_game_rows(b: Seq<u8>) -> Seq<Seq<u32>> {
    match spec_parse_game(b) {
        Some(g) => spec_position_rows(g.moves),
        None => Seq::empty(),
    }
}

/// The stacked input cells of a sequence of serialized games: each game's
/// position rows flattened, in the order the games are given.
pub open spec fn spec_ins_of(gs: Seq<Seq<u8>>) -> Seq<u32>
    decreases gs.len(),
{
    if gs.len() == 0 {
        Seq::empty()
    } else {
        spec_ins_of(gs.drop_last()) + spec_concat_rows(spec_game_rows(gs.last()))
    }
}

/// Whether every serialized game of a sequence that parses also replays
/// legally from the start.
pub open spec fn spec_all_replay(gs: Seq<Seq<u8>>) -> bool {
    forall|i: int|
        0 <= i < gs.len() ==> match spec_parse_game(#[trigger] gs[i]) {
            Some(g) => spec_game_replays(g.moves),
            None => true,
        }
}

/// The outcome row a serialized game contributes per ply: its one-hot
/// outcome when it parses, nothing otherwise.
pub open spec fn spec_game_outcome_row(b: Seq<u8>) -> Seq<u32> {
    match spec_parse_game(b) {
        Some(g) => spec_outcome_onehot(g.outcome),
        None => Seq::empty(),
    }
}

/// The stacked outcome rows of a sequence of serialized games: each
/// game's one-hot row, repeated once per ply, in the order the games are
/// given.
pub open spec fn spec_outs_of(gs: Seq<Seq<u8>>) -> Seq<u32>
    decreases gs.len(),
{
    if gs.len() == 0 {
        Seq::empty()
    } else {
        spec_outs_of(gs.drop_last()) + spec_repeat_row(
            spec_game_outcome_row(gs.last()),
            spec_plies(gs.last()),
        )
    }
}

/// Whether every serialized game of a sequence parses.
pub open spec fn spec_all_parse(gs: Seq<Seq<u8>>) -> bool {
    forall|i: int| 0 <= i < gs.len() ==> spec_parse_game(#[trigger] gs[i]) is Some
}

/// A prefix contributes at most the whole.
pub proof fn lemma_total_plies_take_le(gs: Seq<Seq<u8>>, i: int)
    requires
        0 <= i <= gs.len(),
    ensures
        spec_total_plies(gs.take(i)) <= spec_total_plies(gs),
    decreases gs.len(),
{
    if i == gs.len() {
        assert(gs.take(i) =~= gs);
    } else {
        assert(gs.drop_last().take(i) =~= gs.take(i));
        lemma_total_plies_take_le(gs.drop_last(), i);
        assert(spec_plies(gs.last()) >= 0);
    }
}

impl TrainData {
    /// Builds one batch from an ordered collection of serialized game
    /// records: decodes each, replays it, and stacks one position row per
    /// ply with the game's outcome row — rows in the order the games are
    /// given. An empty collection gives the empty batch. Succeeds exactly
    /// when every record parses, every game replays legally and the batch
    /// fits the address space: `Format` when a record does not parse or
    /// the batch outgrows the address space; `Inconsistency` when the
    /// engine rejects a decoded move.
    pub fn from_games(games: Vec<Vec<u8>>) -> (r: Result<TrainData, DataError>)
        ensures
            (spec_all_parse(games.deep_view()) && spec_all_replay(games.deep_view())
                && spec_total_plies(games.deep_view()) <= usize::MAX) ==> r is Ok,
            match r {
                Ok(td) => {
                    &&& wf_train(td@)
                    &&& spec_all_parse(games.deep_view())
                    &&& spec_all_replay(games.deep_view())
                    &&& td@.rows == spec_total_plies(games.deep_view())
                    &&& td@.ins == spec_ins_of(games.deep_view())
                    &&& td@.outs == spec_outs_of(games.deep_view())
                },
                Err(e) => {
                    &&& e == DataError::Format || e == DataError::Inconsistency
                    &&& e == DataError::Format ==> (!spec_all_parse(games.deep_view())
                        || spec_total_plies(games.deep_view()) > usize::MAX)
                    &&& e == DataError::Inconsistency ==> !spec_all_replay(games.deep_view())
                },
            },
    {
        let ghost dv = games.deep_view();
        let mut td: TrainData = TrainData::new_empty();
        let n: usize = games.len();
        let mut i: usize = 0;
        while i < n
            invariant
                i <= n,
                n == games@.len(),
                dv == games.deep_view(),
                dv.len() == n,
                wf_train(td@),
                td@.rows == spec_total_plies(dv.take(i as int)),
                td@.ins == spec_ins_of(dv.take(i as int)),
                td@.outs == spec_outs_of(dv.take(i as int)),
                forall|j: int| 0 <= j < i ==> spec_parse_game(#[trigger] dv[j]) is Some,
                forall|j: int|
                    0 <= j < i ==> match spec_parse_game(#[trigger] dv[j]) {
                        Some(g) => spec_game_replays(g.moves),
                        None => true,
                    },
            decreases n - i,
        {
            proof {
                assert(dv[i as int] == games@[i as int]@);
            }
            let game: Vec<u8> = games[i].clone();
            let (positions, outcome_row): (Vec<Vec<u32>>, Vec<u32>) = match encode_game_positions(
                game,
            ) {
                Ok(t) => t,
                Err(e) => {
                    proof {
                        if e == DataError::Format {
                            assert(spec_parse_game(dv[i as int]) is None);
                            assert(!spec_all_parse(dv));
                        } else {
                            assert(!spec_all_replay(dv));
                        }
                    }
                    return Err(e);
                },
            };
            if positions.len() > usize::MAX - td.rows {
                proof {
                    assert(dv.take(i as int + 1).drop_last() =~= dv.take(i as int));
                    assert(dv.take(i as int + 1).last() == dv[i as int]);
                    assert(spec_total_plies(dv.take(i as int + 1)) > usize::MAX);
                    lemma_total_plies_take_le(dv, i as int + 1);
                }
                return Err(DataError::Format);
            }
            td.append_game(&positions, &outcome_row);
            proof {
                assert(dv.take(i as int + 1).drop_last() =~= dv.take(i as int));
                assert(dv.take(i as int + 1).last() == dv[i as int]);
            }
            i = i + 1;
        }
        proof {
            assert(dv.take(n as int) =~= dv);
        }
        Ok(td)
    }
}

/// Reads `k` little-endian 32-bit values at the cursor, advancing it.
fn read_u32s(p: &Vec<u8>, pos: &mut usize, k: usize) -> (r: Vec<u32>)
    requires
        *old(pos) + 4 * k <= p@.len(),
    ensures
        r@.len() == k,
        spec_u32s_bytes(r@) == p@.subrange(*old(pos) as int, *old(pos) as int + 4 * k as int),
        *final(pos) == *old(pos) + 4 * k,
{
    let mut r: Vec<u32> = Vec::new();
    let plen: usize = p.len();
    let start: usize = *pos;
    let mut i: usize = 0;
    while i < k
        invariant
            i <= k,
            start + 4 * k <= plen,
            plen == p@.len(),
            *pos == start + 4 * i,
            r@.len() == i,
            spec_u32s_bytes(r@) == p@.subrange(start as int, start as int + 4 * i as int),
        decreases k - i,
    {
        let w: u32 = read_le32(p, *pos);
        proof {
            lemma_le_bytes_of_int(p@.subrange(*pos as int, *pos as int + 4));
            lemma_u32s_bytes_push(r@, w);
            assert(p@.subrange(start as int, start as int + 4 * i as int) + p@.subrange(
                *pos as int,
                *pos as int + 4,
            ) =~= p@.subrange(start as int, start as int + 4 * i as int + 4));
        }
        r.push(w);
        *pos = *pos + 4;
        i = i + 1;
    }
    r
}

} // verus!
