//! Decimal text: reading `i32` values out of ASCII bytes and rendering
//! them back, with the round trip proved.

use vstd::prelude::*;
use crate::errors::DataError;

verus! {

/// Whether `c` is an ASCII digit.
pub open spec fn is_digit(c: u8) -> bool {
    48 <= c <= 57
}

/// Whether `s` is one or more ASCII digits.
pub open spec fn spec_all_digits(s: Seq<u8>) -> bool {
    forall|i: int| 0 <= i < s.len() ==> is_digit(#[trigger] s[i])
}

/// The value of a digit string.
pub open spec fn spec_digits_value(s: Seq<u8>) -> int
    decreases s.len(),
{
    if s.len() == 0 {
        0
    } else {
        spec_digits_value(s.drop_last()) * 10 + (s.last() - 48)
    }
}

/// The `i32` a decimal text stands for: an optional sign, then one or
/// more digits, within the type's range.
pub open spec fn spec_parse_i32(s: Seq<u8>) -> Option<int> {
    if s.len() == 0 {
        None
    } else {
        let neg = s[0] == 45;
        let body = if s[0] == 45 || s[0] == 43 {
            s.drop_first()
        } else {
            s
        };
        if body.len() > 0 && spec_all_digits(body) {
            let v = spec_digits_value(body);
            let signed = if neg {
                -v
            } else {
                v
            };
            if -0x80000000 <= signed < 0x80000000 {
                Some(signed)
            } else {
                None
            }
        } else {
            None
        }
    }
}

/// The digits of a non-negative value, most significant first.
pub open spec fn spec_dec_nat(n: int) -> Seq<u8>
    decreases n,
{
    if n < 10 {
        seq![(48 + if n >= 0 {
            n
        } else {
            0
        }) as u8]
    } else {
        spec_dec_nat(n / 10).push((48 + n % 10) as u8)
    }
}

/// The decimal text of a signed value.
pub open spec fn spec_i32_text(v: int) -> Seq<u8> {
    if v < 0 {
        seq![45u8] + spec_dec_nat(-v)
    } else {
        spec_dec_nat(v)
    }
}

pub proof fn lemma_dec_nat_digits(n: int)
    requires
        n >= 0,
    ensures
        spec_dec_nat(n).len() > 0,
        spec_all_digits(spec_dec_nat(n)),
        spec_digits_value(spec_dec_nat(n)) == n,
    decreases n,
{
    if n < 10 {
        let s = spec_dec_nat(n);
        assert(s.len() == 1);
        assert(s.last() == (48 + n) as u8);
        assert(s.drop_last() =~= Seq::<u8>::empty());
        assert(spec_digits_value(s.drop_last()) == 0);
        assert(spec_digits_value(s) == spec_digits_value(s.drop_last()) * 10 + (s.last() - 48));
    } else {
        lemma_dec_nat_digits(n / 10);
        let s = spec_dec_nat(n);
        assert(s.drop_last() =~= spec_dec_nat(n / 10));
        assert(s.last() == (48 + n % 10) as u8);
        assert(spec_digits_value(s) == (n / 10) * 10 + n % 10);
        assert((n / 10) * 10 + n % 10 == n) by (nonlinear_arith)
            requires
                n >= 0;
    }
}

/// Decimal round trip: the text of any `i32` reads back as that value.
pub proof fn lemma_dec_round_trip(v: int)
    requires
        -0x80000000 <= v < 0x80000000,
    ensures
        spec_parse_i32(spec_i32_text(v)) == Some(v),
{
    if v < 0 {
        lemma_dec_nat_digits(-v);
        let s = spec_i32_text(v);
        assert(s[0] == 45);
        assert(s.drop_first() =~= spec_dec_nat(-v));
    } else {
        lemma_dec_nat_digits(v);
        let s = spec_i32_text(v);
        assert(is_digit(s[0]));
        assert(s[0] != 45 && s[0] != 43);
    }
}

/// Reads an `i32` out of decimal text: an optional `+` or `-` sign, then
/// one or more digits, within range; anything else is refused.
pub fn parse_i32(s: &Vec<u8>) -> (r: Result<i32, DataError>)
    ensures
        match r {
            Ok(v) => spec_parse_i32(s@) == Some(v as int),
            Err(e) => {
                &&& spec_parse_i32(s@) is None
                &&& e == DataError::Validation
            },
        },
{
    let n: usize = s.len();
    if n == 0 {
        return Err(DataError::Validation);
    }
    let neg: bool = s[0] == 45;
    let start: usize = if s[0] == 45 || s[0] == 43 {
        1
    } else {
        0
    };
    let ghost body = s@.skip(start as int);
    proof {
        assert(s@.skip(1) =~= s@.drop_first());
        assert(s@.skip(0) =~= s@);
    }
    if n == start {
        proof {
            assert(body.len() == 0);
        }
        return Err(DataError::Validation);
    }
    let mut acc: u64 = 0;
    let mut oversized: bool = false;
    let mut i: usize = start;
    while i < n
        invariant
            start <= i <= n,
            n == s@.len(),
            n > 0,
            start < n,
            start == 1 <==> (s@[0] == 45 || s@[0] == 43),
            neg == (s@[0] == 45),
            body == s@.skip(start as int),
            spec_all_digits(body.take(i - start as int)),
            !oversized ==> acc <= 0x80000000 && acc == spec_digits_value(
                body.take(i - start as int),
            ),
            oversized ==> spec_digits_value(body.take(i - start as int)) > 0x80000000,
        decreases n - i,
    {
        let c: u8 = s[i];
        if c < 48 || c > 57 {
            proof {
                assert(body[i - start as int] == c);
                assert(!spec_all_digits(body));
            }
            return Err(DataError::Validation);
        }
        let d: u64 = (c - 48) as u64;
        let ghost pre = body.take(i - start as int);
        let ghost post = body.take(i + 1 - start as int);
        proof {
            assert(post.drop_last() =~= pre);
            assert(post.last() == c);
            assert(spec_digits_value(post) == spec_digits_value(pre) * 10 + d);
        }
        if oversized {
            proof {
                assert(spec_digits_value(pre) * 10 + d > 0x80000000) by (nonlinear_arith)
                    requires
                        spec_digits_value(pre) > 0x80000000,
                        d >= 0;
            }
        } else {
            acc = acc * 10 + d;
            if acc > 0x80000000 {
                oversized = true;
            }
        }
        i = i + 1;
    }
    proof {
        assert(body.take(n - start as int) =~= body);
    }
    if oversized {
        return Err(DataError::Validation);
    }
    if neg {
        let v: i64 = -(acc as i64);
        Ok(v as i32)
    } else {
        if acc == 0x80000000 {
            return Err(DataError::Validation);
        }
        Ok(acc as i32)
    }
}

/// Appends the digits of `n`, most significant first.
pub fn push_dec_u64(buf: &mut Vec<u8>, n: u64)
    ensures
        final(buf)@ == old(buf)@ + spec_dec_nat(n as int),
    decreases n,
{
    if n < 10 {
        buf.push(48 + n as u8);
        proof {
            assert(buf@ =~= old(buf)@ + spec_dec_nat(n as int));
        }
    } else {
        push_dec_u64(buf, n / 10);
        buf.push(48 + (n % 10) as u8);
        proof {
            assert(buf@ =~= old(buf)@ + spec_dec_nat(n as int));
        }
    }
}

/// Appends the decimal text of `v`.
pub fn push_dec_i32(buf: &mut Vec<u8>, v: i32)
    ensures
        final(buf)@ == old(buf)@ + spec_i32_text(v as int),
{
    if v < 0 {
        buf.push(45);
        let m: u64 = (-(v as i64)) as u64;
        push_dec_u64(buf, m);
        proof {
            assert(buf@ =~= old(buf)@ + spec_i32_text(v as int));
        }
    } else {
        push_dec_u64(buf, v as u64);
    }
}

/// The index of the first `+` in `s`, if any.
pub open spec fn spec_first_plus(s: Seq<u8>) -> Option<int>
    decreases s.len(),
{
    if s.len() == 0 {
        None
    } else if s[0] == 43 {
        Some(0)
    } else {
        match spec_first_plus(s.drop_first()) {
            Some(i) => Some(i + 1),
            None => None,
        }
    }
}

/// A `+` at `i` with none before it is the first.
pub proof fn lemma_first_plus_at(s: Seq<u8>, i: int)
    requires
        0 <= i < s.len(),
        s[i] == 43,
        forall|j: int| 0 <= j < i ==> s[j] != 43,
    ensures
        spec_first_plus(s) == Some(i),
    decreases i,
{
    if i > 0 {
        lemma_first_plus_at(s.drop_first(), i - 1);
    }
}

/// No `+` anywhere means no first one.
pub proof fn lemma_first_plus_none(s: Seq<u8>)
    requires
        forall|j: int| 0 <= j < s.len() ==> s[j] != 43,
    ensures
        spec_first_plus(s) is None,
    decreases s.len(),
{
    if s.len() > 0 {
        lemma_first_plus_none(s.drop_first());
    }
}

/// The index of the first `+` at or after `from`, if any.
pub fn find_plus(s: &Vec<u8>, from: usize) -> (r: Option<usize>)
    requires
        from <= s@.len(),
    ensures
        match r {
            Some(i) => from <= i < s@.len() && spec_first_plus(s@.skip(from as int)) == Some(
                i - from,
            ),
            None => spec_first_plus(s@.skip(from as int)) is None,
        },
{
    let n: usize = s.len();
    let mut i: usize = from;
    while i < n
        invariant
            from <= i <= n,
            n == s@.len(),
            forall|j: int| from <= j < i ==> s@[j] != 43,
        decreases n - i,
    {
        if s[i] == 43 {
            proof {
                let body = s@.skip(from as int);
                assert(body[i - from as int] == 43);
                assert(forall|j: int| 0 <= j < i - from as int ==> body[j] != 43);
                lemma_first_plus_at(body, i - from as int);
            }
            return Some(i);
        }
        i = i + 1;
    }
    proof {
        let body = s@.skip(from as int);
        assert(forall|j: int| 0 <= j < body.len() ==> body[j] != 43);
        lemma_first_plus_none(body);
    }
    None
}

/// The seconds and increment a PGN TimeControl text stands for: the part
/// before the first `+` and the part between the first and second `+` (or
/// the end), each read as an `i32`; a text with no `+` has increment 0.
pub open spec fn spec_parse_timectl(s: Seq<u8>) -> Option<(int, int)> {
    let sec_part = match spec_first_plus(s) {
        Some(i) => s.take(i),
        None => s,
    };
    let inc_part = match spec_first_plus(s) {
        Some(i) => {
            let after = s.skip(i + 1);
            match spec_first_plus(after) {
                Some(j) => after.take(j),
                None => after,
            }
        },
        None => seq![48u8],
    };
    match spec_parse_i32(sec_part) {
        Some(sec) => match spec_parse_i32(inc_part) {
            Some(inc) => Some((sec, inc)),
            None => None,
        },
        None => None,
    }
}

/// Copies `s[from..to]` out as a fresh vector.
fn slice_vec(s: &Vec<u8>, from: usize, to: usize) -> (r: Vec<u8>)
    requires
        from <= to <= s@.len(),
    ensures
        r@ == s@.subrange(from as int, to as int),
{
    let mut r: Vec<u8> = Vec::new();
    let mut i: usize = from;
    while i < to
        invariant
            from <= i <= to <= s@.len(),
            r@ == s@.subrange(from as int, i as int),
        decreases to - i,
    {
        r.push(s[i]);
        proof {
            assert(s@.subrange(from as int, i as int).push(s@[i as int]) =~= s@.subrange(
                from as int,
                i as int + 1,
            ));
        }
        i = i + 1;
    }
    r
}

/// Reads a TimeControl text as its seconds and increment.
pub fn parse_timectl(s: &Vec<u8>) -> (r: Result<(i32, i32), DataError>)
    ensures
        match r {
            Ok(t) => spec_parse_timectl(s@) == Some((t.0 as int, t.1 as int)),
            Err(e) => {
                &&& spec_parse_timectl(s@) is None
                &&& e == DataError::Validation
            },
        },
{
    let n: usize = s.len();
    let (sec_part, inc_part): (Vec<u8>, Vec<u8>) = match find_plus(s, 0) {
        Some(i) => {
            let after_end: usize = match find_plus(s, i + 1) {
                Some(j) => j,
                None => n,
            };
            proof {
                assert(s@.skip(0) =~= s@);
                assert(s@.take(i as int) =~= s@.subrange(0, i as int));
                assert(s@.skip(i as int + 1).take(after_end - i - 1 as int) =~= s@.subrange(
                    i as int + 1,
                    after_end as int,
                ));
                assert(s@.skip(i as int + 1) =~= s@.subrange(i as int + 1, n as int));
            }
            (slice_vec(s, 0, i), slice_vec(s, i + 1, after_end))
        },
        None => {
            proof {
                assert(s@.skip(0) =~= s@);
                assert(s@.subrange(0, n as int) =~= s@);
            }
            let mut zero: Vec<u8> = Vec::new();
            zero.push(48);
            proof {
                assert(zero@ =~= seq![48u8]);
            }
            (slice_vec(s, 0, n), zero)
        },
    };
    let sec: i32 = match parse_i32(&sec_part) {
        Ok(v) => v,
        Err(e) => {
            return Err(e);
        },
    };
    let inc: i32 = match parse_i32(&inc_part) {
        Ok(v) => v,
        Err(e) => {
            return Err(e);
        },
    };
    Ok((sec, inc))
}

/// No digit and no minus sign is a plus sign.
pub proof fn lemma_text_has_no_plus(v: int)
    ensures
        forall|j: int| 0 <= j < spec_i32_text(v).len() ==> spec_i32_text(v)[j] != 43,
{
    if v < 0 {
        lemma_dec_nat_no_plus(-v);
        assert(forall|j: int|
            1 <= j < spec_i32_text(v).len() ==> spec_i32_text(v)[j] == spec_dec_nat(-v)[j - 1]);
    } else {
        lemma_dec_nat_no_plus(v);
    }
}

proof fn lemma_dec_nat_no_plus(n: int)
    requires
        n >= 0,
    ensures
        forall|j: int| 0 <= j < spec_dec_nat(n).len() ==> spec_dec_nat(n)[j] != 43,
{
    lemma_dec_nat_digits(n);
    assert(forall|j: int| 0 <= j < spec_dec_nat(n).len() ==> is_digit(#[trigger] spec_dec_nat(n)[j]));
}

/// TimeControl round trip: rendering seconds and increment as
/// `sec+inc` and reading the text back gives the same pair.
pub proof fn lemma_timectl_round_trip(sec: int, inc: int)
    requires
        -0x80000000 <= sec < 0x80000000,
        -0x80000000 <= inc < 0x80000000,
    ensures
        spec_parse_timectl(spec_i32_text(sec) + seq![43u8] + spec_i32_text(inc)) == Some(
            (sec, inc),
        ),
{
    let st = spec_i32_text(sec);
    let it = spec_i32_text(inc);
    let s = st + seq![43u8] + it;
    lemma_text_has_no_plus(sec);
    lemma_text_has_no_plus(inc);
    assert(s[st.len() as int] == 43);
    assert(forall|j: int| 0 <= j < st.len() ==> s[j] == st[j] && s[j] != 43);
    lemma_first_plus_at(s, st.len() as int);
    assert(s.take(st.len() as int) =~= st);
    let after = s.skip(st.len() as int + 1);
    assert(after =~= it);
    lemma_first_plus_none(it);
    lemma_dec_round_trip(sec);
    lemma_dec_round_trip(inc);
}

} // verus!
