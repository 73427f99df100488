use vstd::prelude::*;
use vstd::arithmetic::power2::{pow2, lemma2_to64, lemma2_to64_rest, lemma_pow2_adds, lemma_pow2_strictly_increases};

use bytes::Bytes;

use crate::buffer::{advance, bytes_view, remaining_slice};
use crate::error::ParseError;

verus! {

/// The bit that marks a varint byte as followed by another.
pub const VARINT_CONTINUATION_BIT: u8 = 0x80;

/// Most bytes a 64-bit varint may span.
pub const VARINT_MAX_BYTES: usize = 10;

/// Value of the 7-bit groups of `s`, least significant group first.
pub open spec fn groups_value(s: Seq<u8>) -> nat
    decreases s.len(),
{
    if s.len() == 0 {
        0
    } else {
        (s[0] % 0x80) as nat + 0x80 * groups_value(s.drop_first())
    }
}

/// Length of the varint at the start of `s`, looking from index `i` on: the byte
/// after the first one without continuation bit, if that lies within the first ten.
pub open spec fn varint_end_from(s: Seq<u8>, i: nat) -> Option<nat>
    decreases VARINT_MAX_BYTES - i,
{
    if i >= VARINT_MAX_BYTES || i >= s.len() {
        None
    } else if s[i as int] < VARINT_CONTINUATION_BIT {
        Some(i + 1)
    } else {
        varint_end_from(s, i + 1)
    }
}

/// Outcome of decoding the varint at the start of `s`: its value and the number of
/// bytes it spans, or why it could not be decoded (a value of 64 bits or more
/// overflows).
pub open spec fn varint_decode(s: Seq<u8>) -> Result<(u64, nat), ParseError> {
    match varint_end_from(s, 0) {
        Some(k) => if groups_value(s.take(k as int)) >= pow2(64) {
            Err(ParseError::VarintOverflowError)
        } else {
            Ok((groups_value(s.take(k as int)) as u64, k))
        },
        None => if s.len() >= VARINT_MAX_BYTES {
            Err(ParseError::VarintOverflowError)
        } else {
            Err(ParseError::UnexpectedEnd)
        },
    }
}

/// The shortest varint encoding of `v`.
pub open spec fn varint_encode(v: nat) -> Seq<u8>
    decreases v,
{
    if v < 0x80 {
        seq![v as u8]
    } else {
        seq![(v % 0x80 + 0x80) as u8] + varint_encode(v / 0x80)
    }
}

proof fn lemma_groups_value_step(s: Seq<u8>, i: nat)
    requires
        i < s.len(),
    ensures
        groups_value(s.take(i as int + 1)) == groups_value(s.take(i as int)) + (s[i as int] % 0x80)
            as nat * pow2(7 * i),
    decreases i,
{
    let t = s.take(i as int + 1);
    if i == 0 {
        lemma2_to64();
        assert(t.drop_first() =~= Seq::<u8>::empty());
        assert(s.take(0) =~= Seq::<u8>::empty());
    } else {
        let d = s.drop_first();
        lemma_groups_value_step(d, (i - 1) as nat);
        assert(t.drop_first() =~= d.take(i as int));
        assert(s.take(i as int).drop_first() =~= d.take(i - 1));
        lemma_pow2_adds(7, 7 * (i - 1) as nat);
        lemma2_to64();
        let a = groups_value(d.take(i - 1));
        let c = (d[i - 1] % 0x80) as nat;
        assert(0x80 * (a + c * pow2(7 * (i - 1) as nat)) == 0x80 * a + c * (0x80 * pow2(
            7 * (i - 1) as nat,
        ))) by (nonlinear_arith);
    }
}

/// Decodes the varint that starts at `pos` in `data`, giving its value and the
/// position just past it.
pub fn decode_varint(data: &[u8], pos: usize) -> (r: Result<(u64, usize), ParseError>)
    requires
        pos <= data@.len(),
    ensures
        match varint_decode(data@.skip(pos as int)) {
            Ok((v, k)) => r is Ok && r->Ok_0.0 == v && r->Ok_0.1 == pos + k && pos + k <= data@.len(),
            Err(e) => r == Err::<(u64, usize), ParseError>(e),
        },
{
    let ghost s = data@.skip(pos as int);
    let mut n: u64 = 0;
    let mut scale: u64 = 1;
    let mut i: usize = 0;
    proof {
        lemma2_to64();
        assert(s.take(0) =~= Seq::<u8>::empty());
    }
    while i < VARINT_MAX_BYTES - 1
        invariant
            i < VARINT_MAX_BYTES,
            pos <= data@.len(),
            s == data@.skip(pos as int),
            varint_end_from(s, 0) == varint_end_from(s, i as nat),
            i <= s.len(),
            n == groups_value(s.take(i as int)),
            scale == pow2(7 * i as nat),
            n < scale,
        decreases VARINT_MAX_BYTES - i,
    {
        if data.len() - pos <= i {
            return Err(ParseError::UnexpectedEnd);
        }
        let b = data[pos + i];
        let chunk: u64 = (b % VARINT_CONTINUATION_BIT) as u64;
        proof {
            lemma_groups_value_step(s, i as nat);
            lemma_pow2_adds(7 * i as nat, 7);
            lemma2_to64();
            lemma2_to64_rest();
            if 7 * i < 56 {
                lemma_pow2_strictly_increases(7 * i as nat, 56);
            }
            assert(chunk * scale <= 0x7f * scale) by (nonlinear_arith)
                requires
                    chunk <= 0x7f,
            ;
        }
        n = n + chunk * scale;
        if b < VARINT_CONTINUATION_BIT {
            proof {
                lemma2_to64_rest();
                lemma_pow2_strictly_increases(63, 64);
            }
            return Ok((n, pos + i + 1));
        }
        scale = scale * 0x80;
        i = i + 1;
    }
    if data.len() - pos <= i {
        return Err(ParseError::UnexpectedEnd);
    }
    let b = data[pos + i];
    if b >= VARINT_CONTINUATION_BIT {
        proof {
            reveal_with_fuel(varint_end_from, 2);
        }
        return Err(ParseError::VarintOverflowError);
    }
    proof {
        reveal_with_fuel(varint_end_from, 2);
        lemma_groups_value_step(s, 9);
        lemma2_to64();
        lemma2_to64_rest();
        assert(b as nat * pow2(63) >= 2 * pow2(63) <==> b >= 2) by (nonlinear_arith)
            requires
                pow2(63) > 0,
        ;
    }
    if b > 1 {
        return Err(ParseError::VarintOverflowError);
    }
    proof {
        assert(b as nat * pow2(63) <= pow2(63)) by (nonlinear_arith)
            requires
                b <= 1,
        ;
    }
    n = n + (b as u64) * scale;
    Ok((n, pos + VARINT_MAX_BYTES))
}

/// Reads one varint from the front of `bytes`. On success the varint's bytes are
/// consumed; on failure `bytes` is left as it was.
pub fn parse_varint(bytes: &mut Bytes) -> (r: Result<u64, ParseError>)
    ensures
        match varint_decode(bytes_view(*old(bytes))) {
            Ok((v, k)) => r == Ok::<u64, ParseError>(v) && bytes_view(*final(bytes)) == bytes_view(
                *old(bytes),
            ).skip(k as int),
            Err(e) => r == Err::<u64, ParseError>(e) && bytes_view(*final(bytes)) == bytes_view(
                *old(bytes),
            ),
        },
{
    let data = remaining_slice(bytes);
    proof {
        assert(data@.skip(0) =~= data@);
    }
    match decode_varint(data, 0) {
        Ok((v, next)) => {
            advance(bytes, next);
            Ok(v)
        },
        Err(e) => Err(e),
    }
}

proof fn lemma_encode_shape(v: nat)
    ensures
        varint_encode(v).len() >= 1,
        forall|j: int|
            0 <= j < varint_encode(v).len() - 1 ==> #[trigger] varint_encode(v)[j]
                >= VARINT_CONTINUATION_BIT,
        varint_encode(v)[varint_encode(v).len() - 1] < VARINT_CONTINUATION_BIT,
        groups_value(varint_encode(v)) == v,
    decreases v,
{
    if v >= 0x80 {
        lemma_encode_shape(v / 0x80);
        let e = varint_encode(v);
        let t = varint_encode(v / 0x80);
        assert(e.drop_first() =~= t);
        assert forall|j: int| 0 <= j < e.len() - 1 implies #[trigger] e[j]
            >= VARINT_CONTINUATION_BIT by {
            if j > 0 {
                assert(e[j] == t[j - 1]);
            }
        }
        assert(e[e.len() - 1] == t[t.len() - 1]);
        assert(e[0] == v % 0x80 + 0x80);
        assert((e[0] % 0x80) as nat == v % 0x80);
        vstd::arithmetic::div_mod::lemma_fundamental_div_mod(v as int, 0x80);
        assert(groups_value(e) == (e[0] % 0x80) as nat + 0x80 * groups_value(t));
    } else {
        let e = varint_encode(v);
        assert(e.drop_first() =~= Seq::<u8>::empty());
        assert(e[0] == v);
        assert(groups_value(e.drop_first()) == 0);
    }
}

proof fn lemma_encode_len(v: nat, m: nat)
    requires
        m >= 1,
        v < pow2(7 * m),
    ensures
        varint_encode(v).len() <= m,
    decreases m,
{
    if v >= 0x80 {
        lemma2_to64();
        if m == 1 {
            assert(false);
        } else {
            lemma_pow2_adds(7, 7 * (m - 1) as nat);
            assert(v / 0x80 < pow2(7 * (m - 1) as nat)) by {
                vstd::arithmetic::div_mod::lemma_div_by_multiple_is_strongly_ordered(
                    v as int,
                    0x80 * pow2(7 * (m - 1) as nat) as int,
                    pow2(7 * (m - 1) as nat) as int,
                    0x80,
                );
                assert(0x80 * pow2(7 * (m - 1) as nat) == pow2(7 * (m - 1) as nat) * 0x80);
                vstd::arithmetic::div_mod::lemma_div_multiples_vanish(
                    pow2(7 * (m - 1) as nat) as int,
                    0x80,
                );
            }
            lemma_encode_len(v / 0x80, (m - 1) as nat);
        }
    }
}

proof fn lemma_end_walk(s: Seq<u8>, i: nat, k: nat)
    requires
        i <= k < VARINT_MAX_BYTES,
        k < s.len(),
        s[k as int] < VARINT_CONTINUATION_BIT,
        forall|j: int| i <= j < k ==> s[j] >= VARINT_CONTINUATION_BIT,
    ensures
        varint_end_from(s, i) == Some(k + 1),
    decreases k - i,
{
    if i < k {
        lemma_end_walk(s, i + 1, k);
    }
}

/// Encoding a 64-bit value as a varint and decoding it again gives the value
/// back, consuming exactly the encoded bytes whatever follows them.
pub proof fn varint_round_trip(v: u64, rest: Seq<u8>)
    ensures
        varint_decode(varint_encode(v as nat) + rest) == Ok::<(u64, nat), ParseError>(
            (v, varint_encode(v as nat).len()),
        ),
{
    let e = varint_encode(v as nat);
    let s = e + rest;
    lemma_encode_shape(v as nat);
    lemma2_to64();
    lemma2_to64_rest();
    lemma_pow2_strictly_increases(64, 70);
    lemma_encode_len(v as nat, 10);
    lemma_end_walk(s, 0, (e.len() - 1) as nat);
    assert(s.take(e.len() as int) =~= e);
}

/// Ten bytes that all carry the continuation bit do not make a 64-bit varint.
pub proof fn varint_overflow(s: Seq<u8>)
    requires
        s.len() >= VARINT_MAX_BYTES,
        forall|j: int| 0 <= j < VARINT_MAX_BYTES ==> s[j] >= VARINT_CONTINUATION_BIT,
    ensures
        varint_decode(s) == Err::<(u64, nat), ParseError>(ParseError::VarintOverflowError),
{
    lemma_end_none(s, VARINT_MAX_BYTES as nat);
}

proof fn lemma_end_none(s: Seq<u8>, i: nat)
    requires
        i <= VARINT_MAX_BYTES,
        s.len() >= VARINT_MAX_BYTES,
        forall|j: int| 0 <= j < VARINT_MAX_BYTES ==> s[j] >= VARINT_CONTINUATION_BIT,
    ensures
        varint_end_from(s, (VARINT_MAX_BYTES - i) as nat) is None,
    decreases i,
{
    if i > 0 {
        lemma_end_none(s, (i - 1) as nat);
    }
}

} // verus!
