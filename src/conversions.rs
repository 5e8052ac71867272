//! Decoders for variable-length integers made of 7-bit groups: LEB128 (least
//! significant group first) and VLQ (most significant group first).
//!
//! Every byte but the last of a number has its top bit set. A value longer
//! than 128 bits keeps its low 128 bits.

use vstd::arithmetic::div_mod::{
    lemma_fundamental_div_mod, lemma_fundamental_div_mod_converse, lemma_mod_bound, lemma_mod_mod,
};
use vstd::prelude::*;

verus! {

/// 2^121: what survives a 7-bit shift of a 128-bit number lies below it.
pub const LOW_121: u128 = 0x2000000000000000000000000000000;

/// Whether `b` is one complete number: at least one byte, the top bit set on
/// each byte but the last and clear on the last.
pub open spec fn is_group(b: Seq<u8>) -> bool {
    &&& b.len() > 0
    &&& b.last() < 0x80
    &&& forall|i: int| 0 <= i < b.len() - 1 ==> b[i] >= 0x80
}

/// The value of the 7-bit digits of `b`, least significant first.
pub open spec fn leb128_value(b: Seq<u8>) -> int
    decreases b.len(),
{
    if b.len() == 0 {
        0
    } else {
        b[0] as int % 128 + 128 * leb128_value(b.drop_first())
    }
}

/// The value of the 7-bit digits of `b`, most significant first.
pub open spec fn vlq128_value(b: Seq<u8>) -> int
    decreases b.len(),
{
    if b.len() == 0 {
        0
    } else {
        128 * vlq128_value(b.drop_last()) + b.last() as int % 128
    }
}

/// The low 128 bits of `x`.
pub open spec fn wrap128(x: int) -> u128 {
    (x % 0x1_0000_0000_0000_0000_0000_0000_0000_0000int) as u128
}

proof fn lemma_shift_in(x: int, c: int)
    requires
        0 <= c < 128,
    ensures
        ((x % 0x1_0000_0000_0000_0000_0000_0000_0000_0000int) % (LOW_121 as int)) * 128 + c == (128
            * x + c) % 0x1_0000_0000_0000_0000_0000_0000_0000_0000int,
{
    let m: int = 0x1_0000_0000_0000_0000_0000_0000_0000_0000int;
    let n: int = LOW_121 as int;
    assert(n * 128 == m);
    lemma_mod_mod(x, n, 128);
    lemma_fundamental_div_mod(x, n);
    lemma_mod_bound(x, n);
    let q = x / n;
    let r = x % n;
    assert(128 * x + c == q * m + (128 * r + c)) by (nonlinear_arith)
        requires
            x == n * q + r,
            n * 128 == m,
    ;
    assert(0 <= 128 * r + c < m) by (nonlinear_arith)
        requires
            0 <= r < n,
            0 <= c < 128,
            n * 128 == m,
    ;
    lemma_fundamental_div_mod_converse(128 * x + c, m, q, 128 * r + c);
}

/// Appends the low seven bits of `byte` below `acc`, keeping the low 128 bits.
fn shift_in(acc: u128, byte: u8) -> (r: u128)
    ensures
        r as int == (acc as int % LOW_121 as int) * 128 + byte as int % 128,
{
    let low = acc % LOW_121;
    assert(low * 128 + 127 <= u128::MAX) by (nonlinear_arith)
        requires
            low < LOW_121,
    ;
    low * 128 + (byte % 128) as u128
}

/// Checks [`is_group`].
fn check_group(bytes: &[u8]) -> (r: bool)
    ensures
        r == is_group(bytes@),
{
    let n = bytes.len();
    if n == 0 || bytes[n - 1] >= 0x80 {
        return false;
    }
    let mut i: usize = 0;
    while i < n - 1
        invariant
            n == bytes@.len(),
            n > 0,
            forall|j: int| 0 <= j < i ==> bytes@[j] >= 0x80,
        decreases n - i,
    {
        if bytes[i] < 0x80 {
            return false;
        }
        i = i + 1;
    }
    true
}

/// Decodes one LEB128 number that fills `bytes` exactly.
pub fn leb128(bytes: &[u8]) -> (r: Option<u128>)
    ensures
        r == (if is_group(bytes@) {
            Some(wrap128(leb128_value(bytes@)))
        } else {
            None
        }),
{
    if !check_group(bytes) {
        return None;
    }
    let n = bytes.len();
    let mut acc: u128 = 0;
    let mut i: usize = n;
    assert(bytes@.subrange(n as int, n as int).len() == 0);
    while i > 0
        invariant
            i <= n,
            n == bytes@.len(),
            acc == wrap128(leb128_value(bytes@.subrange(i as int, n as int))),
        decreases i,
    {
        i = i - 1;
        proof {
            let rest = bytes@.subrange(i as int + 1, n as int);
            assert(bytes@.subrange(i as int, n as int).drop_first() =~= rest);
            lemma_shift_in(leb128_value(rest), bytes@[i as int] as int % 128);
        }
        acc = shift_in(acc, bytes[i]);
    }
    assert(bytes@.subrange(0, n as int) =~= bytes@);
    Some(acc)
}

/// Decodes one VLQ number that fills `bytes` exactly.
pub fn vlq128(bytes: &[u8]) -> (r: Option<u128>)
    ensures
        r == (if is_group(bytes@) {
            Some(wrap128(vlq128_value(bytes@)))
        } else {
            None
        }),
{
    if !check_group(bytes) {
        return None;
    }
    let n = bytes.len();
    let mut acc: u128 = 0;
    let mut i: usize = 0;
    assert(bytes@.subrange(0, 0).len() == 0);
    while i < n
        invariant
            i <= n,
            n == bytes@.len(),
            acc == wrap128(vlq128_value(bytes@.subrange(0, i as int))),
        decreases n - i,
    {
        proof {
            let before = bytes@.subrange(0, i as int);
            assert(bytes@.subrange(0, i as int + 1).drop_last() =~= before);
            lemma_shift_in(vlq128_value(before), bytes@[i as int] as int % 128);
        }
        acc = shift_in(acc, bytes[i]);
        i = i + 1;
    }
    assert(bytes@.subrange(0, n as int) =~= bytes@);
    Some(acc)
}

/// Length of the first complete number in `s`, up to and including the first
/// byte whose top bit is clear; 0 when there is no such byte.
pub open spec fn first_group_len(s: Seq<u8>) -> nat
    decreases s.len(),
{
    if s.len() == 0 {
        0
    } else if s[0] < 0x80 {
        1
    } else {
        let r = first_group_len(s.drop_first());
        if r == 0 {
            0
        } else {
            r + 1
        }
    }
}

/// The value of one complete number, in the chosen digit order.
pub open spec fn group_value(g: Seq<u8>, most_significant_first: bool) -> u128 {
    if most_significant_first {
        wrap128(vlq128_value(g))
    } else {
        wrap128(leb128_value(g))
    }
}

/// The values of the complete numbers of `s`, in order; trailing bytes that
/// end no number are skipped.
pub open spec fn group_stream(s: Seq<u8>, most_significant_first: bool) -> Seq<u128>
    decreases s.len(),
{
    let g = first_group_len(s);
    if g == 0 || g > s.len() {
        Seq::empty()
    } else {
        seq![group_value(s.subrange(0, g as int), most_significant_first)] + group_stream(
            s.subrange(g as int, s.len() as int),
            most_significant_first,
        )
    }
}

proof fn lemma_first_group_len(s: Seq<u8>, k: int)
    requires
        0 <= k <= s.len(),
        forall|j: int| 0 <= j < k ==> s[j] >= 0x80,
    ensures
        k < s.len() && s[k] < 0x80 ==> first_group_len(s) == k + 1,
        k == s.len() ==> first_group_len(s) == 0,
    decreases k,
{
    if k > 0 {
        lemma_first_group_len(s.drop_first(), k - 1);
    }
}

/// Decodes every complete number of `data`, in either digit order.
fn decode_stream(data: &[u8], most_significant_first: bool) -> (r: Vec<u128>)
    ensures
        r@ == group_stream(data@, most_significant_first),
{
    let n = data.len();
    let mut out: Vec<u128> = Vec::new();
    let mut start: usize = 0;
    let mut i: usize = 0;
    assert(data@.subrange(0, n as int) =~= data@);
    assert(out@ + group_stream(data@, most_significant_first) =~= group_stream(
        data@,
        most_significant_first,
    ));
    while i < n
        invariant
            start <= i <= n,
            n == data@.len(),
            out@ + group_stream(data@.subrange(start as int, n as int), most_significant_first)
                == group_stream(data@, most_significant_first),
            forall|j: int| start <= j < i ==> data@[j] >= 0x80,
        decreases n - i,
    {
        if data[i] < 0x80 {
            let group = &data[start..i + 1];
            proof {
                let rest = data@.subrange(start as int, n as int);
                lemma_first_group_len(rest, i - start);
                assert(rest.subrange(0, i - start + 1) =~= group@);
                assert(rest.subrange(i - start + 1, rest.len() as int) =~= data@.subrange(
                    i as int + 1,
                    n as int,
                ));
                assert(is_group(group@));
            }
            let v = if most_significant_first {
                vlq128(group)
            } else {
                leb128(group)
            };
            proof {
                let rest = data@.subrange(start as int, n as int);
                let after = data@.subrange(i as int + 1, n as int);
                assert(out@.push(v->Some_0) + group_stream(after, most_significant_first) =~= out@
                    + group_stream(rest, most_significant_first));
            }
            match v {
                Some(x) => out.push(x),
                None => {},
            }
            start = i + 1;
        }
        i = i + 1;
    }
    proof {
        let rest = data@.subrange(start as int, n as int);
        lemma_first_group_len(rest, n - start);
        assert(out@ + group_stream(rest, most_significant_first) =~= out@);
    }
    out
}

/// Decodes every complete LEB128 number of `data`, in order, skipping an
/// unfinished one at the end.
pub fn leb128v(data: &[u8]) -> (r: Vec<u128>)
    ensures
        r@ == group_stream(data@, false),
{
    decode_stream(data, false)
}

/// Decodes every complete VLQ number of `data`, in order, skipping an
/// unfinished one at the end.
pub fn vlq128v(data: &[u8]) -> (r: Vec<u128>)
    ensures
        r@ == group_stream(data@, true),
{
    decode_stream(data, true)
}

} // verus!
