//! Base-128 varints, the numbers of the message encoding.

use vstd::prelude::*;

verus! {

/// `128` to the power `n`.
pub open spec fn pow128(n: nat) -> nat
    decreases n,
{
    if n == 0 {
        1
    } else {
        128 * pow128((n - 1) as nat)
    }
}

/// The varint of `v`: seven bits per byte, low bits first, the high bit of a
/// byte set while more bytes follow.
pub open spec fn varint(v: nat) -> Seq<u8>
    decreases v,
{
    if v < 128 {
        seq![v as u8]
    } else {
        seq![(128 + v % 128) as u8] + varint(v / 128)
    }
}

/// Length of the varint at the front of `s`: one more than the index of the
/// first byte whose high bit is clear, if there is such a byte.
pub open spec fn varint_len(s: Seq<u8>) -> Option<int>
    decreases s.len(),
{
    if s.len() == 0 {
        None
    } else if s[0] < 128 {
        Some(1)
    } else {
        match varint_len(s.drop_first()) {
            Some(n) => Some(n + 1),
            None => None,
        }
    }
}

/// The number that the low seven bits of the first `n` bytes of `s` spell.
pub open spec fn varint_value(s: Seq<u8>, n: int) -> nat
    decreases n,
{
    if n <= 0 || s.len() == 0 {
        0
    } else {
        (s[0] % 128) as nat + 128 * varint_value(s.drop_first(), n - 1)
    }
}

/// The varint at the front of `s`, read with a cap on its length and on its
/// value: the value and the number of bytes it takes. `None` when the varint
/// is cut short, longer than `max_len` bytes or larger than `limit`.
pub open spec fn parse_varint(s: Seq<u8>, max_len: int, limit: u64) -> Option<(u64, int)> {
    match varint_len(s) {
        Some(n) => if n <= max_len && varint_value(s, n) <= limit {
            Some((varint_value(s, n) as u64, n))
        } else {
            None
        },
        None => None,
    }
}

/// A varint of at most ten bytes whose value fits 64 bits.
pub open spec fn parse_varint64(s: Seq<u8>) -> Option<(u64, int)> {
    parse_varint(s, 10, u64::MAX)
}

/// A varint of at most five bytes whose value fits 32 bits.
pub open spec fn parse_varint32(s: Seq<u8>) -> Option<(u64, int)> {
    parse_varint(s, 5, 0xffff_ffff)
}

pub proof fn lemma_pow128_values()
    ensures
        pow128(0) == 1,
        pow128(1) == 0x80,
        pow128(2) == 0x4000,
        pow128(3) == 0x20_0000,
        pow128(4) == 0x1000_0000,
        pow128(5) == 0x8_0000_0000,
        pow128(6) == 0x400_0000_0000,
        pow128(7) == 0x2_0000_0000_0000,
        pow128(8) == 0x100_0000_0000_0000,
        pow128(9) == 0x8000_0000_0000_0000,
        pow128(10) == 0x40_0000_0000_0000_0000,
{
    reveal_with_fuel(pow128, 11);
}

/// The varint of a number is never empty, and its last byte ends it.
pub proof fn lemma_varint_shape(v: nat)
    ensures
        varint(v).len() >= 1,
        v < 128 ==> varint(v).len() == 1,
        v >= 128 ==> varint(v).len() == 1 + varint(v / 128).len(),
        v >= 128 ==> varint(v)[0] >= 128 && varint(v)[0] % 128 == v % 128,
        v >= 128 ==> varint(v).drop_first() == varint(v / 128),
        v < 128 ==> varint(v)[0] == v,
    decreases v,
{
    if v >= 128 {
        lemma_varint_shape(v / 128);
        assert(varint(v).drop_first() =~= varint(v / 128));
    }
}

/// A number below `128^k` has a varint of at most `k` bytes.
pub proof fn lemma_varint_len_bound(v: nat, k: nat)
    requires
        k >= 1,
        v < pow128(k),
    ensures
        varint(v).len() <= k,
    decreases k,
{
    lemma_varint_shape(v);
    if v >= 128 {
        reveal_with_fuel(pow128, 2);
        if k == 1 {
            assert(pow128(1) == 128);
        } else {
            assert(v / 128 < pow128((k - 1) as nat));
            lemma_varint_len_bound(v / 128, (k - 1) as nat);
        }
    }
}

/// Reading the varint of `v` gives back `v` and stops where the varint ends,
/// whatever follows it.
pub proof fn lemma_varint_round_trip(v: nat, rest: Seq<u8>)
    ensures
        varint_len(varint(v) + rest) == Some(varint(v).len() as int),
        varint_value(varint(v) + rest, varint(v).len() as int) == v,
    decreases v,
{
    let s = varint(v) + rest;
    lemma_varint_shape(v);
    if v >= 128 {
        lemma_varint_round_trip(v / 128, rest);
        assert(s.drop_first() =~= varint(v / 128) + rest);
        assert(s[0] == varint(v)[0]);
    } else {
        assert(s[0] == v);
        assert(varint_value(s.drop_first(), 0) == 0);
    }
}

/// What `parse_varint64` makes of the varint of a 64-bit number.
pub proof fn lemma_parse_varint64(v: u64, rest: Seq<u8>)
    ensures
        parse_varint64(varint(v as nat) + rest) == Some((v, varint(v as nat).len() as int)),
        1 <= varint(v as nat).len() <= 10,
{
    lemma_pow128_values();
    lemma_varint_len_bound(v as nat, 10);
    lemma_varint_shape(v as nat);
    lemma_varint_round_trip(v as nat, rest);
}

/// What `parse_varint32` makes of the varint of a 32-bit number.
pub proof fn lemma_parse_varint32(v: u64, rest: Seq<u8>)
    requires
        v <= 0xffff_ffff,
    ensures
        parse_varint32(varint(v as nat) + rest) == Some((v, varint(v as nat).len() as int)),
        1 <= varint(v as nat).len() <= 5,
{
    lemma_pow128_values();
    lemma_varint_len_bound(v as nat, 5);
    lemma_varint_shape(v as nat);
    lemma_varint_round_trip(v as nat, rest);
}

/// With `i` continuation bytes in front, the varint ends where the varint
/// that starts at index `i` ends.
proof fn lemma_varint_len_skip(s: Seq<u8>, i: int)
    requires
        0 <= i <= s.len(),
        forall|k: int| 0 <= k < i ==> s[k] >= 128,
    ensures
        varint_len(s) == match varint_len(s.skip(i)) {
            Some(n) => Some(n + i),
            None => None,
        },
    decreases i,
{
    if i == 0 {
        assert(s.skip(0) =~= s);
    } else {
        let t = s.drop_first();
        assert forall|k: int| 0 <= k < i - 1 implies t[k] >= 128 by {
            assert(t[k] == s[k + 1]);
        }
        lemma_varint_len_skip(t, i - 1);
        assert(t.skip(i - 1) =~= s.skip(i));
    }
}

/// The value of the first `i + 1` bytes, from the value of the first `i`.
proof fn lemma_varint_value_step(s: Seq<u8>, i: int)
    requires
        0 <= i < s.len(),
    ensures
        varint_value(s, i + 1) == varint_value(s, i) + pow128(i as nat) * ((s[i] % 128) as nat),
        varint_value(s, i) < pow128(i as nat),
    decreases i,
{
    let t = s.drop_first();
    let d = (s[i] % 128) as nat;
    if i == 0 {
        assert(varint_value(t, 0) == 0);
        assert(varint_value(s, 0) == 0);
        assert(varint_value(s, 1) == (s[0] % 128) as nat + 128 * varint_value(t, 0));
        assert(pow128(0) == 1);
        assert(pow128(0) * d == d);
    } else {
        lemma_varint_value_step(t, i - 1);
        assert(t[i - 1] == s[i]);
        let p = pow128((i - 1) as nat);
        assert(pow128(i as nat) == 128 * p);
        assert(varint_value(s, i + 1) == (s[0] % 128) as nat + 128 * varint_value(t, i));
        assert(varint_value(s, i) == (s[0] % 128) as nat + 128 * varint_value(t, i - 1));
        assert(varint_value(t, i) == varint_value(t, i - 1) + p * d);
        assert(128 * (varint_value(t, i - 1) + p * d) == 128 * varint_value(t, i - 1) + (128 * p)
            * d) by (nonlinear_arith);
        assert(varint_value(t, i - 1) < p);
    }
}

/// Appends the varint of `v`.
pub fn put_varint(out: &mut Vec<u8>, v: u64)
    ensures
        final(out)@ == old(out)@ + varint(v as nat),
{
    let mut left: u64 = v;
    while left >= 128
        invariant
            old(out)@ + varint(v as nat) == out@ + varint(left as nat),
        decreases left,
    {
        let byte: u8 = (128 + left % 128) as u8;
        proof {
            assert(out@.push(byte) + varint((left / 128) as nat) =~= out@ + varint(left as nat));
        }
        out.push(byte);
        left = left / 128;
    }
    proof {
        assert(out@.push(left as u8) =~= out@ + varint(left as nat));
    }
    out.push(left as u8);
}

/// Reads the varint at the front of `s`, of at most ten bytes and 64 bits:
/// its value and the number of bytes it takes.
pub fn take_varint64(s: &[u8]) -> (r: Option<(u64, usize)>)
    ensures
        match r {
            Some((v, n)) => parse_varint64(s@) == Some((v, n as int)) && n <= s@.len(),
            None => parse_varint64(s@) is None,
        },
{
    take_varint(s, 10, u64::MAX)
}

/// Reads the varint at the front of `s`, of at most five bytes and 32 bits:
/// its value and the number of bytes it takes.
pub fn take_varint32(s: &[u8]) -> (r: Option<(u64, usize)>)
    ensures
        match r {
            Some((v, n)) => parse_varint32(s@) == Some((v, n as int)) && n <= s@.len(),
            None => parse_varint32(s@) is None,
        },
{
    take_varint(s, 5, 0xffff_ffff)
}

/// Reads the varint at the front of `s`, of at most `max_len` bytes and at
/// most `limit` in value.
fn take_varint(s: &[u8], max_len: usize, limit: u64) -> (r: Option<(u64, usize)>)
    requires
        1 <= max_len <= 10,
    ensures
        match r {
            Some((v, n)) => parse_varint(s@, max_len as int, limit) == Some((v, n as int)) && n
                <= s@.len(),
            None => parse_varint(s@, max_len as int, limit) is None,
        },
{
    let mut i: usize = 0;
    let mut acc: u64 = 0;
    let mut unit: u64 = 1;
    proof {
        lemma_pow128_values();
    }
    while i < s.len() && i < max_len
        invariant
            1 <= max_len <= 10,
            0 <= i <= s@.len(),
            i <= max_len,
            forall|k: int| 0 <= k < i ==> s@[k] >= 128,
            acc as nat == varint_value(s@, i as int),
            unit as nat == pow128(i as nat),
            acc < unit,
        decreases s@.len() - i,
    {
        let byte: u8 = s[i];
        let digit: u64 = (byte % 128) as u64;
        proof {
            lemma_pow128_values();
            lemma_varint_value_step(s@, i as int);
            lemma_varint_len_skip(s@, i as int);
            assert(s@.skip(i as int)[0] == byte);
        }
        let ghost tail = s@.skip(i as int);
        let ghost d = (byte % 128) as nat;
        let ghost p = pow128(i as nat);
        proof {
            lemma_varint_len_at_least(tail.drop_first());
            assert(byte < 128 ==> varint_len(tail) == Some(1int));
            assert(byte >= 128 ==> (varint_len(tail) matches Some(n) ==> n >= 2));
            assert(varint_value(s@, i + 1) == acc + p * d);
        }
        if i == 9 && digit > 1 {
            proof {
                if byte < 128 {
                    assert(varint_len(s@) == Some(10int));
                    assert(p * d >= 2 * p) by (nonlinear_arith)
                        requires
                            d >= 2,
                            p >= 0,
                    ;
                    assert(varint_value(s@, 10) > u64::MAX);
                } else {
                    assert(varint_len(s@) matches Some(n) ==> n >= 11);
                }
            }
            return None;
        }
        assert(acc + digit * unit <= u64::MAX) by (nonlinear_arith)
            requires
                acc < unit,
                digit < 128,
                unit <= 0x100_0000_0000_0000 || (unit == 0x8000_0000_0000_0000 && digit <= 1),
        ;
        let value: u64 = acc + digit * unit;
        proof {
            assert(digit * unit == p * d) by (nonlinear_arith)
                requires
                    digit == d,
                    unit == p,
            ;
            assert(value as nat == varint_value(s@, i + 1));
        }
        if byte < 128 {
            assert(varint_len(s@) == Some(i + 1));
            if value <= limit {
                return Some((value, i + 1));
            } else {
                return None;
            }
        }
        if i == 9 {
            assert(varint_len(s@) matches Some(n) ==> n >= 11);
            return None;
        }
        proof {
            assert(value < 128 * unit) by (nonlinear_arith)
                requires
                    value == acc + digit * unit,
                    acc < unit,
                    digit < 128,
            ;
        }
        acc = value;
        unit = unit * 128;
        i += 1;
    }
    proof {
        lemma_varint_len_skip(s@, i as int);
        lemma_varint_len_at_least(s@.skip(i as int));
    }
    None
}

/// A varint that parses takes at least one byte and no more than there are.
pub proof fn lemma_parse_varint_len(s: Seq<u8>, max_len: int, limit: u64)
    ensures
        parse_varint(s, max_len, limit) matches Some((v, n)) ==> 1 <= n <= s.len(),
{
    lemma_varint_len_at_least(s);
}

/// A varint takes at least one byte.
proof fn lemma_varint_len_at_least(s: Seq<u8>)
    ensures
        varint_len(s) matches Some(n) ==> 1 <= n <= s.len(),
        s.len() == 0 ==> varint_len(s) is None,
    decreases s.len(),
{
    if s.len() > 0 && s[0] >= 128 {
        lemma_varint_len_at_least(s.drop_first());
    }
}

} // verus!
