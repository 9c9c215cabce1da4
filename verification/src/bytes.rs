//! Unsigned integers as byte strings of a fixed length, in either byte order.

use crate::pixel::Endian;
use vstd::prelude::*;

verus! {

/// The number of values that `w` bytes can tell apart: 256 to the power `w`.
pub open spec fn byte_limit(w: nat) -> nat
    decreases w,
{
    if w == 0 {
        1
    } else {
        256 * byte_limit((w - 1) as nat)
    }
}

/// The `w` low-order bytes of `raw`, least significant byte first.
pub open spec fn le_bytes(raw: nat, w: nat) -> Seq<u8>
    decreases w,
{
    if w == 0 {
        Seq::empty()
    } else {
        seq![(raw % 256) as u8] + le_bytes(raw / 256, (w - 1) as nat)
    }
}

/// The number whose bytes are `s`, least significant byte first.
pub open spec fn le_value(s: Seq<u8>) -> nat
    decreases s.len(),
{
    if s.len() == 0 {
        0
    } else {
        s[0] as nat + 256 * le_value(s.skip(1))
    }
}

/// The `w` low-order bytes of `raw` in the given byte order.
pub open spec fn uint_bytes(raw: nat, w: nat, endian: Endian) -> Seq<u8> {
    match endian {
        Endian::Little => le_bytes(raw, w),
        Endian::Big => le_bytes(raw, w).reverse(),
    }
}

/// The number that the bytes `s` stand for in the given byte order.
pub open spec fn uint_value(s: Seq<u8>, endian: Endian) -> nat {
    match endian {
        Endian::Little => le_value(s),
        Endian::Big => le_value(s.reverse()),
    }
}

pub proof fn lemma_le_bytes_len(raw: nat, w: nat)
    ensures
        le_bytes(raw, w).len() == w,
    decreases w,
{
    if w > 0 {
        lemma_le_bytes_len(raw / 256, (w - 1) as nat);
    }
}

pub proof fn lemma_le_value_bound(s: Seq<u8>)
    ensures
        le_value(s) < byte_limit(s.len()),
    decreases s.len(),
{
    if s.len() > 0 {
        lemma_le_value_bound(s.skip(1));
    }
}

pub proof fn lemma_le_round_trip(raw: nat, w: nat)
    requires
        raw < byte_limit(w),
    ensures
        le_value(le_bytes(raw, w)) == raw,
    decreases w,
{
    if w > 0 {
        let rest = le_bytes(raw / 256, (w - 1) as nat);
        lemma_le_round_trip(raw / 256, (w - 1) as nat);
        let s = le_bytes(raw, w);
        assert(s.skip(1) =~= rest);
    }
}

/// The length of an encoded integer is the width asked for.
pub proof fn lemma_uint_bytes_len(raw: nat, w: nat, endian: Endian)
    ensures
        uint_bytes(raw, w, endian).len() == w,
{
    lemma_le_bytes_len(raw, w);
}

/// Any `w` bytes stand for a number below `byte_limit(w)`.
pub proof fn lemma_uint_value_bound(s: Seq<u8>, endian: Endian)
    ensures
        uint_value(s, endian) < byte_limit(s.len()),
{
    lemma_le_value_bound(s);
    lemma_le_value_bound(s.reverse());
}

/// Reading the bytes of a number that fits in `w` bytes gives the number.
pub proof fn lemma_uint_round_trip(raw: nat, w: nat, endian: Endian)
    requires
        raw < byte_limit(w),
    ensures
        uint_value(uint_bytes(raw, w, endian), endian) == raw,
{
    lemma_le_round_trip(raw, w);
    let s = le_bytes(raw, w);
    assert(s.reverse().reverse() =~= s);
}

/// `byte_limit` at the widths that the format uses.
pub proof fn lemma_byte_limits()
    ensures
        byte_limit(1) == 0x100,
        byte_limit(2) == 0x1_0000,
        byte_limit(4) == 0x1_0000_0000,
        byte_limit(8) == 0x1_0000_0000_0000_0000,
{
    reveal_with_fuel(byte_limit, 9);
}

/// Appends the `w` low-order bytes of `raw` to `out`.
pub(crate) fn write_uint(out: &mut Vec<u8>, raw: u64, w: usize, endian: Endian)
    requires
        w <= 8,
    ensures
        final(out)@ == old(out)@ + uint_bytes(raw as nat, w as nat, endian),
{
    let ghost before = out@;
    let mut tmp: Vec<u8> = Vec::new();
    let mut rest: u64 = raw;
    let mut i: usize = 0;
    while i < w
        invariant
            i <= w,
            tmp@ + le_bytes(rest as nat, (w - i) as nat) == le_bytes(raw as nat, w as nat),
        decreases w - i,
    {
        let ghost tail = le_bytes((rest / 256) as nat, (w - i - 1) as nat);
        assert(tmp@.push((rest % 256) as u8) + tail =~= tmp@ + (seq![(rest % 256) as u8] + tail));
        tmp.push((rest % 256) as u8);
        rest = rest / 256;
        i = i + 1;
    }
    proof {
        lemma_le_bytes_len(raw as nat, w as nat);
    }
    assert(tmp@ =~= le_bytes(raw as nat, w as nat));
    match endian {
        Endian::Little => {
            let mut k: usize = 0;
            while k < w
                invariant
                    k <= w,
                    tmp@.len() == w,
                    out@ == before + tmp@.take(k as int),
                decreases w - k,
            {
                out.push(tmp[k]);
                assert(tmp@.take(k + 1) =~= tmp@.take(k as int).push(tmp@[k as int]));
                k = k + 1;
            }
            assert(tmp@.take(w as int) =~= tmp@);
        },
        Endian::Big => {
            let mut k: usize = 0;
            while k < w
                invariant
                    k <= w,
                    tmp@.len() == w,
                    out@ == before + tmp@.reverse().take(k as int),
                decreases w - k,
            {
                out.push(tmp[w - 1 - k]);
                assert(tmp@.reverse().take(k + 1) =~= tmp@.reverse().take(k as int).push(
                    tmp@[w - 1 - k],
                ));
                k = k + 1;
            }
            assert(tmp@.reverse().take(w as int) =~= tmp@.reverse());
        },
    }
}

/// The number that the `w` bytes of `bytes` from `pos` on stand for.
pub(crate) fn read_uint(bytes: &[u8], pos: usize, w: usize, endian: Endian) -> (raw: u64)
    requires
        w <= 8,
        pos + w <= bytes@.len(),
    ensures
        raw == uint_value(bytes@.subrange(pos as int, pos + w), endian),
{
    let ghost field = bytes@.subrange(pos as int, pos + w);
    let ghost digits = match endian {
        Endian::Little => field,
        Endian::Big => field.reverse(),
    };
    let len: usize = bytes.len();
    let mut acc: u64 = 0;
    let mut i: usize = w;
    while i > 0
        invariant
            i <= w <= 8,
            pos + w <= bytes@.len() == len,
            field == bytes@.subrange(pos as int, pos + w),
            digits == match endian {
                Endian::Little => field,
                Endian::Big => field.reverse(),
            },
            acc == le_value(digits.skip(i as int)),
        decreases i,
    {
        i = i - 1;
        let b: u8 = match endian {
            Endian::Little => bytes[pos + i],
            Endian::Big => bytes[pos + (w - 1 - i)],
        };
        proof {
            let s = digits.skip(i as int);
            assert(s.skip(1) =~= digits.skip(i + 1));
            assert(s[0] == b);
            lemma_le_value_bound(s.skip(1));
            lemma_le_value_bound(s);
            lemma_byte_limit_monotone(s.len(), 8);
            lemma_byte_limits();
        }
        acc = b as u64 + 256 * acc;
    }
    assert(digits.skip(0) =~= digits);
    acc
}

pub proof fn lemma_byte_limit_monotone(a: nat, b: nat)
    requires
        a <= b,
    ensures
        byte_limit(a) <= byte_limit(b),
    decreases b,
{
    if a < b {
        lemma_byte_limit_monotone(a, (b - 1) as nat);
    }
}

} // verus!
