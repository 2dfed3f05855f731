//! LEB128 variable-length integer encoding (unsigned and signed), as used by
//! DWARF exception tables and the WebAssembly binary format.

use vstd::prelude::*;

verus! {

/// Unsigned LEB128 encoding of `v`: seven bits per byte, least-significant group
/// first, the high bit set on every byte but the last.
pub open spec fn uleb128(v: nat) -> Seq<u8>
    decreases v,
{
    if v < 128 {
        seq![v as u8]
    } else {
        seq![(v % 128 + 128) as u8] + uleb128(v / 128)
    }
}

/// Measure under which the signed encoding recursion shrinks.
pub open spec fn sleb_measure(v: int) -> nat {
    if v >= 0 { v as nat } else { (-v - 1) as nat }
}

/// Signed LEB128 encoding of `v`: seven bits per byte (two's complement),
/// least-significant group first, stopping as soon as the remaining value is
/// the sign extension of bit 6 of the byte just written.
pub open spec fn sleb128(v: int) -> Seq<u8>
    decreases sleb_measure(v),
{
    let low = v % 128;
    let rest = v / 128;
    if (rest == 0 && low < 64) || (rest == -1 && low >= 64) {
        seq![low as u8]
    } else {
        seq![(low + 128) as u8] + sleb128(rest)
    }
}

/// Value of a byte sequence read as the 7-bit groups of an unsigned LEB128
/// number, least-significant group first (continuation bits ignored).
pub open spec fn uleb_value(s: Seq<u8>) -> nat
    decreases s.len(),
{
    if s.len() == 0 {
        0
    } else {
        (s[0] % 128) as nat + 128 * uleb_value(s.drop_first())
    }
}

/// `128` raised to `n`.
pub open spec fn pow128(n: nat) -> nat
    decreases n,
{
    if n == 0 { 1 } else { 128 * pow128((n - 1) as nat) }
}

/// Value of a complete signed LEB128 sequence: the unsigned group value,
/// sign-extended from bit 6 of the last byte.
pub open spec fn sleb_value(s: Seq<u8>) -> int {
    if s.len() > 0 && s.last() % 128 >= 64 {
        uleb_value(s) - pow128(s.len())
    } else {
        uleb_value(s) as int
    }
}

/// Every byte but the last has its continuation bit set, and the last does not.
pub open spec fn is_leb_group(s: Seq<u8>) -> bool {
    &&& s.len() > 0
    &&& forall|i: int| 0 <= i < s.len() - 1 ==> s[i] >= 128
    &&& s.last() < 128
}

/// Decoding an unsigned LEB128 encoding gives back the encoded value, and the
/// encoding is one self-delimiting group (continuation bit on every byte but the last).
pub proof fn lemma_uleb128_roundtrip(v: nat)
    ensures
        uleb_value(uleb128(v)) == v,
        is_leb_group(uleb128(v)),
    decreases v,
{
    let s = uleb128(v);
    if v < 128 {
        assert(s.drop_first() =~= Seq::<u8>::empty());
        assert(uleb_value(s.drop_first()) == 0);
    } else {
        lemma_uleb128_roundtrip(v / 128);
        let t = uleb128(v / 128);
        assert(s.drop_first() =~= t);
        assert(s[0] % 128 == v % 128);
        assert(uleb_value(s) == v % 128 + 128 * (v / 128));
        assert forall|i: int| 0 <= i < s.len() - 1 implies s[i] >= 128 by {
            if i > 0 {
                assert(s[i] == t[i - 1]);
            }
        }
    }
}

/// Decoding a signed LEB128 encoding (with sign extension from the last byte)
/// gives back the encoded value, and the encoding is one self-delimiting group.
pub proof fn lemma_sleb128_roundtrip(v: int)
    ensures
        sleb_value(sleb128(v)) == v,
        is_leb_group(sleb128(v)),
    decreases sleb_measure(v),
{
    let low = v % 128;
    let rest = v / 128;
    let s = sleb128(v);
    if (rest == 0 && low < 64) || (rest == -1 && low >= 64) {
        assert(s.drop_first() =~= Seq::<u8>::empty());
        assert(uleb_value(s.drop_first()) == 0);
        assert(uleb_value(s) == low);
        assert(pow128(1) == 128) by {
            assert(pow128(0) == 1);
        }
    } else {
        lemma_sleb128_roundtrip(rest);
        let t = sleb128(rest);
        assert(s[0] % 128 == low);
        assert(uleb_value(s) == low + 128 * uleb_value(t)) by {
            assert(s.drop_first() =~= t);
        }
        assert(s.drop_first() =~= t);
        assert(s.last() == t.last());
        assert(pow128(s.len()) == 128 * pow128(t.len()));
        assert forall|i: int| 0 <= i < s.len() - 1 implies s[i] >= 128 by {
            if i > 0 {
                assert(s[i] == t[i - 1]);
            }
        }
    }
}

/// A value below `128^k` (with `k >= 1`) takes at most `k` unsigned LEB128 bytes.
pub proof fn lemma_uleb128_len_bound(v: nat, k: nat)
    requires
        k >= 1,
        v < pow128(k),
    ensures
        uleb128(v).len() <= k,
    decreases v,
{
    if k == 1 {
        assert(pow128(0) == 1);
    }
    if v >= 128 {
        assert(k >= 2);
        assert(pow128(k) == 128 * pow128((k - 1) as nat));
        lemma_uleb128_len_bound(v / 128, (k - 1) as nat);
    }
}

/// Every 64-bit unsigned value takes at most ten unsigned LEB128 bytes.
pub proof fn lemma_uleb128_u64_len(v: u64)
    ensures
        1 <= uleb128(v as nat).len() <= 10,
{
    reveal_with_fuel(pow128, 11);
    assert(pow128(10) == 0x400000000000000000nat);
    lemma_uleb128_len_bound(v as nat, 10);
}

/// A value in `[-64 * 128^(k-1), 64 * 128^(k-1))` takes at most `k` signed LEB128 bytes.
pub proof fn lemma_sleb128_len_bound(v: int, k: nat)
    requires
        k >= 1,
        -64 * pow128((k - 1) as nat) <= v < 64 * pow128((k - 1) as nat),
    ensures
        sleb128(v).len() <= k,
    decreases k,
{
    let low = v % 128;
    let rest = v / 128;
    if !((rest == 0 && low < 64) || (rest == -1 && low >= 64)) {
        if k == 1 {
            assert(pow128(0) == 1);
        } else {
            assert(pow128((k - 1) as nat) == 128 * pow128((k - 2) as nat));
            lemma_sleb128_len_bound(rest, (k - 1) as nat);
        }
    }
}

/// Every 64-bit signed value takes at most ten signed LEB128 bytes.
pub proof fn lemma_sleb128_i64_len(v: i64)
    ensures
        1 <= sleb128(v as int).len() <= 10,
{
    reveal_with_fuel(pow128, 10);
    assert(pow128(9) == 0x8000000000000000nat);
    lemma_sleb128_len_bound(v as int, 10);
    lemma_sleb128_roundtrip(v as int);
}

proof fn lemma_byte_split(x: u64)
    ensures
        (x & 0x7f) as u8 as int == x as int % 128,
        (x >> 7) as int == x as int / 128,
{
    assert((x & 0x7f) == x % 128) by (bit_vector);
    assert((x >> 7) == x / 128) by (bit_vector);
}

proof fn lemma_set_high(b: u8)
    requires
        b < 128,
    ensures
        (b | 0x80) as int == b as int + 128,
{
    assert(b < 128 ==> (b | 0x80) == b + 128) by (bit_vector);
}

proof fn lemma_signed_split(x: i64)
    ensures
        (x & 0x7f) as u8 as int == x as int % 128,
        (x >> 7) as int == x as int / 128,
{
    let lo = x & 0x7f;
    let hi = x >> 7;
    assert(0 <= lo < 128) by (bit_vector) requires lo == x & 0x7f;
    assert(hi * 128 + lo == x) by (bit_vector) requires lo == x & 0x7f, hi == x >> 7;
    assert((x & 0x7f) as u8 == lo as u8);
}

/// Append the unsigned LEB128 encoding of `val` to `buf`.
pub fn write_uleb128(buf: &mut Vec<u8>, val: u64)
    ensures
        final(buf)@ == old(buf)@ + uleb128(val as nat),
{
    let ghost start = buf@;
    let ghost v0 = val;
    let mut val = val;
    loop
        invariant_except_break
            buf@ + uleb128(val as nat) == start + uleb128(v0 as nat),
        invariant
            start == old(buf)@,
        ensures
            buf@ == start + uleb128(v0 as nat),
        decreases val,
    {
        let ghost prev = val;
        let byte = (val & 0x7f) as u8;
        val = val >> 7;
        proof {
            lemma_byte_split(prev);
        }
        if val != 0 {
            proof {
                lemma_set_high(byte);
            }
            buf.push(byte | 0x80);
            assert(buf@ + uleb128(val as nat) == start + uleb128(v0 as nat)) by {
                assert(uleb128(prev as nat) == seq![(byte | 0x80)] + uleb128(val as nat));
            }
        } else {
            buf.push(byte);
            assert(uleb128(prev as nat) == seq![byte]);
            assert(buf@ == start + uleb128(v0 as nat));
            break;
        }
    }
}

proof fn lemma_bit6(b: u8)
    requires
        b < 128,
    ensures
        ((b & 0x40) == 0) == (b < 64),
{
    assert(b < 128 ==> (((b & 0x40) == 0) == (b < 64))) by (bit_vector);
}

/// Append the signed LEB128 encoding of `val` to `buf`.
pub fn write_sleb128(buf: &mut Vec<u8>, val: i64)
    ensures
        final(buf)@ == old(buf)@ + sleb128(val as int),
{
    let ghost start = buf@;
    let ghost v0 = val;
    let mut val = val;
    loop
        invariant_except_break
            buf@ + sleb128(val as int) == start + sleb128(v0 as int),
        invariant
            start == old(buf)@,
        ensures
            buf@ == start + sleb128(v0 as int),
        decreases sleb_measure(val as int),
    {
        let ghost prev = val;
        let byte = (val & 0x7f) as u8;
        val = val >> 7;
        proof {
            lemma_signed_split(prev);
            lemma_bit6(byte);
        }
        let more = !((val == 0 && (byte & 0x40) == 0) || (val == -1 && (byte & 0x40) != 0));
        if more {
            proof {
                lemma_set_high(byte);
            }
            buf.push(byte | 0x80);
            assert(sleb128(prev as int) == seq![(byte | 0x80)] + sleb128(val as int));
        } else {
            buf.push(byte);
            assert(sleb128(prev as int) == seq![byte]);
            break;
        }
    }
}

} // verus!
