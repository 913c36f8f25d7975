//! Little-endian integer encoding shared by the binary formats (ABI headers,
//! module libraries, machine code and executable images).

use vstd::prelude::*;

verus! {

/// The `n` little-endian bytes of `v` (taken modulo `256^n`).
pub open spec fn le_bytes(v: nat, n: nat) -> Seq<u8>
    decreases n,
{
    if n == 0 {
        Seq::empty()
    } else {
        seq![(v % 256) as u8] + le_bytes(v / 256, (n - 1) as nat)
    }
}

/// The value of a little-endian byte sequence.
pub open spec fn le_value(s: Seq<u8>) -> nat
    decreases s.len(),
{
    if s.len() == 0 {
        0
    } else {
        s[0] as nat + 256 * le_value(s.drop_first())
    }
}

/// `256^n`.
pub open spec fn pow256(n: nat) -> nat
    decreases n,
{
    if n == 0 { 1 } else { 256 * pow256((n - 1) as nat) }
}

pub proof fn lemma_le_bytes_len(v: nat, n: nat)
    ensures
        le_bytes(v, n).len() == n,
    decreases n,
{
    if n > 0 {
        lemma_le_bytes_len(v / 256, (n - 1) as nat);
    }
}

/// Decoding the encoding of a value that fits gives the value back.
pub proof fn lemma_le_roundtrip(v: nat, n: nat)
    requires
        v < pow256(n),
    ensures
        le_value(le_bytes(v, n)) == v,
        le_bytes(v, n).len() == n,
    decreases n,
{
    lemma_le_bytes_len(v, n);
    if n > 0 {
        let rest = (n - 1) as nat;
        assert(v / 256 < pow256(rest)) by (nonlinear_arith)
            requires v < 256 * pow256(rest);
        lemma_le_roundtrip(v / 256, rest);
        let s = le_bytes(v, n);
        assert(s.drop_first() =~= le_bytes(v / 256, rest));
        assert(v == v % 256 + 256 * (v / 256)) by (nonlinear_arith);
    }
}

/// Encoding the value of a byte sequence gives the sequence back.
pub proof fn lemma_le_value_roundtrip(s: Seq<u8>)
    ensures
        le_bytes(le_value(s), s.len()) == s,
        le_value(s) < pow256(s.len()),
    decreases s.len(),
{
    if s.len() > 0 {
        let rest = s.drop_first();
        lemma_le_value_roundtrip(rest);
        let v = le_value(s);
        let r = le_value(rest);
        assert(v % 256 == s[0] as nat && v / 256 == r) by (nonlinear_arith)
            requires v == s[0] as nat + 256 * r, 0 <= s[0] < 256, r >= 0;
        assert(le_bytes(v, s.len()) =~= s);
        assert(v < 256 * pow256((s.len() - 1) as nat)) by (nonlinear_arith)
            requires v == s[0] as nat + 256 * r, 0 <= s[0] < 256, r < pow256((s.len() - 1) as nat);
    }
}

pub proof fn lemma_pow256_values()
    ensures
        pow256(0) == 1,
        pow256(1) == 0x100,
        pow256(2) == 0x10000,
        pow256(4) == 0x1_0000_0000,
        pow256(8) == 0x1_0000_0000_0000_0000,
{
    reveal_with_fuel(pow256, 9);
}

/// Appends the `n` little-endian bytes of `v`.
pub fn push_le(out: &mut Vec<u8>, v: u64, n: usize)
    requires
        n <= 8,
    ensures
        final(out)@ == old(out)@ + le_bytes(v as nat, n as nat),
{
    let mut value = v;
    let mut i: usize = 0;
    while i < n
        invariant
            i <= n <= 8,
            out@ + le_bytes(value as nat, (n - i) as nat) == old(out)@ + le_bytes(v as nat, n as nat),
        decreases n - i,
    {
        let ghost before = out@;
        out.push((value % 256) as u8);
        assert(before + le_bytes(value as nat, (n - i) as nat) =~= out@ + le_bytes(
            (value / 256) as nat,
            (n - i - 1) as nat,
        ));
        value = value / 256;
        i += 1;
    }
    assert(le_bytes(value as nat, 0) =~= Seq::<u8>::empty());
    assert(out@ + Seq::<u8>::empty() =~= out@);
}

/// Appends all of `s`.
pub fn extend_bytes(out: &mut Vec<u8>, s: &[u8])
    ensures
        final(out)@ == old(out)@ + s@,
{
    let mut i: usize = 0;
    while i < s.len()
        invariant
            i <= s@.len(),
            out@ == old(out)@ + s@.take(i as int),
        decreases s@.len() - i,
    {
        out.push(s[i]);
        assert(old(out)@ + s@.take(i as int) + seq![s@[i as int]] =~= old(out)@ + s@.take(i + 1));
        i += 1;
    }
    assert(s@.take(s@.len() as int) =~= s@);
}

/// Reads the `n` little-endian bytes starting at `start`.
pub fn read_le(bytes: &[u8], start: usize, n: usize) -> (v: u64)
    requires
        n <= 8,
        start + n <= bytes@.len(),
    ensures
        v as nat == le_value(bytes@.subrange(start as int, start + n)),
{
    let ghost s = bytes@.subrange(start as int, start + n);
    proof {
        lemma_le_value_roundtrip(s);
        lemma_pow256_values();
        lemma_pow256_monotone(n as nat, 8);
    }
    let len = bytes.len();
    let mut value: u64 = 0;
    let mut i: usize = n;
    while i > 0
        invariant
            i <= n <= 8,
            start + n <= bytes@.len(),
            len == bytes@.len(),
            s == bytes@.subrange(start as int, start + n),
            value as nat == le_value(s.subrange(i as int, n as int)),
            le_value(s.subrange(i as int, n as int)) < pow256((n - i) as nat),
        decreases i,
    {
        let b = bytes[start + i - 1];
        let ghost tail = s.subrange(i as int, n as int);
        let ghost ext = s.subrange(i - 1, n as int);
        assert(ext.drop_first() =~= tail);
        assert(ext[0] == b);
        proof {
            lemma_pow256_monotone((n - i) as nat, 7);
            assert(value * 256 + b < 256 * pow256((n - i) as nat)) by (nonlinear_arith)
                requires value < pow256((n - i) as nat), b < 256;
            assert(256 * pow256((n - i) as nat) <= 0x1_0000_0000_0000_0000) by (nonlinear_arith)
                requires pow256((n - i) as nat) <= pow256(7), pow256(7) == 0x100_0000_0000_0000;
        }
        value = value * 256 + b as u64;
        i -= 1;
    }
    assert(s.subrange(0, n as int) =~= s);
    value
}

pub proof fn lemma_pow256_monotone(a: nat, b: nat)
    requires
        a <= b,
    ensures
        pow256(a) <= pow256(b),
        pow256(7) == 0x100_0000_0000_0000,
    decreases b,
{
    reveal_with_fuel(pow256, 8);
    if a < b {
        lemma_pow256_monotone(a, (b - 1) as nat);
    }
}

} // verus!
