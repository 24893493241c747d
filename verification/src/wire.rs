//! The wire-level specification of the class-file format's byte primitives:
//! unsigned big-endian integers of 1, 2, 4 or 8 bytes, and the 1-based
//! reference encoding used by symbol-table indices.

use vstd::prelude::*;

verus! {

/// 256 raised to the `n`th power: the number of values an `n`-byte
/// big-endian unsigned integer can take.
pub open spec fn pow256(n: nat) -> nat
    decreases n,
{
    if n == 0 {
        1
    } else {
        256 * pow256((n - 1) as nat)
    }
}

/// The big-endian encoding of `v` in exactly `n` bytes (most significant
/// byte first). Meaningful when `v < pow256(n)`.
pub open spec fn be_enc(v: nat, n: nat) -> Seq<u8>
    decreases n,
{
    if n == 0 {
        Seq::empty()
    } else {
        be_enc(v / 256, (n - 1) as nat).push((v % 256) as u8)
    }
}

/// A one-byte value on the wire.
pub open spec fn enc_u8(v: u8) -> Seq<u8> {
    be_enc(v as nat, 1)
}

/// A two-byte big-endian value on the wire.
pub open spec fn enc_u16(v: u16) -> Seq<u8> {
    be_enc(v as nat, 2)
}

/// A four-byte big-endian value on the wire.
pub open spec fn enc_u32(v: u32) -> Seq<u8> {
    be_enc(v as nat, 4)
}

/// An eight-byte big-endian value on the wire.
pub open spec fn enc_u64(v: u64) -> Seq<u8> {
    be_enc(v as nat, 8)
}

/// Normalization applied to a non-nullable symbol-table reference when it
/// is read: the 1-based wire value becomes a 0-based model index.
pub open spec fn decode_ref(w: u16) -> u16
    recommends
        w >= 1,
{
    (w - 1) as u16
}

/// The inverse adjustment applied when a non-nullable reference is written
/// back out: the 0-based model index becomes a 1-based wire value.
pub open spec fn encode_ref(r: u16) -> u16
    recommends
        r <= 0xFFFE,
{
    (r + 1) as u16
}

/// Normalization of a nullable reference: the sentinel 0 is preserved,
/// every other wire value is shifted to a 0-based index.
pub open spec fn decode_nullable_ref(w: u16) -> u16 {
    if w == 0 {
        0
    } else {
        (w - 1) as u16
    }
}

/// The inverse adjustment for a nullable reference: 0 stays 0.
pub open spec fn encode_nullable_ref(r: u16) -> u16
    recommends
        r <= 0xFFFE,
{
    if r == 0 {
        0
    } else {
        (r + 1) as u16
    }
}

/// The wire form of a non-nullable reference held in the model.
pub open spec fn enc_ref(r: u16) -> Seq<u8> {
    enc_u16(encode_ref(r))
}

/// The wire form of a nullable reference held in the model.
pub open spec fn enc_nullable_ref(r: u16) -> Seq<u8> {
    enc_u16(encode_nullable_ref(r))
}

/// The values of `pow256` for every width this format uses.
pub proof fn lemma_pow256_values()
    ensures
        pow256(0) == 1,
        pow256(1) == 0x100,
        pow256(2) == 0x10000,
        pow256(3) == 0x100_0000,
        pow256(4) == 0x1_0000_0000,
        pow256(5) == 0x100_0000_0000,
        pow256(6) == 0x1_0000_0000_0000,
        pow256(7) == 0x100_0000_0000_0000,
        pow256(8) == 0x1_0000_0000_0000_0000,
{
    reveal_with_fuel(pow256, 9);
}

/// `pow256` grows with its argument.
pub proof fn lemma_pow256_le(m: nat, n: nat)
    requires
        m <= n,
    ensures
        pow256(m) <= pow256(n),
    decreases n,
{
    if m < n {
        lemma_pow256_le(m, (n - 1) as nat);
        assert(pow256(n) == 256 * pow256((n - 1) as nat));
        assert(pow256((n - 1) as nat) <= 256 * pow256((n - 1) as nat)) by (nonlinear_arith)
            requires
                pow256((n - 1) as nat) >= 0,
        ;
    }
}

/// A one-byte encoding is exactly that byte.
pub proof fn lemma_enc_u8_single(b: u8)
    ensures
        enc_u8(b) == seq![b],
{
    reveal_with_fuel(be_enc, 2);
    assert(enc_u8(b) =~= seq![b]);
}

/// Splitting a subrange of a byte sequence at an interior point.
pub proof fn lemma_subrange_split(s: Seq<u8>, a: int, b: int, c: int)
    requires
        0 <= a <= b <= c <= s.len(),
    ensures
        s.subrange(a, c) == s.subrange(a, b) + s.subrange(b, c),
{
    assert(s.subrange(a, c) =~= s.subrange(a, b) + s.subrange(b, c));
}

/// Extending a subrange by the single byte that follows it.
pub proof fn lemma_subrange_push(s: Seq<u8>, a: int, b: int)
    requires
        0 <= a <= b < s.len(),
    ensures
        s.subrange(a, b + 1) == s.subrange(a, b).push(s[b]),
{
    assert(s.subrange(a, b + 1) =~= s.subrange(a, b).push(s[b]));
}

/// The value of the `n` bytes at `p` in `s`, read as a big-endian unsigned
/// integer. This is the reading dual of `be_enc`.
pub open spec fn be_val(s: Seq<u8>, p: int, n: nat) -> nat
    decreases n,
{
    if n == 0 {
        0
    } else {
        be_val(s, p, (n - 1) as nat) * 256 + (s[p + n - 1] as nat)
    }
}

/// A big-endian encoding in `n` bytes is `n` bytes long.
pub proof fn lemma_be_enc_len(v: nat, n: nat)
    ensures
        be_enc(v, n).len() == n,
    decreases n,
{
    if n > 0 {
        lemma_be_enc_len(v / 256, (n - 1) as nat);
    }
}

/// Reading back an encoding yields the encoded value: where a stream holds
/// `be_enc(v, n)`, `be_val` of those bytes is `v`.
pub proof fn lemma_be_val_of_enc(s: Seq<u8>, p: int, v: nat, n: nat)
    requires
        0 <= p,
        p + n <= s.len(),
        v < pow256(n),
        s.subrange(p, p + n) == be_enc(v, n),
    ensures
        be_val(s, p, n) == v,
    decreases n,
{
    if n > 0 {
        lemma_be_enc_len(v, n);
        lemma_be_enc_len(v / 256, (n - 1) as nat);
        assert(s.subrange(p, p + n)[n - 1] == s[p + n - 1]);
        assert(be_enc(v, n)[n - 1] == ((v % 256) as u8));
        assert(s.subrange(p, p + n - 1) =~= s.subrange(p, p + n).subrange(0, n - 1));
        assert(be_enc(v, n).subrange(0, n - 1) =~= be_enc(v / 256, (n - 1) as nat));
        assert(pow256(n) == 256 * pow256((n - 1) as nat));
        vstd::arithmetic::div_mod::lemma_fundamental_div_mod(v as int, 256);
        if v / 256 >= pow256((n - 1) as nat) {
            assert(256 * ((v as int) / 256) >= 256 * pow256((n - 1) as nat)) by (nonlinear_arith)
                requires
                    (v as int) / 256 >= pow256((n - 1) as nat),
            ;
            assert(false);
        }
        lemma_be_val_of_enc(s, p, v / 256, (n - 1) as nat);
    }
}

} // verus!
