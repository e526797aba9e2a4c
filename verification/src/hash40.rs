//! The 40-bit string hash that the archive uses in place of path strings.
//!
//! A [`Hash40`] holds the CRC-32 of a string in its low 32 bits and the length of the string in
//! the 8 bits above. Because the CRC of a concatenation is a function of the CRCs and the lengths
//! of the parts, hashes of paths can be joined and trimmed without the strings at hand.

use vstd::prelude::*;
use vstd::utf8::encode_utf8;

verus! {

/// Reflected CRC-32 polynomial.
pub const POLY: u32 = 0xEDB88320;

/// One bit of the CRC-32 shift register.
pub open spec fn crc_bit(c: u32) -> u32 {
    if c & 1 == 1 {
        (c >> 1) ^ POLY
    } else {
        c >> 1
    }
}

/// Runs the shift register for `n` bits.
pub open spec fn crc_bits(c: u32, n: nat) -> u32
    decreases n,
{
    if n == 0 {
        c
    } else {
        crc_bit(crc_bits(c, (n - 1) as nat))
    }
}

/// The register after it has consumed the byte `b`.
pub open spec fn crc_byte(c: u32, b: u8) -> u32 {
    crc_bits(c ^ (b as u32), 8)
}

/// The register after it has consumed the bytes `s`, first byte first.
#[verifier::opaque]
pub open spec fn crc_feed(c: u32, s: Seq<u8>) -> u32
    decreases s.len(),
{
    if s.len() == 0 {
        c
    } else {
        crc_byte(crc_feed(c, s.drop_last()), s.last())
    }
}

/// CRC-32 of a byte string.
#[verifier::opaque]
pub open spec fn crc32(s: Seq<u8>) -> u32 {
    crc_feed(0xFFFF_FFFF, s) ^ 0xFFFF_FFFF
}

/// The register that one step turns into `c`.
pub open spec fn uncrc_bit(c: u32) -> u32 {
    if c & 0x8000_0000 != 0 {
        ((c ^ POLY) << 1) | 1
    } else {
        c << 1
    }
}

pub open spec fn uncrc_bits(c: u32, n: nat) -> u32
    decreases n,
{
    if n == 0 {
        c
    } else {
        uncrc_bit(uncrc_bits(c, (n - 1) as nat))
    }
}

pub open spec fn uncrc_byte(c: u32, b: u8) -> u32 {
    uncrc_bits(c, 8) ^ (b as u32)
}

/// The register that consuming `s` turns into `c`.
pub open spec fn uncrc_feed(c: u32, s: Seq<u8>) -> u32
    decreases s.len(),
{
    if s.len() == 0 {
        c
    } else {
        uncrc_feed(uncrc_byte(c, s.last()), s.drop_last())
    }
}

/// The register after `n` zero bytes.
pub open spec fn crc_zeros(c: u32, n: nat) -> u32
    decreases n,
{
    if n == 0 {
        c
    } else {
        crc_bits(crc_zeros(c, (n - 1) as nat), 8)
    }
}

proof fn lemma_crc_bit_linear(a: u32, b: u32)
    ensures
        crc_bit(a ^ b) == crc_bit(a) ^ crc_bit(b),
{
    assert(({
        let c = a ^ b;
        if c & 1 == 1 { (c >> 1) ^ 0xEDB88320u32 } else { c >> 1 }
    }) == (if a & 1 == 1 { (a >> 1) ^ 0xEDB88320u32 } else { a >> 1 }) ^ (if b & 1 == 1 {
        (b >> 1) ^ 0xEDB88320u32
    } else {
        b >> 1
    })) by (bit_vector);
}

proof fn lemma_uncrc_bit(c: u32)
    ensures
        uncrc_bit(crc_bit(c)) == c,
{
    assert(({
        let d = if c & 1 == 1 { (c >> 1) ^ 0xEDB88320u32 } else { c >> 1 };
        if d & 0x8000_0000 != 0 { ((d ^ 0xEDB88320u32) << 1) | 1 } else { d << 1 }
    }) == c) by (bit_vector);
}

proof fn lemma_crc_bits_linear(a: u32, b: u32, n: nat)
    ensures
        crc_bits(a ^ b, n) == crc_bits(a, n) ^ crc_bits(b, n),
    decreases n,
{
    if n > 0 {
        lemma_crc_bits_linear(a, b, (n - 1) as nat);
        lemma_crc_bit_linear(crc_bits(a, (n - 1) as nat), crc_bits(b, (n - 1) as nat));
    }
}

proof fn lemma_uncrc_bits_shift(c: u32, n: nat)
    ensures
        uncrc_bits(uncrc_bit(c), n) == uncrc_bit(uncrc_bits(c, n)),
    decreases n,
{
    if n > 0 {
        lemma_uncrc_bits_shift(c, (n - 1) as nat);
    }
}

proof fn lemma_uncrc_bits(c: u32, n: nat)
    ensures
        uncrc_bits(crc_bits(c, n), n) == c,
    decreases n,
{
    if n > 0 {
        let m = (n - 1) as nat;
        lemma_uncrc_bits(c, m);
        lemma_uncrc_bit(crc_bits(c, m));
        lemma_uncrc_bits_shift(crc_bits(c, n), m);
    }
}

proof fn lemma_xor(a: u32, b: u32, c: u32)
    ensures
        (a ^ b) ^ b == a,
        (a ^ b) ^ c == (a ^ c) ^ b,
        a ^ b == b ^ a,
        (a ^ b) ^ c == a ^ (b ^ c),
        a ^ 0 == a,
{
    assert((a ^ b) ^ b == a && (a ^ b) ^ c == (a ^ c) ^ b && a ^ b == b ^ a && (a ^ b) ^ c == a ^ (b
        ^ c) && a ^ 0 == a) by (bit_vector);
}

/// Feeding two strings one after the other is feeding their concatenation.
pub proof fn lemma_crc_feed_concat(c: u32, a: Seq<u8>, b: Seq<u8>)
    ensures
        crc_feed(c, a + b) == crc_feed(crc_feed(c, a), b),
    decreases b.len(),
{
    reveal(crc_feed);
    if b.len() == 0 {
        assert(a + b =~= a);
    } else {
        assert((a + b).drop_last() =~= a + b.drop_last());
        lemma_crc_feed_concat(c, a, b.drop_last());
    }
}

/// `uncrc_feed` takes back what `crc_feed` consumed.
pub proof fn lemma_uncrc_feed(c: u32, s: Seq<u8>)
    ensures
        uncrc_feed(crc_feed(c, s), s) == c,
    decreases s.len(),
{
    reveal(crc_feed);
    if s.len() > 0 {
        let prev = crc_feed(c, s.drop_last());
        lemma_uncrc_bits(prev ^ (s.last() as u32), 8);
        lemma_xor(prev, s.last() as u32, 0);
        lemma_uncrc_feed(c, s.drop_last());
    }
}

proof fn lemma_crc_feed_linear(a: u32, b: u32, s: Seq<u8>)
    ensures
        crc_feed(a ^ b, s) == crc_zeros(a, s.len()) ^ crc_feed(b, s),
    decreases s.len(),
{
    reveal(crc_feed);
    if s.len() > 0 {
        let t = s.drop_last();
        let x = s.last() as u32;
        lemma_crc_feed_linear(a, b, t);
        let z = crc_zeros(a, t.len());
        let f = crc_feed(b, t);
        lemma_xor(z, f, x);
        lemma_crc_bits_linear(z, f ^ x, 8);
    }
}

/// The CRC of a concatenation from the CRCs of the parts.
pub proof fn lemma_crc32_concat(a: Seq<u8>, b: Seq<u8>)
    ensures
        crc32(a + b) == crc_zeros(crc32(a), b.len()) ^ crc32(b),
        crc32(a + b) == crc_feed(crc32(a) ^ 0xFFFF_FFFF, b) ^ 0xFFFF_FFFF,
{
    reveal(crc32);
    let i = 0xFFFF_FFFFu32;
    lemma_crc_feed_concat(i, a, b);
    lemma_xor(crc_feed(i, a), i, i);
    lemma_crc_feed_linear(crc32(a), i, b);
    lemma_xor(crc_zeros(crc32(a), b.len()), crc_feed(i, b), i);
}

/// A CRC-32 and an 8-bit length, packed into the low 40 bits of a word.
#[derive(Copy, Clone, Debug, PartialEq, Eq, PartialOrd, Ord, Hash, Structural)]
pub struct Hash40(pub u64);

/// The word that holds `crc` in its low 32 bits and `len` above.
pub open spec fn pack40(crc: u32, len: u8) -> u64 {
    (len * 0x1_0000_0000 + crc) as u64
}

/// The hash of a byte string.
#[verifier::opaque]
pub open spec fn hash40(s: Seq<u8>) -> Hash40 {
    Hash40(pack40(crc32(s), (s.len() % 256) as u8))
}

/// The hash of a path string.
pub open spec fn hash40_str(s: Seq<char>) -> Hash40 {
    hash40(encode_utf8(s))
}

proof fn lemma_pack40(crc: u32, len: u8)
    ensures
        Hash40(pack40(crc, len)).spec_crc32() == crc,
        Hash40(pack40(crc, len)).spec_length() == len,
        pack40(crc, len) < 0x100_0000_0000,
{
}

impl Hash40 {
    /// CRC-32 part of the hash.
    pub open spec fn spec_crc32(self) -> u32 {
        (self.0 % 0x1_0000_0000) as u32
    }

    /// Length part of the hash.
    pub open spec fn spec_length(self) -> u8 {
        (self.0 / 0x1_0000_0000 % 0x100) as u8
    }

    /// Nothing is set above the low 40 bits.
    pub open spec fn wf(self) -> bool {
        self.0 < 0x100_0000_0000
    }

    pub fn from_raw(raw: u64) -> (r: Hash40)
        ensures
            r == Hash40(raw),
    {
        Hash40(raw)
    }

    pub fn raw(self) -> (r: u64)
        ensures
            r == self.0,
    {
        self.0
    }

    pub fn crc32(self) -> (r: u32)
        ensures
            r == self.spec_crc32(),
    {
        (self.0 % 0x1_0000_0000) as u32
    }

    pub fn length(self) -> (r: u8)
        ensures
            r == self.spec_length(),
    {
        (self.0 / 0x1_0000_0000 % 0x100) as u8
    }

    /// Packs a CRC-32 and a length.
    pub fn from_parts(crc: u32, len: u8) -> (r: Hash40)
        ensures
            r.0 == pack40(crc, len),
            r.spec_crc32() == crc,
            r.spec_length() == len,
            r.wf(),
    {
        Hash40((len as u64) * 0x1_0000_0000 + crc as u64)
    }

    /// Hash of a string.
    pub fn const_new(s: &str) -> (r: Hash40)
        ensures
            r == hash40_str(s@),
    {
        Hash40::const_new_bytes(s.as_bytes())
    }

    /// Hash of a byte string.
    pub fn const_new_bytes(s: &[u8]) -> (r: Hash40)
        ensures
            r == hash40(s@),
    {
        proof {
            reveal(crc32);
            reveal(hash40);
        }
        let crc: u32 = feed(0xFFFF_FFFF, s) ^ 0xFFFF_FFFF;
        let len: u8 = (s.len() % 256) as u8;
        Hash40::from_parts(crc, len)
    }

    /// Appends a string to what the hash stands for.
    pub fn const_with(self, s: &str) -> (r: Hash40)
        ensures
            r == spec_with(self, encode_utf8(s@)),
    {
        self.const_with_bytes(s.as_bytes())
    }

    /// Appends bytes to what the hash stands for.
    pub fn const_with_bytes(self, s: &[u8]) -> (r: Hash40)
        ensures
            r == spec_with(self, s@),
    {
        proof {
            reveal(spec_with);
        }
        let crc: u32 = feed(self.crc32() ^ 0xFFFF_FFFF, s) ^ 0xFFFF_FFFF;
        let len: u8 = self.length().wrapping_add((s.len() % 256) as u8);
        Hash40::from_parts(crc, len)
    }

    /// Appends what another hash stands for.
    pub fn const_with_hash(self, other: Hash40) -> (r: Hash40)
        ensures
            r == spec_with_hash(self, other),
    {
        proof {
            reveal(spec_with_hash);
        }
        let crc: u32 = feed_zeros(self.crc32(), other.length()) ^ other.crc32();
        let len: u8 = self.length().wrapping_add(other.length());
        Hash40::from_parts(crc, len)
    }

    /// Takes a string off the end of what the hash stands for.
    pub fn const_trim_trailing(self, s: &str) -> (r: Hash40)
        ensures
            r == spec_trim(self, encode_utf8(s@)),
    {
        self.const_trim_trailing_bytes(s.as_bytes())
    }

    /// Takes bytes off the end of what the hash stands for.
    pub fn const_trim_trailing_bytes(self, s: &[u8]) -> (r: Hash40)
        ensures
            r == spec_trim(self, s@),
    {
        proof {
            reveal(spec_trim);
        }
        let crc: u32 = unfeed(self.crc32() ^ 0xFFFF_FFFF, s) ^ 0xFFFF_FFFF;
        let len: u8 = self.length().wrapping_sub((s.len() % 256) as u8);
        Hash40::from_parts(crc, len)
    }
}

/// The hash of `a + s` from the hash of `a`.
#[verifier::opaque]
pub open spec fn spec_with(h: Hash40, s: Seq<u8>) -> Hash40 {
    Hash40(
        pack40(
            crc_feed(h.spec_crc32() ^ 0xFFFF_FFFF, s) ^ 0xFFFF_FFFF,
            ((h.spec_length() + s.len()) % 256) as u8,
        ),
    )
}

/// The hash of `a + b` from the hashes of `a` and `b`.
#[verifier::opaque]
pub open spec fn spec_with_hash(h: Hash40, k: Hash40) -> Hash40 {
    Hash40(
        pack40(
            crc_zeros(h.spec_crc32(), k.spec_length() as nat) ^ k.spec_crc32(),
            ((h.spec_length() + k.spec_length()) % 256) as u8,
        ),
    )
}

/// The hash of `a` from the hash of `a + s`.
#[verifier::opaque]
pub open spec fn spec_trim(h: Hash40, s: Seq<u8>) -> Hash40 {
    Hash40(
        pack40(
            uncrc_feed(h.spec_crc32() ^ 0xFFFF_FFFF, s) ^ 0xFFFF_FFFF,
            ((h.spec_length() - s.len()) % 256) as u8,
        ),
    )
}

/// Appending a string to a hash gives the hash of the concatenation.
pub proof fn law_with(a: Seq<u8>, b: Seq<u8>)
    ensures
        spec_with(hash40(a), b) == hash40(a + b),
{
    reveal(hash40);
    reveal(spec_with);
    lemma_pack40(crc32(a), (a.len() % 256) as u8);
    lemma_crc32_concat(a, b);
    assert((a.len() % 256 + b.len()) % 256 == (a.len() + b.len()) % 256);
}

/// Joining the hashes of two strings gives the hash of the concatenation. The second string has
/// to fit the 8 bits that its hash keeps of its length.
pub proof fn law_with_hash(a: Seq<u8>, b: Seq<u8>)
    requires
        b.len() < 256,
    ensures
        spec_with_hash(hash40(a), hash40(b)) == hash40(a + b),
{
    reveal(hash40);
    reveal(spec_with_hash);
    lemma_pack40(crc32(a), (a.len() % 256) as u8);
    lemma_pack40(crc32(b), (b.len() % 256) as u8);
    lemma_crc32_concat(a, b);
    assert((a.len() % 256 + b.len()) % 256 == (a.len() + b.len()) % 256);
}

/// Trimming takes back what appending did.
pub proof fn law_trim(a: Seq<u8>, b: Seq<u8>)
    ensures
        spec_trim(hash40(a + b), b) == hash40(a),
{
    reveal(hash40);
    reveal(spec_trim);
    reveal(crc32);
    let i = 0xFFFF_FFFFu32;
    lemma_pack40(crc32(a + b), ((a + b).len() % 256) as u8);
    lemma_crc_feed_concat(i, a, b);
    lemma_xor(crc_feed(i, a + b), i, i);
    lemma_uncrc_feed(crc_feed(i, a), b);
    assert(((a.len() + b.len()) % 256 - b.len()) % 256 == a.len() % 256);
}

/// A hash takes up 40 bits, the length above the checksum.
pub proof fn law_hash40_layout(s: Seq<u8>)
    ensures
        hash40(s).wf(),
        hash40(s).spec_crc32() == crc32(s),
        hash40(s).spec_length() == s.len() % 256,
        hash40(s).0 == (s.len() % 256) * 0x1_0000_0000 + crc32(s),
{
    reveal(hash40);
    lemma_pack40(crc32(s), (s.len() % 256) as u8);
}

fn step(c: u32) -> (r: u32)
    ensures
        r == crc_bits(c, 8),
{
    let mut r: u32 = c;
    for i in 0..8u32
        invariant
            r == crc_bits(c, i as nat),
    {
        if r & 1 == 1 {
            r = (r >> 1) ^ POLY;
        } else {
            r = r >> 1;
        }
    }
    r
}

fn unstep(c: u32) -> (r: u32)
    ensures
        r == uncrc_bits(c, 8),
{
    let mut r: u32 = c;
    for i in 0..8u32
        invariant
            r == uncrc_bits(c, i as nat),
    {
        if r & 0x8000_0000 != 0 {
            r = ((r ^ POLY) << 1) | 1;
        } else {
            r = r << 1;
        }
    }
    r
}

fn feed(c: u32, s: &[u8]) -> (r: u32)
    ensures
        r == crc_feed(c, s@),
{
    proof {
        reveal(crc_feed);
    }
    let mut r: u32 = c;
    for i in 0..s.len()
        invariant
            r == crc_feed(c, s@.take(i as int)),
    {
        proof {
            reveal(crc_feed);
        }
        r = step(r ^ (s[i] as u32));
        proof {
            assert(s@.take(i + 1).drop_last() =~= s@.take(i as int));
        }
    }
    proof {
        assert(s@.take(s@.len() as int) =~= s@);
    }
    r
}

fn unfeed(c: u32, s: &[u8]) -> (r: u32)
    ensures
        r == uncrc_feed(c, s@),
{
    let mut r: u32 = c;
    let mut i: usize = s.len();
    proof {
        assert(s@.take(s@.len() as int) =~= s@);
    }
    while i > 0
        invariant
            i <= s@.len(),
            uncrc_feed(r, s@.take(i as int)) == uncrc_feed(c, s@),
        decreases i,
    {
        proof {
            assert(s@.take(i as int).drop_last() =~= s@.take(i - 1));
        }
        i -= 1;
        r = unstep(r) ^ (s[i] as u32);
    }
    r
}

fn feed_zeros(c: u32, n: u8) -> (r: u32)
    ensures
        r == crc_zeros(c, n as nat),
{
    let mut r: u32 = c;
    for i in 0..n
        invariant
            r == crc_zeros(c, i as nat),
    {
        r = step(r);
    }
    r
}

/// Whatever is hashed, appended or trimmed, a hash takes up 40 bits.
pub proof fn law_hash40_wf(h: Hash40, k: Hash40, s: Seq<u8>)
    ensures
        hash40(s).wf(),
        spec_with(h, s).wf(),
        spec_with_hash(h, k).wf(),
        spec_trim(h, s).wf(),
{
    reveal(hash40);
    reveal(spec_with);
    reveal(spec_with_hash);
    reveal(spec_trim);
}

} // verus!
