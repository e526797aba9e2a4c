//! Strings behind hashes.
//!
//! The slab keeps the paths that hashes stand for, each as a run of components. A component is a
//! string of its own, or another path of the slab that the path continues. Paths are found by the hash
//! in one of 256 buckets: the low 8 bits of the hash select the bucket, the other 32 bits are searched
//! for in it.

use crate::hash40::{
    hash40, hash40_str, law_hash40_layout, law_hash40_wf, law_with, law_with_hash, spec_with, Hash40,
};
use crate::containers::{sort_pairs, sorted_pairs};
use crate::interned_paths::{adds_only, lemma_adds_nothing, lemma_plain_tells, lemma_plain_told, path_names};
use crate::paths::{
    components, is_plain, is_plain_name, joined, lemma_joined_last, parent, path_components, path_parent,
    path_strip_prefix, plain_names, strip_prefix, views,
};
use crate::strings::{encode_utf8_concat, lemma_slash_last};
use std::collections::BTreeMap;
use vstd::prelude::*;
use vstd::utf8::encode_utf8;

verus! {

broadcast use {vstd::laws_cmp::group_laws_cmp, vstd::std_specs::btree::group_btree_axioms};

/// Bytes of text that the slab can hold. It is less than 16 MB, so that ranges fit [`SmolRange`].
pub const HASH_MEMORY_SLAB_SIZE: usize = 0x30_0000;

/// Strings that the slab can hold.
pub const STRING_MEMORY_SLAB_SIZE: usize = 100_000;

/// Buckets of hashes. There is one for each value of the low 8 bits.
pub const HASH_BUCKET_COUNT: usize = 0x100;

/// Hashes that a bucket can hold.
pub const HASH_BUCKET_SIZE: usize = 0xC00;

/// Components that the slab can hold.
pub const INTERNED_PATH_SLAB_SIZE: usize = 1_398_101;

/// Components from this value on stand for paths.
pub const IS_INTERNED_COMPONENT: u32 = 0x80_0000;

/// A 24-bit integer in three bytes, the lowest first.
#[allow(non_camel_case_types)]
#[derive(Copy, Clone, Debug, PartialEq, Eq, Structural)]
pub struct u24 {
    pub lo: u8,
    pub mid: u8,
    pub hi: u8,
}

impl u24 {
    #[verifier::opaque]
    pub open spec fn val(self) -> u32 {
        (self.lo + self.mid * 0x100 + self.hi * 0x1_0000) as u32
    }

    #[verifier::opaque]
    pub open spec fn of(n: u32) -> u24 {
        u24 { lo: (n % 0x100) as u8, mid: (n / 0x100 % 0x100) as u8, hi: (n / 0x1_0000) as u8 }
    }

    pub fn to_u32(self) -> (r: u32)
        ensures
            r == self.val(),
            r < 0x100_0000,
    {
        proof {
            reveal(u24::val);
        }
        self.lo as u32 + self.mid as u32 * 0x100 + self.hi as u32 * 0x1_0000
    }

    pub fn from_u32(n: u32) -> (r: u24)
        requires
            n < 0x100_0000,
        ensures
            r == u24::of(n),
            r.val() == n,
    {
        proof {
            reveal(u24::of);
            law_u24(n, u24::of(n));
        }
        u24 { lo: (n % 0x100) as u8, mid: (n / 0x100 % 0x100) as u8, hi: (n / 0x1_0000) as u8 }
    }
}

/// A 24-bit integer reads back as it was stored, and its bytes as they were read.
pub proof fn law_u24(n: u32, x: u24)
    requires
        n < 0x100_0000,
    ensures
        u24::of(n).val() == n,
        u24::of(x.val()) == x,
        x.val() < 0x100_0000,
{
    reveal(u24::of);
    reveal(u24::val);
    let q = n / 0x100;
    assert(n / 0x1_0000 == q / 0x100);
    assert(q < 0x1_0000);
    let v = x.lo + x.mid * 0x100 + x.hi * 0x1_0000;
    assert(v / 0x1_0000 == x.hi);
    assert(v / 0x100 == x.mid + x.hi * 0x100);
}

/// A start below 16 MB and a length of 8 bits in one word.
#[derive(Copy, Clone, Debug, PartialEq, Eq, Structural)]
pub struct SmolRange(pub u32);

impl SmolRange {
    pub open spec fn of(len: u8, start: u32) -> SmolRange {
        SmolRange((len * 0x100_0000 + start) as u32)
    }

    pub open spec fn spec_len(self) -> int {
        self.0 as int / 0x100_0000
    }

    pub open spec fn spec_start(self) -> int {
        self.0 as int % 0x100_0000
    }

    /// First position behind the range.
    pub open spec fn end(self) -> int {
        self.spec_start() + self.spec_len()
    }

    pub fn new(len: u8, start: u24) -> (r: SmolRange)
        ensures
            r == SmolRange::of(len, start.val()),
            r.spec_len() == len,
            r.spec_start() == start.val(),
    {
        SmolRange(len as u32 * 0x100_0000 + start.to_u32())
    }

    pub fn len(self) -> (r: u8)
        ensures
            r == self.spec_len(),
    {
        (self.0 / 0x100_0000) as u8
    }

    pub fn start(self) -> (r: u24)
        ensures
            r.val() == self.spec_start(),
    {
        u24::from_u32(self.0 % 0x100_0000)
    }

    /// First position of the range, and the first one behind it.
    pub fn range(&self) -> (r: (u32, u32))
        ensures
            r.0 == self.spec_start(),
            r.1 == self.end(),
    {
        (self.start().to_u32(), self.start().to_u32() + self.len() as u32)
    }
}

/// A range keeps its length and its start.
pub proof fn law_smol_range(len: u8, start: u32)
    requires
        start < 0x100_0000,
    ensures
        SmolRange::of(len, start).spec_len() == len,
        SmolRange::of(len, start).spec_start() == start,
{
}

/// An entry of a bucket: the hash without its low 8 bits, and the components of its path.
#[derive(Copy, Clone, Debug, PartialEq, Eq, Structural)]
pub struct HashLookupKey {
    pub shifted_hash: u32,
    pub range: SmolRange,
}

#[derive(Copy, Clone, Debug, PartialEq, Eq, Structural)]
pub struct MemoryUsageFraction {
    pub numer: usize,
    pub denom: usize,
}

/// How much of each part of the slab is in use, in bytes.
#[derive(Copy, Clone, Debug, PartialEq, Eq, Structural)]
pub struct MemoryUsageReport {
    pub total_blob_size: usize,
    pub bytes: MemoryUsageFraction,
    pub strings: MemoryUsageFraction,
    pub components: MemoryUsageFraction,
    pub hashes: MemoryUsageFraction,
}

/// What a [`HashMemorySlab`] holds.
pub struct SlabView {
    pub bytes: Seq<u8>,
    pub strings: Seq<SmolRange>,
    pub components: Seq<u24>,
    pub buckets: Seq<Seq<HashLookupKey>>,
    /// Are the buckets sorted?
    pub finalized: bool,
    /// What was in the memory of the slab before its parts were filled. There are zeros behind its end.
    pub memory: Seq<u8>,
    /// The metadata that the slab was read with, if it or the memory tells of more than there is space for.
    /// The parts are empty then.
    pub overfull: Option<Seq<u8>>,
}

/// The bucket of a hash.
pub open spec fn bucket_of(hash: Hash40) -> int {
    hash.0 as int % 0x100
}

/// The part of a hash that is searched for in its bucket.
pub open spec fn shifted(hash: Hash40) -> u32 {
    (hash.0 / 0x100 % 0x1_0000_0000) as u32
}

/// The bucket of the entry with this index.
pub open spec fn bucket_part(idx: int) -> int {
    idx / 0xC00
}

/// The position in its bucket of the entry with this index.
pub open spec fn slot_part(idx: int) -> int {
    idx % 0xC00
}

impl SlabView {
    /// Is there an entry with this index?
    pub open spec fn has_entry(self, idx: int) -> bool {
        &&& 0 <= idx < HASH_BUCKET_COUNT * HASH_BUCKET_SIZE
        &&& slot_part(idx) < self.buckets[bucket_part(idx)].len()
    }

    /// The entry with this index.
    pub open spec fn entry(self, idx: int) -> HashLookupKey {
        self.buckets[bucket_part(idx)][slot_part(idx)]
    }

    /// The hash of the entry with this index.
    pub open spec fn entry_hash(self, idx: int) -> Hash40 {
        Hash40(
            (self.entry(idx).shifted_hash * 0x100 + bucket_part(idx)) as u64,
        )
    }

    /// The bytes of string `i`.
    pub open spec fn string(self, i: int) -> Seq<u8> {
        self.bytes.subrange(self.strings[i].spec_start(), self.strings[i].end())
    }

    /// The strings that components `start..end` come down to.
    pub open spec fn resolve(self, start: nat, end: nat) -> Seq<Seq<u8>>
        decreases end,
    {
        if end <= start {
            Seq::empty()
        } else {
            let c = (end - 1) as nat;
            let x = self.components[c as int].val();
            if x < IS_INTERNED_COMPONENT {
                self.resolve(start, c).push(self.string(x as int))
            } else {
                let r = self.entry(x - IS_INTERNED_COMPONENT).range;
                if r.end() <= c {
                    self.resolve(start, c) + self.resolve(r.spec_start() as nat, r.end() as nat)
                } else {
                    self.resolve(start, c)
                }
            }
        }
    }

    /// The strings that an entry comes down to.
    pub open spec fn resolve_range(self, r: SmolRange) -> Seq<Seq<u8>> {
        self.resolve(r.spec_start() as nat, r.end() as nat)
    }

    /// Component `c` is a string that is there, or a path that is there and lies in front of it.
    pub open spec fn component_ok(self, c: int) -> bool {
        let x = self.components[c].val();
        if x < IS_INTERNED_COMPONENT {
            x < self.strings.len()
        } else {
            let idx = x - IS_INTERNED_COMPONENT;
            self.has_entry(idx) && self.entry(idx).range.end() <= c
        }
    }

    /// No part holds more than it can.
    pub open spec fn within_capacity(self) -> bool {
        &&& self.bytes.len() <= HASH_MEMORY_SLAB_SIZE
        &&& self.strings.len() <= STRING_MEMORY_SLAB_SIZE
        &&& self.components.len() <= INTERNED_PATH_SLAB_SIZE
        &&& self.buckets.len() == HASH_BUCKET_COUNT
        &&& forall|b: int|
            0 <= b < HASH_BUCKET_COUNT ==> (#[trigger] self.buckets[b]).len() <= HASH_BUCKET_SIZE
        &&& self.overfull is None
    }

    /// Everything that is referred to is there.
    pub open spec fn wf(self) -> bool {
        &&& self.within_capacity()
        &&& forall|i: int|
            0 <= i < self.strings.len() ==> (#[trigger] self.strings[i]).end() <= self.bytes.len()
        &&& forall|c: int| 0 <= c < self.components.len() ==> #[trigger] self.component_ok(c)
        &&& forall|b: int, i: int|
            0 <= b < HASH_BUCKET_COUNT && 0 <= i < self.buckets[b].len()
                ==> (#[trigger] self.buckets[b][i]).range.end() <= self.components.len()
    }

    /// The first `n` entries of bucket `b` are sorted, and no two are of the same hash.
    pub open spec fn sorted_bucket(self, b: int, n: int) -> bool {
        forall|i: int, j: int|
            0 <= i < j < n ==> (#[trigger] self.buckets[b][i]).shifted_hash < (
            #[trigger] self.buckets[b][j]).shifted_hash
    }

    /// All buckets are sorted.
    pub open spec fn sorted(self) -> bool {
        forall|b: int|
            0 <= b < HASH_BUCKET_COUNT ==> self.sorted_bucket(b, (#[trigger] self.buckets[b]).len() as int)
    }

    /// Index of the entry with this hash, among the first `n` of its bucket.
    pub open spec fn find_among(self, hash: Hash40, n: int) -> Option<int> {
        let b = bucket_of(hash);
        if exists|i: int| 0 <= i < n && (#[trigger] self.buckets[b][i]).shifted_hash == shifted(hash) {
            let i = choose|i: int|
                0 <= i < n && (#[trigger] self.buckets[b][i]).shifted_hash == shifted(hash);
            Some(b * HASH_BUCKET_SIZE + i)
        } else {
            None
        }
    }

    /// Index of the entry with this hash.
    pub open spec fn find(self, hash: Hash40) -> Option<int> {
        self.find_among(hash, self.buckets[bucket_of(hash)].len() as int)
    }

    /// The strings that a hash stands for.
    pub open spec fn components_of(self, hash: Hash40) -> Option<Seq<Seq<u8>>> {
        match self.find(hash) {
            Some(idx) => Some(self.resolve_range(self.entry(idx).range)),
            None => None,
        }
    }
}

/// Strings joined by slashes.
pub open spec fn join(parts: Seq<Seq<u8>>) -> Seq<u8>
    decreases parts.len(),
{
    if parts.len() == 0 {
        Seq::empty()
    } else if parts.len() == 1 {
        parts[0]
    } else {
        join(parts.drop_last()) + seq![0x2Fu8] + parts.last()
    }
}

pub(crate) proof fn lemma_index(b: int, i: int)
    requires
        0 <= b < HASH_BUCKET_COUNT,
        0 <= i < HASH_BUCKET_SIZE,
    ensures
        bucket_part(b * HASH_BUCKET_SIZE + i) == b,
        slot_part(b * HASH_BUCKET_SIZE + i) == i,
        0 <= b * HASH_BUCKET_SIZE + i < HASH_BUCKET_COUNT * HASH_BUCKET_SIZE,
{
}

/// Keeps the strings that hashes stand for.
pub struct HashMemorySlab {
    bytes: Vec<u8>,
    strings: Vec<SmolRange>,
    components: Vec<u24>,
    buckets: Vec<Vec<HashLookupKey>>,
    finalized: bool,
    memory: Vec<u8>,
    overfull: Option<Vec<u8>>,
}

impl View for HashMemorySlab {
    type V = SlabView;

    closed spec fn view(&self) -> SlabView {
        SlabView {
            bytes: self.bytes@,
            strings: self.strings@,
            components: self.components@,
            buckets: Seq::new(self.buckets@.len(), |b: int| self.buckets@[b]@),
            finalized: self.finalized,
            memory: self.memory@,
            overfull: match self.overfull {
                Some(meta) => Some(meta@),
                None => None,
            },
        }
    }
}

impl SlabView {
    pub open spec fn empty() -> SlabView {
        SlabView {
            bytes: Seq::empty(),
            strings: Seq::empty(),
            components: Seq::empty(),
            buckets: Seq::new(HASH_BUCKET_COUNT as nat, |b: int| Seq::empty()),
            finalized: false,
            memory: Seq::empty(),
            overfull: None,
        }
    }
}

/// The bytes `b[from..to]`.
fn copy_bytes(b: &Vec<u8>, from: usize, to: usize) -> (r: Vec<u8>)
    requires
        from <= to <= b@.len(),
    ensures
        r@ == b@.subrange(from as int, to as int),
{
    let mut r: Vec<u8> = Vec::new();
    let mut i: usize = from;
    while i < to
        invariant
            from <= i <= to <= b@.len(),
            r@ =~= b@.subrange(from as int, i as int),
        decreases to - i,
    {
        r.push(b[i]);
        i += 1;
    }
    r
}

impl HashMemorySlab {
    pub open spec fn wf(&self) -> bool {
        self@.wf()
    }

    /// An empty slab.
    pub fn new() -> (r: HashMemorySlab)
        ensures
            r@ == SlabView::empty(),
            r.wf(),
    {
        let mut buckets: Vec<Vec<HashLookupKey>> = Vec::new();
        let mut i: usize = 0;
        while i < HASH_BUCKET_COUNT
            invariant
                i <= HASH_BUCKET_COUNT,
                buckets@.len() == i,
                forall|b: int| 0 <= b < i ==> (#[trigger] buckets@[b])@.len() == 0,
            decreases HASH_BUCKET_COUNT - i,
        {
            buckets.push(Vec::new());
            i += 1;
        }
        let r = HashMemorySlab {
            bytes: Vec::new(),
            strings: Vec::new(),
            components: Vec::new(),
            buckets,
            finalized: false,
            memory: Vec::new(),
            overfull: None,
        };
        proof {
            assert forall|b: int| 0 <= b < HASH_BUCKET_COUNT implies r@.buckets[b]
                =~= SlabView::empty().buckets[b] by {
                assert(buckets@[b]@.len() == 0);
            }
            assert(r@.buckets =~= SlabView::empty().buckets);
        }
        r
    }

    /// Puts a slab together from its parts, over memory that they were read from.
    pub(crate) fn from_parts(
        bytes: Vec<u8>,
        strings: Vec<SmolRange>,
        components: Vec<u24>,
        buckets: Vec<Vec<HashLookupKey>>,
        memory: Vec<u8>,
    ) -> (r: HashMemorySlab)
        ensures
            r@ == (SlabView {
                bytes: bytes@,
                strings: strings@,
                components: components@,
                buckets: Seq::new(buckets@.len(), |b: int| buckets@[b]@),
                finalized: true,
                memory: memory@,
                overfull: None,
            }),
    {
        HashMemorySlab { bytes, strings, components, buckets, finalized: true, memory, overfull: None }
    }

    /// A slab that was read from memory and metadata that tell of more than there is space for.
    pub(crate) fn from_overfull(memory: Vec<u8>, meta: Vec<u8>) -> (r: HashMemorySlab)
        ensures
            r@ == (SlabView {
                finalized: true,
                memory: memory@,
                overfull: Some(meta@),
                ..SlabView::empty()
            }),
    {
        let empty = HashMemorySlab::new();
        HashMemorySlab { finalized: true, memory, overfull: Some(meta), ..empty }
    }

    /// What was in the memory of the slab before its parts were filled.
    pub(crate) fn memory(&self) -> (r: &Vec<u8>)
        ensures
            r@ == self@.memory,
    {
        &self.memory
    }

    /// The metadata of a slab that tells of more than there is space for.
    pub(crate) fn overfull(&self) -> (r: Option<&Vec<u8>>)
        ensures
            match (r, self@.overfull) {
                (Some(meta), Some(m)) => meta@ == m,
                (None, None) => true,
                _ => false,
            },
    {
        match &self.overfull {
            Some(meta) => Some(meta),
            None => None,
        }
    }

    pub fn bytes(&self) -> (r: &Vec<u8>)
        ensures
            r@ == self@.bytes,
    {
        &self.bytes
    }

    pub fn strings(&self) -> (r: &Vec<SmolRange>)
        ensures
            r@ == self@.strings,
    {
        &self.strings
    }

    pub fn components(&self) -> (r: &Vec<u24>)
        ensures
            r@ == self@.components,
    {
        &self.components
    }

    /// The entries of bucket `b`.
    pub fn bucket(&self, b: usize) -> (r: &Vec<HashLookupKey>)
        requires
            b < self@.buckets.len(),
        ensures
            r@ == self@.buckets[b as int],
    {
        &self.buckets[b]
    }

    pub fn was_finalized(&self) -> (r: bool)
        ensures
            r == self@.finalized,
    {
        self.finalized
    }

    /// Bisects the first `n` entries of a bucket.
    fn search(&self, b: usize, n: usize, k: u32) -> (r: Option<usize>)
        requires
            self@.buckets.len() == HASH_BUCKET_COUNT,
            b < HASH_BUCKET_COUNT,
            n <= self@.buckets[b as int].len(),
            self@.sorted_bucket(b as int, n as int),
        ensures
            match r {
                Some(i) => i < n && self@.buckets[b as int][i as int].shifted_hash == k,
                None => forall|i: int|
                    0 <= i < n ==> (#[trigger] self@.buckets[b as int][i]).shifted_hash != k,
            },
    {
        let ghost s = self@.buckets[b as int];
        proof {
            assert(s == self.buckets@[b as int]@);
        }
        let mut lo: usize = 0;
        let mut hi: usize = n;
        while lo < hi
            invariant
                b < self.buckets@.len(),
                s == self@.buckets[b as int],
                s == self.buckets@[b as int]@,
                self@.sorted_bucket(b as int, n as int),
                lo <= hi <= n <= s.len(),
                forall|i: int| 0 <= i < lo ==> (#[trigger] s[i]).shifted_hash < k,
                forall|i: int| hi <= i < n ==> (#[trigger] s[i]).shifted_hash > k,
            decreases hi - lo,
        {
            let mid: usize = lo + (hi - lo) / 2;
            let h: u32 = self.buckets[b][mid].shifted_hash;
            if h == k {
                return Some(mid);
            } else if h < k {
                proof {
                    assert forall|i: int| 0 <= i < mid + 1 implies (#[trigger] s[i]).shifted_hash < k by {
                        if i < mid {
                            assert(self@.buckets[b as int][i].shifted_hash < self@.buckets[b as int][mid as int].shifted_hash);
                        }
                    }
                }
                lo = mid + 1;
            } else {
                proof {
                    assert forall|i: int| mid <= i < n implies (#[trigger] s[i]).shifted_hash > k by {
                        if i > mid {
                            assert(self@.buckets[b as int][mid as int].shifted_hash < self@.buckets[b as int][i].shifted_hash);
                        }
                    }
                }
                hi = mid;
            }
        }
        None
    }

    /// Index of the entry with this hash, among the first `n` of its bucket.
    fn find_among(&self, hash: Hash40, n: usize) -> (r: Option<usize>)
        requires
            self@.within_capacity(),
            n <= self@.buckets[bucket_of(hash)].len(),
            self@.sorted_bucket(bucket_of(hash), n as int),
        ensures
            match r {
                Some(idx) => self@.find_among(hash, n as int) == Some(idx as int) && self@.has_entry(
                    idx as int,
                ) && idx < HASH_BUCKET_COUNT * HASH_BUCKET_SIZE,
                None => self@.find_among(hash, n as int) is None,
            },
    {
        let b: usize = (hash.raw() % 0x100) as usize;
        let k: u32 = (hash.raw() / 0x100 % 0x1_0000_0000) as u32;
        proof {
            assert(self@.buckets[b as int].len() <= HASH_BUCKET_SIZE);
        }
        match self.search(b, n, k) {
            Some(i) => {
                proof {
                    lemma_find_unique(self@, hash, n as int, i as int);
                    lemma_index(b as int, i as int);
                }
                Some(b * HASH_BUCKET_SIZE + i)
            },
            None => None,
        }
    }

    /// Index of the entry with this hash.
    fn find(&self, hash: Hash40) -> (r: Option<usize>)
        requires
            self@.within_capacity(),
            self@.sorted(),
        ensures
            match r {
                Some(idx) => self@.find(hash) == Some(idx as int) && self@.has_entry(idx as int)
                    && idx < HASH_BUCKET_COUNT * HASH_BUCKET_SIZE,
                None => self@.find(hash) is None,
            },
    {
        let b: usize = (hash.raw() % 0x100) as usize;
        proof {
            assert(self@.sorted_bucket(b as int, self@.buckets[b as int].len() as int));
        }
        let n: usize = self.buckets[b].len();
        self.find_among(hash, n)
    }

    fn entry(&self, idx: usize) -> (r: HashLookupKey)
        requires
            self@.within_capacity(),
            self@.has_entry(idx as int),
        ensures
            r == self@.entry(idx as int),
    {
        self.buckets[idx / HASH_BUCKET_SIZE][idx % HASH_BUCKET_SIZE]
    }

    /// Appends the strings that components `start..end` come down to.
    fn collect(&self, start: usize, end: usize, out: &mut Vec<Vec<u8>>)
        requires
            self.wf(),
            end <= self@.components.len(),
        ensures
            strings_of(final(out)@) == strings_of(old(out)@) + self@.resolve(start as nat, end as nat),
        decreases end,
    {
        let mut c: usize = start;
        proof {
            assert(strings_of(out@) =~= strings_of(old(out)@) + self@.resolve(start as nat, start as nat));
        }
        while c < end
            invariant
                self.wf(),
                start <= c,
                c <= end || c == start,
                end <= self@.components.len(),
                strings_of(out@) == strings_of(old(out)@) + self@.resolve(start as nat, c as nat),
            decreases end - c,
        {
            let ghost before = strings_of(out@);
            proof {
                assert(self@.component_ok(c as int));
            }
            let x: u32 = self.components[c].to_u32();
            if x < IS_INTERNED_COMPONENT {
                let string = self.strings[x as usize];
                proof {
                    assert(self@.strings[x as int].end() <= self@.bytes.len());
                }
                let (from, to) = string.range();
                out.push(copy_bytes(&self.bytes, from as usize, to as usize));
                proof {
                    assert(strings_of(out@) =~= before.push(self@.string(x as int)));
                    assert(strings_of(out@) =~= strings_of(old(out)@) + self@.resolve(
                        start as nat,
                        (c + 1) as nat,
                    ));
                }
            } else {
                let idx: usize = (x - IS_INTERNED_COMPONENT) as usize;
                let (from, to) = self.entry(idx).range.range();
                self.collect(from as usize, to as usize, out);
                proof {
                    assert(strings_of(out@) =~= strings_of(old(out)@) + self@.resolve(
                        start as nat,
                        (c + 1) as nat,
                    ));
                }
            }
            c += 1;
        }
    }

    /// The strings that the hash stands for.
    pub fn components_for(&self, hash: Hash40) -> (r: Option<Vec<Vec<u8>>>)
        requires
            self.wf(),
            self@.sorted(),
        ensures
            match r {
                Some(parts) => self@.components_of(hash) == Some(strings_of(parts@)),
                None => self@.components_of(hash) is None,
            },
    {
        match self.find(hash) {
            Some(idx) => {
                let (from, to) = self.entry(idx).range.range();
                let mut out: Vec<Vec<u8>> = Vec::new();
                proof {
                    lemma_entry_range(self@, idx as int);
                }
                self.collect(from as usize, to as usize, &mut out);
                proof {
                    assert(strings_of(Seq::<Vec<u8>>::empty()) =~= Seq::empty());
                    assert(strings_of(out@) =~= self@.resolve_range(self@.entry(idx as int).range));
                }
                Some(out)
            },
            None => None,
        }
    }
}

/// How many of the strings a buffer of this length can take.
pub open spec fn buffered(parts: Seq<Seq<u8>>, len: nat) -> nat {
    if parts.len() <= len {
        parts.len()
    } else {
        len
    }
}

impl HashMemorySlab {
    /// Writes the hashes of the strings that the hash stands for into the buffer, as far as there is
    /// space, and returns how many were written. `None` if the hash is not known.
    pub fn buffer_components_for(&self, hash: Hash40, components: &mut [Hash40]) -> (r: Option<usize>)
        requires
            self.wf(),
            self@.sorted(),
        ensures
            final(components)@.len() == old(components)@.len(),
            match (r, self@.components_of(hash)) {
                (Some(n), Some(parts)) => n == buffered(parts, old(components)@.len()) && forall|i: int|
                    0 <= i < old(components)@.len() ==> #[trigger] final(components)@[i] == if i < n {
                        hash40(parts[i])
                    } else {
                        old(components)@[i]
                    },
                (None, None) => final(components)@ == old(components)@,
                _ => false,
            },
    {
        match self.components_for(hash) {
            Some(parts) => {
                let ghost all = strings_of(parts@);
                let mut i: usize = 0;
                while i < parts.len() && i < components.len()
                    invariant
                        all == strings_of(parts@),
                        components@.len() == old(components)@.len(),
                        i <= components@.len(),
                        i <= parts@.len(),
                        forall|j: int|
                            0 <= j < components@.len() ==> #[trigger] components@[j] == if j < i {
                                hash40(all[j])
                            } else {
                                old(components)@[j]
                            },
                    decreases parts@.len() - i,
                {
                    proof {
                        assert(all[i as int] == parts@[i as int]@);
                    }
                    components[i] = Hash40::const_new_bytes(&parts[i]);
                    i += 1;
                }
                Some(i)
            },
            None => None,
        }
    }

    /// The first strings that the hash stands for, `limit` of them at most. `None` if the hash is not
    /// known.
    pub fn buffer_str_components_for(&self, hash: Hash40, limit: usize) -> (r: Option<Vec<Vec<u8>>>)
        requires
            self.wf(),
            self@.sorted(),
        ensures
            match (r, self@.components_of(hash)) {
                (Some(out), Some(parts)) => strings_of(out@) == parts.take(
                    buffered(parts, limit as nat) as int,
                ),
                (None, None) => true,
                _ => false,
            },
    {
        match self.components_for(hash) {
            Some(mut parts) => {
                let ghost all = strings_of(parts@);
                if parts.len() > limit {
                    parts.truncate(limit);
                }
                proof {
                    assert(strings_of(parts@) =~= all.take(buffered(all, limit as nat) as int));
                }
                Some(parts)
            },
            None => None,
        }
    }

    /// The text that the hash stands for, or what to show for a hash that is not known: the hash in
    /// hexadecimal, or `<unknown>` in the alternate form.
    pub fn hash_text(&self, hash: Hash40, alternate: bool) -> (r: Vec<u8>)
        requires
            self.wf(),
            self@.sorted(),
        ensures
            r@ == match self@.components_of(hash) {
                Some(parts) => join(parts),
                None => if alternate {
                    encode_utf8("<unknown>"@)
                } else {
                    hex_text(hash.0)
                },
            },
    {
        match self.components_for(hash) {
            Some(parts) => join_parts(&parts),
            None => if alternate {
                let mut r: Vec<u8> = Vec::new();
                append_all(&mut r, "<unknown>".as_bytes());
                proof {
                    assert(r@ =~= encode_utf8("<unknown>"@));
                }
                r
            } else {
                to_hex(hash.raw())
            },
        }
    }
}

/// The digit of a value below 16.
pub open spec fn hex_digit(d: int) -> u8 {
    if d < 10 {
        (0x30 + d) as u8
    } else {
        (0x61 + d - 10) as u8
    }
}

/// The hexadecimal digits of a number, without leading zeros.
pub open spec fn hex_digits(n: u64) -> Seq<u8>
    decreases n,
{
    if n < 0x10 {
        seq![hex_digit(n as int)]
    } else {
        hex_digits(n / 0x10).push(hex_digit((n % 0x10) as int))
    }
}

/// A number in hexadecimal, with `0x` in front.
pub open spec fn hex_text(n: u64) -> Seq<u8> {
    seq![0x30u8, 0x78u8] + hex_digits(n)
}

fn write_hex_digits(n: u64, out: &mut Vec<u8>)
    ensures
        final(out)@ == old(out)@ + hex_digits(n),
    decreases n,
{
    if n >= 0x10 {
        write_hex_digits(n / 0x10, out);
    }
    let d: u8 = (n % 0x10) as u8;
    out.push(
        if d < 10 {
            0x30 + d
        } else {
            0x61 + (d - 10)
        },
    );
    proof {
        assert(out@ =~= old(out)@ + hex_digits(n));
    }
}

fn to_hex(n: u64) -> (r: Vec<u8>)
    ensures
        r@ == hex_text(n),
{
    let mut r: Vec<u8> = Vec::new();
    r.push(0x30);
    r.push(0x78);
    write_hex_digits(n, &mut r);
    proof {
        assert(r@ =~= hex_text(n));
    }
    r
}

fn append_all(out: &mut Vec<u8>, b: &[u8])
    ensures
        final(out)@ == old(out)@ + b@,
{
    let mut i: usize = 0;
    while i < b.len()
        invariant
            i <= b@.len(),
            out@ =~= old(out)@ + b@.take(i as int),
        decreases b@.len() - i,
    {
        out.push(b[i]);
        i += 1;
    }
    proof {
        assert(b@.take(b@.len() as int) =~= b@);
    }
}

/// Joins strings by slashes.
fn join_parts(parts: &Vec<Vec<u8>>) -> (r: Vec<u8>)
    ensures
        r@ == join(strings_of(parts@)),
{
    let ghost all = strings_of(parts@);
    let mut r: Vec<u8> = Vec::new();
    let mut i: usize = 0;
    proof {
        assert(all.take(0) =~= Seq::empty());
    }
    while i < parts.len()
        invariant
            all == strings_of(parts@),
            i <= parts@.len(),
            r@ == join(all.take(i as int)),
        decreases parts@.len() - i,
    {
        if i > 0 {
            r.push(0x2F);
        }
        append_all(&mut r, &parts[i]);
        proof {
            let t = all.take(i + 1);
            assert(t.drop_last() =~= all.take(i as int));
            assert(t.last() == parts@[i as int]@);
            if i == 0 {
                assert(r@ =~= t[0]);
            } else {
                assert(r@ =~= join(t.drop_last()) + seq![0x2Fu8] + t.last());
            }
        }
        i += 1;
    }
    proof {
        assert(all.take(i as int) =~= all);
    }
    r
}

/// Walks over the strings that a hash stands for.
pub struct ComponentIter<'a> {
    slab: &'a HashMemorySlab,
    /// Runs of components that are still to be walked over, the next one last.
    runs: Vec<(usize, usize)>,
}

impl SlabView {
    /// The strings that runs of components come down to, the last run first.
    pub open spec fn resolve_runs(self, runs: Seq<(usize, usize)>) -> Seq<Seq<u8>>
        decreases runs.len(),
    {
        if runs.len() == 0 {
            Seq::empty()
        } else {
            self.resolve(runs.last().0 as nat, runs.last().1 as nat) + self.resolve_runs(
                runs.drop_last(),
            )
        }
    }
}

impl<'a> ComponentIter<'a> {
    pub closed spec fn wf(&self) -> bool {
        &&& self.slab.wf()
        &&& forall|i: int|
            0 <= i < self.runs@.len() ==> (#[trigger] self.runs@[i]).1 <= self.slab@.components.len()
    }

    /// The strings that are still to come.
    pub closed spec fn remaining(&self) -> Seq<Seq<u8>> {
        self.slab@.resolve_runs(self.runs@)
    }

    /// Starts at the first string that the hash stands for.
    pub fn new(slab: &'a HashMemorySlab, hash: Hash40) -> (r: Option<ComponentIter<'a>>)
        requires
            slab.wf(),
            slab@.sorted(),
        ensures
            match r {
                Some(it) => it.wf() && slab@.components_of(hash) == Some(it.remaining()),
                None => slab@.components_of(hash) is None,
            },
    {
        match slab.find(hash) {
            Some(idx) => {
                let (from, to) = slab.entry(idx).range.range();
                let mut runs: Vec<(usize, usize)> = Vec::new();
                runs.push((from as usize, to as usize));
                proof {
                    lemma_entry_range(slab@, idx as int);
                    assert(runs@.drop_last() =~= Seq::empty());
                    assert(slab@.resolve_runs(runs@.drop_last()) =~= Seq::empty());
                    assert(slab@.resolve_runs(runs@) =~= slab@.resolve(from as nat, to as nat));
                }
                Some(ComponentIter { slab, runs })
            },
            None => None,
        }
    }

    /// The next string.
    pub fn next(&mut self) -> (r: Option<Vec<u8>>)
        requires
            old(self).wf(),
        ensures
            final(self).wf(),
            match r {
                Some(x) => old(self).remaining().len() > 0 && x@ == old(self).remaining()[0]
                    && final(self).remaining() == old(self).remaining().drop_first(),
                None => old(self).remaining().len() == 0 && final(self).remaining().len() == 0,
            },
    {
        let ghost v = self.slab@;
        loop
            invariant
                self.wf(),
                v == self.slab@,
                self.remaining() == old(self).remaining(),
            decreases v.weight_runs(self.runs@),
        {
            let ghost runs = self.runs@;
            let Some((c, end)) = self.runs.pop() else {
                return None;
            };
            let ghost below = self.runs@;
            proof {
                assert(runs.drop_last() =~= below);
                assert(runs.last() == (c, end));
                assert(runs[runs.len() - 1].1 <= v.components.len());
            }
            if c < end {
                proof {
                    v.lemma_first(c as nat, end as nat);
                    assert(v.component_ok(c as int));
                }
                self.runs.push((c + 1, end));
                let ghost rest = self.runs@;
                proof {
                    assert(rest.drop_last() =~= below);
                    assert(v.resolve_runs(runs) == v.resolve(c as nat, end as nat)
                        + v.resolve_runs(below));
                    assert(v.resolve_runs(rest) == v.resolve((c + 1) as nat, end as nat)
                        + v.resolve_runs(below));
                }
                let x: u32 = self.slab.components[c].to_u32();
                if x < IS_INTERNED_COMPONENT {
                    let string = self.slab.strings[x as usize];
                    proof {
                        assert(v.strings[x as int].end() <= v.bytes.len());
                        assert(v.resolve_runs(rest) =~= v.resolve_runs(runs).drop_first());
                    }
                    let (from, to) = string.range();
                    return Some(copy_bytes(&self.slab.bytes, from as usize, to as usize));
                }
                let idx: usize = (x - IS_INTERNED_COMPONENT) as usize;
                let (from, to) = self.slab.entry(idx).range.range();
                self.runs.push((from as usize, to as usize));
                proof {
                    assert(self.runs@.drop_last() =~= rest);
                    assert(v.resolve_runs(self.runs@) =~= v.resolve_runs(runs));
                    assert(v.weight_runs(rest) == v.weight((c + 1) as nat, end as nat) + 1
                        + v.weight_runs(below));
                    assert(v.weight_runs(self.runs@) == v.weight(from as nat, to as nat) + 1
                        + v.weight_runs(rest));
                    assert(v.weight_runs(runs) == v.weight(c as nat, end as nat) + 1
                        + v.weight_runs(below));
                }
            } else {
                proof {
                    assert(v.resolve_runs(runs) =~= v.resolve_runs(below));
                }
            }
        }
    }
}

impl SlabView {
    /// Steps that walking over components `start..end` takes.
    spec fn weight(self, start: nat, end: nat) -> nat
        decreases end,
    {
        if end <= start {
            0
        } else {
            let c = (end - 1) as nat;
            let x = self.components[c as int].val();
            let r = self.entry(x - IS_INTERNED_COMPONENT).range;
            if x < IS_INTERNED_COMPONENT || r.end() > c {
                self.weight(start, c) + 2
            } else {
                self.weight(start, c) + self.weight(r.spec_start() as nat, r.end() as nat) + 2
            }
        }
    }

    spec fn weight_runs(self, runs: Seq<(usize, usize)>) -> nat
        decreases runs.len(),
    {
        if runs.len() == 0 {
            0
        } else {
            self.weight(runs.last().0 as nat, runs.last().1 as nat) + 1 + self.weight_runs(
                runs.drop_last(),
            )
        }
    }

    /// What component `start` comes down to is in front.
    proof fn lemma_first(self, start: nat, end: nat)
        requires
            start < end,
        ensures
            ({
                let x = self.components[start as int].val();
                let r = self.entry(x - IS_INTERNED_COMPONENT).range;
                if x < IS_INTERNED_COMPONENT {
                    &&& self.resolve(start, end) == seq![self.string(x as int)] + self.resolve(
                        start + 1,
                        end,
                    )
                    &&& self.weight(start, end) == self.weight(start + 1, end) + 2
                } else if r.end() <= start {
                    &&& self.resolve(start, end) == self.resolve(
                        r.spec_start() as nat,
                        r.end() as nat,
                    ) + self.resolve(start + 1, end)
                    &&& self.weight(start, end) == self.weight(r.spec_start() as nat, r.end() as nat)
                        + self.weight(start + 1, end) + 2
                } else {
                    true
                }
            }),
        decreases end,
    {
        if start + 1 < end {
            let c = (end - 1) as nat;
            self.lemma_first(start, c);
            let y = self.components[c as int].val();
            let q = self.entry(y - IS_INTERNED_COMPONENT).range;
            let x = self.components[start as int].val();
            let r = self.entry(x - IS_INTERNED_COMPONENT).range;
            let front = if x < IS_INTERNED_COMPONENT {
                seq![self.string(x as int)]
            } else {
                self.resolve(r.spec_start() as nat, r.end() as nat)
            };
            if x < IS_INTERNED_COMPONENT || r.end() <= start {
                assert(self.resolve(start, end) =~= front + self.resolve(start + 1, end));
            }
        } else {
            assert(self.resolve(start, start) =~= Seq::empty());
            assert(self.resolve(start + 1, end) =~= Seq::empty());
            assert(self.weight(start, start) == 0 && self.weight(start + 1, end) == 0);
            let x = self.components[start as int].val();
            let r = self.entry(x - IS_INTERNED_COMPONENT).range;
            if x < IS_INTERNED_COMPONENT {
                assert(self.resolve(start, end) =~= seq![self.string(x as int)] + self.resolve(
                    start + 1,
                    end,
                ));
            } else if r.end() <= start {
                assert(self.resolve(start, end) =~= self.resolve(
                    r.spec_start() as nat,
                    r.end() as nat,
                ) + self.resolve(start + 1, end));
            }
        }
    }
}

/// The contents of byte vectors.
pub open spec fn strings_of(s: Seq<Vec<u8>>) -> Seq<Seq<u8>> {
    s.map_values(|x: Vec<u8>| x@)
}

pub(crate) proof fn lemma_entry_range(v: SlabView, idx: int)
    requires
        v.wf(),
        v.has_entry(idx),
    ensures
        v.entry(idx).range.end() <= v.components.len(),
{
    assert(v.buckets[bucket_part(idx)][slot_part(idx)].range.end()
        <= v.components.len());
}

proof fn lemma_find_unique(v: SlabView, hash: Hash40, n: int, i: int)
    requires
        v.within_capacity(),
        0 <= i < n <= v.buckets[bucket_of(hash)].len(),
        v.sorted_bucket(bucket_of(hash), n),
        v.buckets[bucket_of(hash)][i].shifted_hash == shifted(hash),
    ensures
        v.find_among(hash, n) == Some(bucket_of(hash) * HASH_BUCKET_SIZE + i),
{
    let b = bucket_of(hash);
    let j = choose|j: int|
        0 <= j < n && (#[trigger] v.buckets[b][j]).shifted_hash == shifted(hash);
    if i < j {
        assert(v.buckets[b][i].shifted_hash < v.buckets[b][j].shifted_hash);
    } else if j < i {
        assert(v.buckets[b][j].shifted_hash < v.buckets[b][i].shifted_hash);
    }
}


/// What is remembered while paths are added.
pub struct CacheView {
    /// For the hash of each string that was added, its index.
    pub components: Map<u64, u32>,
    /// For the hash of each path that was added, the index of its entry.
    pub paths: Map<u64, u32>,
    /// If the slab was finalized before, the lengths that its buckets had then.
    pub previous: Seq<usize>,
}

/// Remembers what was added to a slab since it was finalized.
pub struct InternerCache {
    component_index: BTreeMap<u64, u32>,
    cached_paths: BTreeMap<u64, u32>,
    previous_bucket_lengths: Vec<usize>,
}

impl View for InternerCache {
    type V = CacheView;

    closed spec fn view(&self) -> CacheView {
        CacheView {
            components: self.component_index@,
            paths: self.cached_paths@,
            previous: self.previous_bucket_lengths@,
        }
    }
}

/// What adding a path came to.
#[derive(Copy, Clone, Debug, PartialEq, Eq, Structural)]
pub struct InternPathResult {
    pub range: SmolRange,
    pub is_new: bool,
}

impl SlabView {
    /// What the cache remembers is true of the slab.
    pub open spec fn cache_ok(self, c: CacheView) -> bool {
        &&& self.finalized ==> c.previous.len() == HASH_BUCKET_COUNT && forall|b: int|
            0 <= b < HASH_BUCKET_COUNT ==> (#[trigger] c.previous[b]) <= self.buckets[b].len()
                && self.sorted_bucket(b, c.previous[b] as int)
        &&& forall|k: u64| #[trigger]
            c.paths.contains_key(k) ==> self.has_entry(c.paths[k] as int) && self.entry_hash(
                c.paths[k] as int,
            ).0 == k
        &&& forall|k: u64| #[trigger]
            c.components.contains_key(k) ==> c.components[k] < self.strings.len()
    }

    /// Index of the entry with this hash, if the cache or the sorted part of the slab has it.
    pub open spec fn known(self, c: CacheView, hash: Hash40) -> Option<int> {
        if c.paths.contains_key(hash.0) {
            Some(c.paths[hash.0] as int)
        } else if self.finalized {
            self.find_among(hash, c.previous[bucket_of(hash)] as int)
        } else {
            None
        }
    }

    /// The slab with one more string.
    pub open spec fn add_string(self, name: Seq<u8>) -> SlabView {
        SlabView {
            bytes: self.bytes + name,
            strings: self.strings.push(
                SmolRange::of((name.len() % 0x100) as u8, self.bytes.len() as u32),
            ),
            ..self
        }
    }

    /// The slab with one more component.
    pub open spec fn add_component(self, x: u32) -> SlabView {
        SlabView { components: self.components.push(u24::of(x)), ..self }
    }

    /// The slab with one more entry.
    pub open spec fn add_entry(self, hash: Hash40, range: SmolRange) -> SlabView {
        let b = bucket_of(hash);
        SlabView {
            buckets: self.buckets.update(
                b,
                self.buckets[b].push(HashLookupKey { shifted_hash: shifted(hash), range }),
            ),
            ..self
        }
    }

    /// Index that the next entry of a hash will have.
    pub open spec fn next_index(self, hash: Hash40) -> int {
        bucket_of(hash) * HASH_BUCKET_SIZE + self.buckets[bucket_of(hash)].len()
    }
}

/// State of adding a path.
pub struct Interning {
    pub slab: SlabView,
    pub cache: CacheView,
    /// Hash of the path as far as it was added.
    pub hash: Hash40,
    /// Number of components so far.
    pub len: int,
}

/// The hash of a path that is continued by a name. The first name has no slash in front.
pub open spec fn continued(hash: Hash40, name: Seq<u8>) -> Hash40 {
    if hash != hash40(encode_utf8(""@)) {
        spec_with(spec_with(hash, encode_utf8("/"@)), name)
    } else {
        spec_with(hash, name)
    }
}

/// The state after the string of a name was added, if it was not known, and the string's index.
pub open spec fn intern_string(s: Interning, name: Seq<u8>) -> Option<(Interning, u32)> {
    let k = hash40(name).0;
    let x = s.slab.strings.len() as u32;
    if s.cache.components.contains_key(k) {
        Some((s, s.cache.components[k]))
    } else if s.slab.bytes.len() + name.len() > HASH_MEMORY_SLAB_SIZE || s.slab.strings.len()
        >= STRING_MEMORY_SLAB_SIZE {
        None
    } else {
        Some(
            (
                Interning {
                    slab: s.slab.add_string(name),
                    cache: CacheView { components: s.cache.components.insert(k, x), ..s.cache },
                    ..s
                },
                x,
            ),
        )
    }
}

/// The state after the path was continued by a name. The path so far gets an entry of its own, whose
/// components are those from `start` on. `None` if a part of the slab is full.
#[verifier::opaque]
pub open spec fn intern_name(s: Interning, start: u32, name: Seq<u8>) -> Option<Interning> {
    let hash = continued(s.hash, name);
    match intern_string(s, name) {
        Some((t, x)) => if s.len >= 0xFF || t.slab.components.len() >= INTERNED_PATH_SLAB_SIZE
            || t.slab.buckets[bucket_of(hash)].len() >= HASH_BUCKET_SIZE {
            None
        } else {
            let range = SmolRange::of((s.len + 1) as u8, start);
            Some(
                Interning {
                    slab: t.slab.add_component(x).add_entry(hash, range),
                    cache: CacheView {
                        paths: t.cache.paths.insert(hash.0, t.slab.next_index(hash) as u32),
                        ..t.cache
                    },
                    hash,
                    len: s.len + 1,
                },
            )
        },
        None => None,
    }
}

/// The first `n` names, one after the other.
pub open spec fn intern_names(s: Interning, start: u32, names: Seq<Seq<u8>>, n: int) -> Option<Interning>
    decreases n,
{
    if n <= 0 {
        Some(s)
    } else {
        match intern_names(s, start, names, n - 1) {
            Some(t) => intern_name(t, start, names[n - 1]),
            None => None,
        }
    }
}

/// The state before the first name: a path that continues a known one starts with it as a component.
pub open spec fn intern_base(slab: SlabView, cache: CacheView, hash: Hash40, base: Option<int>) -> Option<
    Interning,
> {
    match base {
        Some(idx) => if slab.components.len() >= INTERNED_PATH_SLAB_SIZE {
            None
        } else {
            Some(
                Interning {
                    slab: slab.add_component((IS_INTERNED_COMPONENT + idx) as u32),
                    cache,
                    hash,
                    len: 1,
                },
            )
        },
        None => Some(Interning { slab, cache, hash, len: 0 }),
    }
}

/// The state after a path was added that continues a base by names. `hash` is the hash of the base,
/// `base` the index of its entry if it has one.
pub open spec fn intern_parts(
    slab: SlabView,
    cache: CacheView,
    hash: Hash40,
    base: Option<int>,
    names: Seq<Seq<u8>>,
) -> Option<Interning> {
    match intern_base(slab, cache, hash, base) {
        Some(s) => intern_names(s, slab.components.len() as u32, names, names.len() as int),
        None => None,
    }
}

/// Nothing that was in `v` has changed in `w`.
pub open spec fn grown(v: SlabView, w: SlabView) -> bool {
    &&& v.bytes.is_prefix_of(w.bytes)
    &&& v.strings.is_prefix_of(w.strings)
    &&& v.components.is_prefix_of(w.components)
    &&& v.buckets.len() == w.buckets.len()
    &&& forall|b: int|
        0 <= b < v.buckets.len() ==> (#[trigger] v.buckets[b]).is_prefix_of(w.buckets[b])
    &&& v.finalized == w.finalized
    &&& v.memory == w.memory
    &&& v.overfull == w.overfull
}

pub(crate) proof fn lemma_grown_entry(v: SlabView, w: SlabView, idx: int)
    requires
        v.within_capacity(),
        grown(v, w),
        v.has_entry(idx),
    ensures
        w.has_entry(idx),
        w.entry(idx) == v.entry(idx),
        w.entry_hash(idx) == v.entry_hash(idx),
{
    let b = bucket_part(idx);
    assert(v.buckets[b].is_prefix_of(w.buckets[b]));
}

proof fn lemma_grown_component(v: SlabView, w: SlabView, c: int)
    requires
        v.within_capacity(),
        grown(v, w),
        0 <= c < v.components.len(),
        v.component_ok(c),
    ensures
        w.component_ok(c),
{
    let x = v.components[c].val();
    assert(w.components[c] == v.components[c]);
    if x >= IS_INTERNED_COMPONENT {
        lemma_grown_entry(v, w, x - IS_INTERNED_COMPONENT);
    }
}

/// Components of a slab come down to the same strings after it has grown.
pub proof fn law_grown_resolve(v: SlabView, w: SlabView, start: nat, end: nat)
    requires
        v.wf(),
        grown(v, w),
        end <= v.components.len(),
    ensures
        w.resolve(start, end) == v.resolve(start, end),
    decreases end,
{
    if start < end {
        let c = (end - 1) as nat;
        law_grown_resolve(v, w, start, c);
        assert(v.component_ok(c as int));
        assert(w.components[c as int] == v.components[c as int]);
        let x = v.components[c as int].val();
        if x < IS_INTERNED_COMPONENT {
            assert(v.strings[x as int].end() <= v.bytes.len());
            assert(w.strings[x as int] == v.strings[x as int]);
            assert(w.string(x as int) =~= v.string(x as int));
        } else {
            let idx = x - IS_INTERNED_COMPONENT;
            lemma_grown_entry(v, w, idx);
            let r = v.entry(idx).range;
            law_grown_resolve(v, w, r.spec_start() as nat, r.end() as nat);
        }
    }
}

proof fn lemma_add_string(v: SlabView, name: Seq<u8>)
    requires
        v.wf(),
        v.bytes.len() + name.len() <= HASH_MEMORY_SLAB_SIZE,
        v.strings.len() < STRING_MEMORY_SLAB_SIZE,
    ensures
        v.add_string(name).wf(),
        grown(v, v.add_string(name)),
        name.len() < 0x100 ==> v.add_string(name).string(v.strings.len() as int) == name,
{
    let w = v.add_string(name);
    assert(grown(v, w));
    assert forall|i: int| 0 <= i < w.strings.len() implies (#[trigger] w.strings[i]).end()
        <= w.bytes.len() by {
        if i < v.strings.len() {
            assert(w.strings[i] == v.strings[i]);
            assert(v.strings[i].end() <= v.bytes.len());
        }
    }
    assert forall|c: int| 0 <= c < w.components.len() implies #[trigger] w.component_ok(c) by {
        assert(v.component_ok(c));
        lemma_grown_component(v, w, c);
    }
    assert forall|b: int, i: int|
        0 <= b < HASH_BUCKET_COUNT && 0 <= i < w.buckets[b].len() implies (
    #[trigger] w.buckets[b][i]).range.end() <= w.components.len() by {
        assert(v.buckets[b][i].range.end() <= v.components.len());
    }
    if name.len() < 0x100 {
        assert(w.string(v.strings.len() as int) =~= name);
    }
}

pub(crate) proof fn lemma_add_component(v: SlabView, x: u32)
    requires
        v.wf(),
        v.components.len() < INTERNED_PATH_SLAB_SIZE,
        x < 0x100_0000,
        if x < IS_INTERNED_COMPONENT {
            x < v.strings.len()
        } else {
            v.has_entry(x - IS_INTERNED_COMPONENT)
        },
    ensures
        v.add_component(x).wf(),
        grown(v, v.add_component(x)),
{
    let w = v.add_component(x);
    law_u24(x, u24::of(x));
    assert(grown(v, w));
    assert forall|c: int| 0 <= c < w.components.len() implies #[trigger] w.component_ok(c) by {
        if c < v.components.len() {
            assert(v.component_ok(c));
            lemma_grown_component(v, w, c);
        } else if x >= IS_INTERNED_COMPONENT {
            let idx = x - IS_INTERNED_COMPONENT;
            lemma_grown_entry(v, w, idx);
            lemma_entry_range(v, idx);
        }
    }
    assert forall|i: int| 0 <= i < w.strings.len() implies (#[trigger] w.strings[i]).end()
        <= w.bytes.len() by {
        assert(v.strings[i].end() <= v.bytes.len());
    }
    assert forall|b: int, i: int|
        0 <= b < HASH_BUCKET_COUNT && 0 <= i < w.buckets[b].len() implies (
    #[trigger] w.buckets[b][i]).range.end() <= w.components.len() by {
        assert(v.buckets[b][i].range.end() <= v.components.len());
    }
}

proof fn lemma_add_entry(v: SlabView, hash: Hash40, range: SmolRange)
    requires
        v.wf(),
        hash.wf(),
        v.buckets[bucket_of(hash)].len() < HASH_BUCKET_SIZE,
        range.end() <= v.components.len(),
    ensures
        v.add_entry(hash, range).wf(),
        grown(v, v.add_entry(hash, range)),
        v.add_entry(hash, range).has_entry(v.next_index(hash)),
        v.add_entry(hash, range).entry(v.next_index(hash)).range == range,
        v.add_entry(hash, range).entry_hash(v.next_index(hash)) == hash,
        0 <= v.next_index(hash) < HASH_BUCKET_COUNT * HASH_BUCKET_SIZE,
{
    let w = v.add_entry(hash, range);
    let h = bucket_of(hash);
    lemma_index(h, v.buckets[h].len() as int);
    assert forall|b: int| 0 <= b < v.buckets.len() implies (#[trigger] v.buckets[b]).is_prefix_of(
        w.buckets[b],
    ) by {
        if b == h {
            assert(v.buckets[b] =~= w.buckets[b].take(v.buckets[b].len() as int));
        } else {
            assert(v.buckets[b] =~= w.buckets[b].take(v.buckets[b].len() as int));
        }
    }
    assert(grown(v, w));
    assert forall|b: int| 0 <= b < HASH_BUCKET_COUNT implies (#[trigger] w.buckets[b]).len()
        <= HASH_BUCKET_SIZE by {
        assert(v.buckets[b].len() <= HASH_BUCKET_SIZE);
    }
    assert forall|c: int| 0 <= c < w.components.len() implies #[trigger] w.component_ok(c) by {
        assert(v.component_ok(c));
        lemma_grown_component(v, w, c);
    }
    assert forall|i: int| 0 <= i < w.strings.len() implies (#[trigger] w.strings[i]).end()
        <= w.bytes.len() by {
        assert(v.strings[i].end() <= v.bytes.len());
    }
    assert forall|b: int, i: int|
        0 <= b < HASH_BUCKET_COUNT && 0 <= i < w.buckets[b].len() implies (
    #[trigger] w.buckets[b][i]).range.end() <= w.components.len() by {
        if i < v.buckets[b].len() {
            assert(w.buckets[b][i] == v.buckets[b][i]);
            assert(v.buckets[b][i].range.end() <= v.components.len());
        }
    }
}

pub(crate) proof fn lemma_cache_grown(v: SlabView, w: SlabView, c: CacheView)
    requires
        v.within_capacity(),
        grown(v, w),
        v.cache_ok(c),
    ensures
        w.cache_ok(c),
{
    assert forall|k: u64| #[trigger] c.paths.contains_key(k) implies w.has_entry(c.paths[k] as int)
        && w.entry_hash(c.paths[k] as int).0 == k by {
        lemma_grown_entry(v, w, c.paths[k] as int);
    }
    if w.finalized {
        assert forall|b: int| 0 <= b < HASH_BUCKET_COUNT implies (#[trigger] c.previous[b])
            <= w.buckets[b].len() && w.sorted_bucket(b, c.previous[b] as int) by {
            assert(v.buckets[b].is_prefix_of(w.buckets[b]));
            let n = c.previous[b] as int;
            assert forall|i: int, j: int| 0 <= i < j < n implies (
            #[trigger] w.buckets[b][i]).shifted_hash < (#[trigger] w.buckets[b][j]).shifted_hash by {
                assert(v.buckets[b][i].shifted_hash < v.buckets[b][j].shifted_hash);
                assert(w.buckets[b][i] == v.buckets[b][i] && w.buckets[b][j] == v.buckets[b][j]);
            }
        }
    }
}

/// Where the state of adding a path stands: the components from `start` on are those of the path.
pub open spec fn interning_ok(s: Interning, start: u32) -> bool {
    &&& s.slab.wf()
    &&& s.slab.cache_ok(s.cache)
    &&& s.hash.wf()
    &&& 0 <= s.len <= 0xFF
    &&& s.slab.components.len() == start + s.len
}

proof fn lemma_continued_wf(hash: Hash40, name: Seq<u8>)
    ensures
        continued(hash, name).wf(),
{
    law_hash40_wf(hash, hash, name);
    law_hash40_wf(spec_with(hash, encode_utf8("/"@)), hash, name);
}

/// Continuing a path by a name keeps the slab valid and changes nothing that was there.
pub proof fn law_intern_name(s: Interning, start: u32, name: Seq<u8>)
    requires
        interning_ok(s, start),
        start <= INTERNED_PATH_SLAB_SIZE,
    ensures
        intern_name(s, start, name) matches Some(t) ==> interning_ok(t, start) && grown(s.slab, t.slab)
            && t.len == s.len + 1,
{
    reveal(intern_name);
    if let Some(t) = intern_name(s, start, name) {
        let hash = continued(s.hash, name);
        let (u, x) = intern_string(s, name)->0;
        lemma_continued_wf(s.hash, name);
        if !s.cache.components.contains_key(hash40(name).0) {
            lemma_add_string(s.slab, name);
            lemma_cache_grown(s.slab, u.slab, s.cache);
        }
        assert(u.slab.wf() && u.slab.cache_ok(u.cache) && grown(s.slab, u.slab));
        lemma_add_component(u.slab, x);
        let v = u.slab.add_component(x);
        let range = SmolRange::of((s.len + 1) as u8, start);
        law_smol_range((s.len + 1) as u8, start);
        lemma_add_entry(v, hash, range);
        lemma_cache_grown(u.slab, v, u.cache);
        lemma_cache_grown(v, t.slab, u.cache);
        assert(t.slab.cache_ok(t.cache)) by {
            let idx = v.next_index(hash);
            assert(u.slab.next_index(hash) == idx);
            assert forall|k: u64| #[trigger] t.cache.paths.contains_key(k) implies t.slab.has_entry(
                t.cache.paths[k] as int,
            ) && t.slab.entry_hash(t.cache.paths[k] as int).0 == k by {
                if k != hash.0 {
                    assert(u.cache.paths.contains_key(k));
                }
            }
        }
        lemma_grown_trans(s.slab, u.slab, v);
        lemma_grown_trans(s.slab, v, t.slab);
    }
}

pub(crate) proof fn lemma_grown_trans(u: SlabView, v: SlabView, w: SlabView)
    requires
        grown(u, v),
        grown(v, w),
    ensures
        grown(u, w),
{
    assert(u.bytes =~= w.bytes.take(u.bytes.len() as int));
    assert(u.strings =~= w.strings.take(u.strings.len() as int));
    assert(u.components =~= w.components.take(u.components.len() as int));
    assert forall|b: int| 0 <= b < u.buckets.len() implies (#[trigger] u.buckets[b]).is_prefix_of(
        w.buckets[b],
    ) by {
        assert(u.buckets[b].is_prefix_of(v.buckets[b]));
        assert(v.buckets[b].is_prefix_of(w.buckets[b]));
        assert(u.buckets[b] =~= w.buckets[b].take(u.buckets[b].len() as int));
    }
}


/// The bytes of names.
pub open spec fn name_bytes(names: Seq<String>) -> Seq<Seq<u8>> {
    names.map_values(|n: String| encode_utf8(n@))
}

impl HashMemorySlab {
    /// A cache for adding paths to this slab.
    pub fn create_cache(&self) -> (r: InternerCache)
        requires
            self.wf(),
            self@.finalized ==> self@.sorted(),
        ensures
            r@.components == Map::<u64, u32>::empty(),
            r@.paths == Map::<u64, u32>::empty(),
            r@.previous == if self@.finalized {
                Seq::new(HASH_BUCKET_COUNT as nat, |b: int| self@.buckets[b].len() as usize)
            } else {
                Seq::empty()
            },
            self@.cache_ok(r@),
    {
        let mut previous_bucket_lengths: Vec<usize> = Vec::new();
        if self.finalized {
            let mut i: usize = 0;
            while i < HASH_BUCKET_COUNT
                invariant
                    self.wf(),
                    i <= HASH_BUCKET_COUNT,
                    previous_bucket_lengths@ =~= Seq::new(
                        i as nat,
                        |b: int| self@.buckets[b].len() as usize,
                    ),
                decreases HASH_BUCKET_COUNT - i,
            {
                proof {
                    assert(self@.buckets[i as int] == self.buckets@[i as int]@);
                }
                previous_bucket_lengths.push(self.buckets[i].len());
                i += 1;
            }
            proof {
                assert forall|b: int| 0 <= b < HASH_BUCKET_COUNT implies (
                #[trigger] previous_bucket_lengths@[b]) <= self@.buckets[b].len()
                    && self@.sorted_bucket(b, previous_bucket_lengths@[b] as int) by {
                    assert(self@.buckets[b].len() <= HASH_BUCKET_SIZE);
                }
            }
        }
        InternerCache {
            component_index: BTreeMap::new(),
            cached_paths: BTreeMap::new(),
            previous_bucket_lengths,
        }
    }

    /// Index of the entry with this hash, if the cache or the sorted part of the slab has it.
    pub fn known(&self, cache: &InternerCache, hash: Hash40) -> (r: Option<u32>)
        requires
            self.wf(),
            self@.cache_ok(cache@),
        ensures
            match r {
                Some(idx) => self@.known(cache@, hash) == Some(idx as int) && self@.has_entry(
                    idx as int,
                ),
                None => self@.known(cache@, hash) is None,
            },
    {
        if let Some(idx) = cache.cached_paths.get(&hash.raw()) {
            return Some(*idx);
        }
        if self.finalized {
            let b: usize = (hash.raw() % 0x100) as usize;
            proof {
                assert(cache@.previous[b as int] <= self@.buckets[b as int].len());
            }
            match self.find_among(hash, cache.previous_bucket_lengths[b]) {
                Some(idx) => Some(idx as u32),
                None => None,
            }
        } else {
            None
        }
    }

    /// Continues a path by a name.
    fn intern_name(
        &mut self,
        cache: &mut InternerCache,
        hash: Hash40,
        len: u8,
        start: u32,
        name: &[u8],
    ) -> (r: Option<Hash40>)
        requires
            interning_ok(
                Interning { slab: old(self)@, cache: old(cache)@, hash, len: len as int },
                start,
            ),
            start <= INTERNED_PATH_SLAB_SIZE,
        ensures
            match (
                r,
                intern_name(
                    Interning { slab: old(self)@, cache: old(cache)@, hash, len: len as int },
                    start,
                    name@,
                ),
            ) {
                (Some(h), Some(t)) => t == (Interning {
                    slab: final(self)@,
                    cache: final(cache)@,
                    hash: h,
                    len: len + 1,
                }),
                (None, None) => true,
                _ => false,
            },
    {
        let ghost s = Interning { slab: self@, cache: cache@, hash, len: len as int };
        proof {
            reveal(intern_name);
        }
        let name_hash = Hash40::const_new_bytes(name);
        let known: Option<u32> = match cache.component_index.get(&name_hash.raw()) {
            Some(x) => Some(*x),
            None => None,
        };
        let x: u32 = match known {
            Some(x) => x,
            None => {
                if name.len() > HASH_MEMORY_SLAB_SIZE || self.bytes.len() + name.len()
                    > HASH_MEMORY_SLAB_SIZE || self.strings.len() >= STRING_MEMORY_SLAB_SIZE {
                    return None;
                }
                let range = SmolRange::new(
                    (name.len() % 0x100) as u8,
                    u24::from_u32(self.bytes.len() as u32),
                );
                append_all(&mut self.bytes, name);
                let x: u32 = self.strings.len() as u32;
                self.strings.push(range);
                let _previous = cache.component_index.insert(name_hash.raw(), x);
                x
            },
        };
        proof {
            assert(self@.buckets =~= s.slab.buckets);
            assert(intern_string(s, name@) is Some);
            let (t, y) = intern_string(s, name@)->0;
            assert(y == x && self@ == t.slab && cache@ == t.cache);
        }
        if len == 0xFF || self.components.len() >= INTERNED_PATH_SLAB_SIZE {
            return None;
        }
        let ghost u = self@;
        self.components.push(u24::from_u32(x));
        let hash = if hash != Hash40::const_new("") {
            hash.const_with("/").const_with_bytes(name)
        } else {
            hash.const_with_bytes(name)
        };
        let b: usize = (hash.raw() % 0x100) as usize;
        let ghost before = self.buckets@;
        proof {
            assert(u.buckets[b as int] == self.buckets@[b as int]@);
            assert(self@.buckets =~= u.buckets);
            assert(u.buckets[b as int].len() <= HASH_BUCKET_SIZE);
        }
        if self.buckets[b].len() >= HASH_BUCKET_SIZE {
            return None;
        }
        let idx: usize = b * HASH_BUCKET_SIZE + self.buckets[b].len();
        let range = SmolRange::new(len + 1, u24::from_u32(start));
        self.buckets[b].push(
            HashLookupKey {
                shifted_hash: (hash.raw() / 0x100 % 0x1_0000_0000) as u32,
                range,
            },
        );
        proof {
            assert(self@.buckets =~= u.add_component(x).add_entry(hash, range).buckets);
        }
        let _previous = cache.cached_paths.insert(hash.raw(), idx as u32);
        Some(hash)
    }

    /// Adds a path that continues a base by names. `base` is the index of the base's entry, if it has
    /// one. Returns the components of the path, unless a part of the slab is full.
    pub fn intern_parts(
        &mut self,
        cache: &mut InternerCache,
        base_hash: Hash40,
        base: Option<u32>,
        names: &Vec<String>,
    ) -> (r: Option<SmolRange>)
        requires
            old(self).wf(),
            old(self)@.cache_ok(old(cache)@),
            base_hash.wf(),
            base matches Some(idx) ==> old(self)@.has_entry(idx as int),
        ensures
            match (
                r,
                intern_parts(
                    old(self)@,
                    old(cache)@,
                    base_hash,
                    match base {
                        Some(idx) => Some(idx as int),
                        None => None,
                    },
                    name_bytes(names@),
                ),
            ) {
                (Some(range), Some(t)) => final(self)@ == t.slab && final(cache)@ == t.cache && range
                    == SmolRange::of(t.len as u8, old(self)@.components.len() as u32),
                (None, None) => true,
                _ => false,
            },
            r is Some ==> final(self).wf() && final(self)@.cache_ok(final(cache)@) && grown(
                old(self)@,
                final(self)@,
            ),
    {
        let ghost v = self@;
        let start: u32 = self.components.len() as u32;
        let mut hash = base_hash;
        let mut len: u8 = 0;
        let ghost base_spec = match base {
            Some(idx) => Some(idx as int),
            None => None,
        };
        if let Some(idx) = base {
            if self.components.len() >= INTERNED_PATH_SLAB_SIZE {
                return None;
            }
            proof {
                lemma_add_component(v, (IS_INTERNED_COMPONENT + idx) as u32);
                lemma_cache_grown(
                    v,
                    v.add_component((IS_INTERNED_COMPONENT + idx) as u32),
                    cache@,
                );
            }
            self.components.push(u24::from_u32(IS_INTERNED_COMPONENT + idx));
            len = 1;
            proof {
                assert(self@.buckets =~= v.buckets);
                assert(self@ == v.add_component((IS_INTERNED_COMPONENT + idx) as u32));
            }
        } else {
            proof {
                lemma_grown_refl(v);
            }
        }
        let ghost all = name_bytes(names@);
        let ghost s = Interning { slab: self@, cache: cache@, hash, len: len as int };
        let n: usize = names.len();
        let mut i: usize = 0;
        while i < n
            invariant
                n == names@.len(),
                i <= n,
                all == name_bytes(names@),
                start == v.components.len() <= INTERNED_PATH_SLAB_SIZE,
                interning_ok(
                    Interning { slab: self@, cache: cache@, hash, len: len as int },
                    start,
                ),
                intern_names(s, start, all, i as int) == Some(
                    Interning { slab: self@, cache: cache@, hash, len: len as int },
                ),
                grown(v, self@),
                v == old(self)@,
                s.hash == base_hash,
                base_spec == match base {
                    Some(idx) => Some(idx as int),
                    None => None,
                },
                intern_parts(v, old(cache)@, s.hash, base_spec, all) == intern_names(
                    s,
                    start,
                    all,
                    n as int,
                ),
            decreases n - i,
        {
            let ghost t = Interning { slab: self@, cache: cache@, hash, len: len as int };
            proof {
                assert(all[i as int] == encode_utf8(names@[i as int]@));
                law_intern_name(t, start, all[i as int]);
            }
            match self.intern_name(cache, hash, len, start, names[i].as_str().as_bytes()) {
                Some(h) => {
                    proof {
                        lemma_grown_trans(v, t.slab, self@);
                    }
                    hash = h;
                    len = len + 1;
                },
                None => {
                    proof {
                        lemma_intern_names_fails(s, start, all, i + 1, n as int);
                    }
                    return None;
                },
            }
            i += 1;
        }
        Some(SmolRange::new(len, u24::from_u32(start)))
    }
}

pub(crate) proof fn lemma_grown_refl(v: SlabView)
    ensures
        grown(v, v),
{
    assert forall|b: int| 0 <= b < v.buckets.len() implies (#[trigger] v.buckets[b]).is_prefix_of(
        v.buckets[b],
    ) by {
        assert(v.buckets[b] =~= v.buckets[b].take(v.buckets[b].len() as int));
    }
    assert(v.bytes =~= v.bytes.take(v.bytes.len() as int));
    assert(v.strings =~= v.strings.take(v.strings.len() as int));
    assert(v.components =~= v.components.take(v.components.len() as int));
}

proof fn lemma_intern_names_fails(s: Interning, start: u32, names: Seq<Seq<u8>>, a: int, b: int)
    requires
        0 <= a <= b,
        intern_names(s, start, names, a) is None,
    ensures
        intern_names(s, start, names, b) is None,
    decreases b,
{
    if a < b {
        lemma_intern_names_fails(s, start, names, a, b - 1);
    }
}


/// The longest ancestor of a path that is known, and the index of its entry. If none is known, the
/// ancestor that has no parent.
pub open spec fn base_of(v: SlabView, c: CacheView, path: Seq<char>) -> (Seq<char>, Option<int>)
    decreases path.len(),
{
    match path_parent(path) {
        Some(p) => if p.len() < path.len() {
            match v.known(c, hash40_str(p)) {
                Some(idx) => (p, Some(idx)),
                None => base_of(v, c, p),
            }
        } else {
            (path, None)
        },
        None => (path, None),
    }
}

/// The slab and the cache after a path was added, and what that came to. `None` if a part of the slab
/// is full.
pub open spec fn intern_path(v: SlabView, c: CacheView, path: Seq<char>) -> Option<
    (SlabView, CacheView, InternPathResult),
> {
    match v.known(c, hash40_str(path)) {
        Some(idx) => Some(
            (v, c, InternPathResult { range: v.entry(idx).range, is_new: false }),
        ),
        None => {
            let (base, found) = base_of(v, c, path);
            match path_strip_prefix(path, base) {
                Some(rest) => match intern_parts(
                    v,
                    c,
                    hash40_str(base),
                    found,
                    path_components(rest).map_values(|n: Seq<char>| encode_utf8(n)),
                ) {
                    Some(t) => Some(
                        (
                            t.slab,
                            t.cache,
                            InternPathResult {
                                range: SmolRange::of(t.len as u8, v.components.len() as u32),
                                is_new: true,
                            },
                        ),
                    ),
                    None => None,
                },
                None => None,
            }
        },
    }
}

impl SlabView {
    /// The strings of every entry hash to the entry's hash, which is not that of the empty string.
    pub open spec fn faithful(self) -> bool {
        forall|idx: int| #[trigger]
            self.has_entry(idx) ==> {
                let parts = self.resolve_range(self.entry(idx).range);
                &&& parts.len() > 0
                &&& hash40(join(parts)) == self.entry_hash(idx)
                &&& self.entry_hash(idx) != hash40(Seq::<u8>::empty())
            }
    }

    /// No two entries of a bucket are of the same hash.
    pub open spec fn distinct(self) -> bool {
        forall|b: int, i: int, j: int|
            0 <= b < HASH_BUCKET_COUNT && 0 <= i < j < self.buckets[b].len() ==> (
            #[trigger] self.buckets[b][i]).shifted_hash != (
            #[trigger] self.buckets[b][j]).shifted_hash
    }

    /// The cache knows every entry, and the strings that it remembers have the hashes that it
    /// remembers them by.
    pub open spec fn cache_complete(self, c: CacheView) -> bool {
        &&& forall|idx: int| #[trigger]
            self.has_entry(idx) ==> self.known(c, self.entry_hash(idx)) is Some
        &&& forall|k: u64| #[trigger]
            c.components.contains_key(k) ==> hash40(self.string(c.components[k] as int)).0 == k
    }

    /// Is there an entry of this hash?
    pub open spec fn stores(self, hash: Hash40) -> bool {
        exists|idx: int| #[trigger] self.has_entry(idx) && self.entry_hash(idx) == hash
    }

    /// Every entry stands for its hash and is the only one that does.
    pub open spec fn sound(self, c: CacheView) -> bool {
        self.faithful() && self.distinct() && self.cache_complete(c)
    }
}

/// What a slab stores stays there when it grows.
pub proof fn law_grown_stores(v: SlabView, w: SlabView, hash: Hash40)
    requires
        v.within_capacity(),
        grown(v, w),
        v.stores(hash),
    ensures
        w.stores(hash),
{
    let idx = choose|idx: int| #[trigger] v.has_entry(idx) && v.entry_hash(idx) == hash;
    lemma_grown_entry(v, w, idx);
}

/// An empty slab is sound.
pub proof fn law_empty_sound(c: CacheView)
    requires
        c.components == Map::<u64, u32>::empty(),
    ensures
        SlabView::empty().sound(c),
{
    let v = SlabView::empty();
    assert forall|idx: int| !(#[trigger] v.has_entry(idx)) by {}
}

/// In a slab that was finalized after sound additions, the strings of every hash that was stored are
/// found by it and hash to it.
pub proof fn law_stored_found(v: SlabView, w: SlabView, hash: Hash40)
    requires
        v.wf(),
        v.faithful(),
        finalized_from(v, w),
        hash.wf(),
        v.stores(hash),
    ensures
        w.components_of(hash) is Some,
        hash40(join(w.components_of(hash)->0)) == hash,
{
    let idx = choose|idx: int| #[trigger] v.has_entry(idx) && v.entry_hash(idx) == hash;
    law_finalized(v, w, idx);
    law_finalized_faithful(v, w, hash);
}

/// A path that is continued by a name.
pub open spec fn extended(path: Seq<u8>, name: Seq<u8>) -> Seq<u8> {
    if path.len() == 0 {
        name
    } else {
        path + seq![0x2Fu8] + name
    }
}

/// A path that is continued by the first `n` names.
pub open spec fn extended_by(path: Seq<u8>, names: Seq<Seq<u8>>, n: int) -> Seq<u8>
    decreases n,
{
    if n <= 0 {
        path
    } else {
        extended(extended_by(path, names, n - 1), names[n - 1])
    }
}

proof fn lemma_slash()
    ensures
        encode_utf8("/"@) == seq![0x2Fu8],
        encode_utf8(""@) == Seq::<u8>::empty(),
{
    reveal_strlit("/");
    reveal_strlit("");
    assert("/"@ =~= seq!['/']);
    assert(""@ =~= Seq::<char>::empty());
    lemma_slash_last("/"@);
    assert("/"@.drop_first() =~= Seq::<char>::empty());
    assert(encode_utf8(Seq::<char>::empty()) =~= Seq::<u8>::empty());
    assert(encode_utf8("/"@) =~= vstd::utf8::encode_scalar('/' as u32));
    assert('/' as u32 == 0x2F);
    assert(encode_utf8("/"@) =~= seq![0x2Fu8]);
}

/// The hash of a path that is continued by a string with the same hash as a name is the hash of the
/// path continued by the name.
pub(crate) proof fn lemma_continued(p: Seq<u8>, parts: Seq<Seq<u8>>, x: Seq<u8>, name: Seq<u8>)
    requires
        hash40(p) == hash40(join(parts)),
        p.len() == 0 <==> parts.len() == 0,
        p.len() > 0 ==> hash40(p) != hash40(Seq::<u8>::empty()),
        hash40(x) == hash40(name),
        x.len() < 0x100,
        name.len() < 0x100,
    ensures
        continued(hash40(p), name) == hash40(extended(p, name)),
        continued(hash40(p), name) == hash40(join(parts.push(x))),
{
    lemma_slash();
    law_hash40_layout(p);
    law_hash40_layout(Seq::empty());
    let d = seq![0x2Fu8];
    let all = parts.push(x);
    assert(all.drop_last() =~= parts);
    if p.len() == 0 {
        assert(p =~= Seq::<u8>::empty());
        law_with(p, name);
        assert(p + name =~= name);
        assert(join(all) =~= x);
    } else {
        let q = join(parts);
        law_with(p, d);
        law_with(p + d, name);
        law_with(q, d);
        law_with_hash(q + d, x);
        law_with_hash(p + d, name);
        assert(join(all) =~= q + d + x);
    }
}

pub(crate) proof fn lemma_hash_pieces(hash: Hash40, b: int, sh: u32)
    requires
        hash.wf(),
    ensures
        (sh * 0x100 + b) as u64 == hash.0 && 0 <= b < 0x100 <==> b == bucket_of(hash) && sh == shifted(
            hash,
        ),
{
}

/// An entry that the cache does not know is not there.
proof fn lemma_unknown(v: SlabView, c: CacheView, hash: Hash40, i: int)
    requires
        v.wf(),
        v.cache_complete(c),
        hash.wf(),
        v.known(c, hash) is None,
        0 <= i < v.buckets[bucket_of(hash)].len(),
    ensures
        v.buckets[bucket_of(hash)][i].shifted_hash != shifted(hash),
{
    let b = bucket_of(hash);
    assert(v.buckets[b].len() <= HASH_BUCKET_SIZE);
    lemma_index(b, i);
    let idx = b * HASH_BUCKET_SIZE + i;
    assert(v.has_entry(idx));
    if v.buckets[b][i].shifted_hash == shifted(hash) {
        assert(v.entry_hash(idx) == hash);
    }
}

/// What is not known stays so, but for the hash that is added.
pub(crate) proof fn lemma_known_grown(v: SlabView, c: CacheView, w: SlabView, d: CacheView, hash: Hash40)
    requires
        v.within_capacity(),
        v.cache_ok(c),
        grown(v, w),
        d.previous == c.previous,
        d.paths.contains_key(hash.0) == c.paths.contains_key(hash.0),
    ensures
        v.known(c, hash) is Some <==> w.known(d, hash) is Some,
{
    let b = bucket_of(hash);
    if v.finalized && !c.paths.contains_key(hash.0) {
        let n = c.previous[b] as int;
        assert(v.buckets[b].is_prefix_of(w.buckets[b]));
        assert(c.previous[b] <= v.buckets[b].len());
        assert forall|i: int| 0 <= i < n implies #[trigger] v.buckets[b][i] == w.buckets[b][i] by {}
        if v.known(c, hash) is Some {
            let i = choose|i: int|
                0 <= i < n && (#[trigger] v.buckets[b][i]).shifted_hash == shifted(hash);
            assert(w.buckets[b][i].shifted_hash == shifted(hash));
        }
        if w.known(d, hash) is Some {
            let i = choose|i: int|
                0 <= i < n && (#[trigger] w.buckets[b][i]).shifted_hash == shifted(hash);
            assert(v.buckets[b][i].shifted_hash == shifted(hash));
        }
    }
}

/// Where the state of adding a path stands: the components from `start` on hash like `path`.
pub open spec fn stands_for(s: Interning, start: u32, path: Seq<u8>) -> bool {
    let parts = s.slab.resolve(start as nat, s.slab.components.len());
    &&& s.hash == hash40(path)
    &&& s.hash == hash40(join(parts))
    &&& path.len() == 0 <==> parts.len() == 0
    &&& path.len() > 0 ==> s.hash != hash40(Seq::<u8>::empty())
}

/// What continuing a path by a name does to the slab and the cache.
#[verifier::opaque]
pub(crate) open spec fn name_added(s: Interning, t: Interning, start: u32, name: Seq<u8>, x: u32) -> bool {
    let idx = s.slab.next_index(t.hash);
    let v = s.slab;
    let w = t.slab;
    &&& t.hash == continued(s.hash, name)
    &&& w.wf()
    &&& grown(v, w)
    &&& w.components == v.components.push(u24::of(x))
    &&& x < IS_INTERNED_COMPONENT
    &&& x < w.strings.len()
    &&& hash40(w.string(x as int)) == hash40(name)
    &&& w.string(x as int).len() < 0x100
    &&& w.buckets == v.add_entry(t.hash, SmolRange::of((s.len + 1) as u8, start)).buckets
    &&& w.has_entry(idx)
    &&& w.entry(idx).range == SmolRange::of((s.len + 1) as u8, start)
    &&& w.entry_hash(idx) == t.hash
    &&& t.cache.paths == s.cache.paths.insert(t.hash.0, idx as u32)
    &&& t.cache.previous == s.cache.previous
    &&& t.cache.components == s.cache.components.insert(hash40(name).0, x)
    &&& t.hash.wf()
    &&& s.len < 0xFF
    &&& t.len == s.len + 1
}

pub(crate) proof fn lemma_name_added(s: Interning, start: u32, name: Seq<u8>) -> (x: u32)
    requires
        interning_ok(s, start),
        start <= INTERNED_PATH_SLAB_SIZE,
        s.slab.cache_complete(s.cache),
        0 < name.len() < 0x100,
        intern_name(s, start, name) is Some,
    ensures
        name_added(s, intern_name(s, start, name)->0, start, name, x),
{
    reveal(intern_name);
    reveal(name_added);
    law_intern_name(s, start, name);
    let t = intern_name(s, start, name)->0;
    let hash = continued(s.hash, name);
    let (u, x) = intern_string(s, name)->0;
    let k = hash40(name).0;
    if !s.cache.components.contains_key(k) {
        lemma_add_string(s.slab, name);
    } else {
        lemma_grown_refl(s.slab);
        assert(hash40(s.slab.string(x as int)).0 == k);
        assert(s.cache.components.insert(k, x) =~= s.cache.components);
    }
    lemma_add_component(u.slab, x);
    let v = u.slab.add_component(x);
    let range = SmolRange::of((s.len + 1) as u8, start);
    law_smol_range((s.len + 1) as u8, start);
    lemma_add_entry(v, hash, range);
    assert(u.slab.strings[x as int].end() <= u.slab.bytes.len());
    assert(t.slab.string(x as int) == u.slab.string(x as int));
    x
}

pub(crate) proof fn lemma_old_entries(s: Interning, t: Interning, start: u32, name: Seq<u8>, x: u32, idx: int)
    requires
        s.slab.wf(),
        name_added(s, t, start, name, x),
        t.slab.has_entry(idx),
        idx != s.slab.next_index(t.hash),
    ensures
        s.slab.has_entry(idx),
        t.slab.entry(idx) == s.slab.entry(idx),
        t.slab.entry_hash(idx) == s.slab.entry_hash(idx),
{
    reveal(name_added);
    let b = bucket_part(idx);
    assert(s.slab.buckets[b].len() <= HASH_BUCKET_SIZE);
    if b == bucket_of(t.hash) {
        assert(idx == b * HASH_BUCKET_SIZE + slot_part(idx));
    }
    lemma_grown_entry(s.slab, t.slab, idx);
}

pub(crate) proof fn lemma_name_stands(s: Interning, t: Interning, start: u32, name: Seq<u8>, x: u32, path: Seq<u8>)
    requires
        interning_ok(s, start),
        name_added(s, t, start, name, x),
        stands_for(s, start, path),
        0 < name.len() < 0x100,
        hash40(extended(path, name)) != hash40(Seq::<u8>::empty()),
    ensures
        stands_for(t, start, extended(path, name)),
        t.hash == hash40(extended(path, name)),
{
    let n = s.slab.components.len();
    let w = t.slab;
    let parts = s.slab.resolve(start as nat, n);
    let str_x = w.string(x as int);
    assert(grown(s.slab, w) && w.components == s.slab.components.push(u24::of(x)) && x
        < IS_INTERNED_COMPONENT && hash40(str_x) == hash40(name) && str_x.len() < 0x100 && t.hash
        == continued(s.hash, name)) by {
        reveal(name_added);
    }
    law_u24(x, u24::of(x));
    assert(w.components[n as int].val() == x);
    law_grown_resolve(s.slab, w, start as nat, n);
    lemma_resolve_push(w, start as nat, n, parts);
    assert(w.components.len() == n + 1);
    assert(w.resolve(start as nat, w.components.len()) == parts.push(str_x));
    lemma_continued(path, parts, str_x, name);
    law_hash40_layout(extended(path, name));
}

/// One more component that is a string.
pub(crate) proof fn lemma_resolve_push(w: SlabView, start: nat, n: nat, parts: Seq<Seq<u8>>)
    requires
        start <= n < w.components.len(),
        w.resolve(start, n) == parts,
        w.components[n as int].val() < IS_INTERNED_COMPONENT,
    ensures
        w.resolve(start, n + 1) == parts.push(w.string(w.components[n as int].val() as int)),
{
}

proof fn lemma_name_faithful(s: Interning, t: Interning, start: u32, name: Seq<u8>, x: u32, path: Seq<u8>)
    requires
        interning_ok(s, start),
        s.slab.faithful(),
        name_added(s, t, start, name, x),
        stands_for(t, start, path),
        path.len() > 0,
        t.hash != hash40(Seq::<u8>::empty()),
    ensures
        t.slab.faithful(),
{
    let w = t.slab;
    let new_idx = s.slab.next_index(t.hash);
    assert(w.wf() && grown(s.slab, w) && w.entry(new_idx).range == SmolRange::of(
        (s.len + 1) as u8,
        start,
    ) && w.entry_hash(new_idx) == t.hash && w.components.len() == s.slab.components.len() + 1 && s.len
        < 0xFF) by {
        reveal(name_added);
    }
    law_smol_range((s.len + 1) as u8, start);
    assert forall|idx: int| #[trigger] w.has_entry(idx) implies ({
        let q = w.resolve_range(w.entry(idx).range);
        &&& q.len() > 0
        &&& hash40(join(q)) == w.entry_hash(idx)
        &&& w.entry_hash(idx) != hash40(Seq::<u8>::empty())
    }) by {
        if idx != new_idx {
            lemma_old_entries(s, t, start, name, x, idx);
            lemma_entry_range(s.slab, idx);
            let r = s.slab.entry(idx).range;
            law_grown_resolve(s.slab, w, r.spec_start() as nat, r.end() as nat);
        }
    }
}

proof fn lemma_name_distinct(s: Interning, t: Interning, start: u32, name: Seq<u8>, x: u32)
    requires
        interning_ok(s, start),
        s.slab.distinct(),
        s.slab.cache_complete(s.cache),
        name_added(s, t, start, name, x),
        s.slab.known(s.cache, t.hash) is None,
    ensures
        t.slab.distinct(),
{
    reveal(name_added);
    let w = t.slab;
    assert forall|b: int, i: int, j: int|
        0 <= b < HASH_BUCKET_COUNT && 0 <= i < j < w.buckets[b].len() implies (
    #[trigger] w.buckets[b][i]).shifted_hash != (#[trigger] w.buckets[b][j]).shifted_hash by {
        assert(w.buckets[b][i] == s.slab.buckets[b][i]);
        if j < s.slab.buckets[b].len() {
            assert(w.buckets[b][j] == s.slab.buckets[b][j]);
        } else {
            lemma_unknown(s.slab, s.cache, t.hash, i);
        }
    }
}

proof fn lemma_name_complete(s: Interning, t: Interning, start: u32, name: Seq<u8>, x: u32)
    requires
        interning_ok(s, start),
        s.slab.cache_complete(s.cache),
        name_added(s, t, start, name, x),
    ensures
        t.slab.cache_complete(t.cache),
{
    let w = t.slab;
    let new_idx = s.slab.next_index(t.hash);
    assert(grown(s.slab, w) && t.cache.paths == s.cache.paths.insert(t.hash.0, new_idx as u32)
        && t.cache.previous == s.cache.previous && t.cache.components
        == s.cache.components.insert(hash40(name).0, x) && hash40(w.string(x as int)) == hash40(name)
        && w.entry_hash(new_idx) == t.hash) by {
        reveal(name_added);
    }
    assert forall|idx: int| #[trigger] w.has_entry(idx) implies w.known(
        t.cache,
        w.entry_hash(idx),
    ) is Some by {
        if idx != new_idx {
            lemma_old_entries(s, t, start, name, x, idx);
            let h = w.entry_hash(idx);
            if h.0 != t.hash.0 {
                lemma_known_grown(s.slab, s.cache, w, t.cache, h);
            }
        }
    }
    assert forall|q: u64| #[trigger] t.cache.components.contains_key(q) implies hash40(
        w.string(t.cache.components[q] as int),
    ).0 == q by {
        let y = t.cache.components[q] as int;
        if q != hash40(name).0 {
            assert(s.cache.components.contains_key(q));
            assert(s.slab.strings[y].end() <= s.slab.bytes.len());
            assert(w.string(y) =~= s.slab.string(y));
        }
    }
}

/// Continuing a path by a name that was not known keeps the slab sound. The new entry stands for the
/// continued path, and no other hash becomes known.
pub proof fn law_intern_name_sound(s: Interning, start: u32, path: Seq<u8>, name: Seq<u8>, other: Hash40)
    requires
        interning_ok(s, start),
        start <= INTERNED_PATH_SLAB_SIZE,
        s.slab.sound(s.cache),
        stands_for(s, start, path),
        0 < name.len() < 0x100,
        hash40(extended(path, name)) != hash40(Seq::<u8>::empty()),
        s.slab.known(s.cache, hash40(extended(path, name))) is None,
        intern_name(s, start, name) is Some,
    ensures
        intern_name(s, start, name) matches Some(t) ==> t.slab.sound(t.cache) && stands_for(
            t,
            start,
            extended(path, name),
        ) && (other != t.hash && s.slab.known(s.cache, other) is None ==> t.slab.known(
            t.cache,
            other,
        ) is None),
{
    let t = intern_name(s, start, name)->0;
    let x = lemma_name_added(s, start, name);
    lemma_name_stands(s, t, start, name, x, path);
    lemma_name_faithful(s, t, start, name, x, extended(path, name));
    lemma_name_distinct(s, t, start, name, x);
    lemma_name_complete(s, t, start, name, x);
    if other.0 != t.hash.0 {
        reveal(name_added);
        lemma_known_grown(s.slab, s.cache, t.slab, t.cache, other);
    }
}


/// Names that are not empty and of a length that a hash can tell.
pub open spec fn short_names(names: Seq<Seq<u8>>) -> bool {
    forall|m: int| 0 <= m < names.len() ==> 0 < (#[trigger] names[m]).len() < 0x100
}

/// No two of the paths that lead from a path over the names have the same hash, and none has that of the
/// empty path.
pub open spec fn own_hashes(path: Seq<u8>, names: Seq<Seq<u8>>, n: int) -> bool {
    &&& forall|j: int, k: int|
        0 <= j < k <= n ==> hash40(#[trigger] extended_by(path, names, j)) != hash40(
            #[trigger] extended_by(path, names, k),
        )
    &&& forall|k: int|
        0 < k <= n ==> hash40(#[trigger] extended_by(path, names, k)) != hash40(Seq::<u8>::empty())
}

pub(crate) proof fn lemma_extended_by_len(path: Seq<u8>, names: Seq<Seq<u8>>, m: int, n: int)
    requires
        0 <= m < n,
        forall|i: int| 0 <= i < n ==> (#[trigger] names[i]).len() > 0,
    ensures
        extended_by(path, names, m).len() < extended_by(path, names, n).len(),
    decreases n,
{
    assert(names[n - 1].len() > 0);
    if m < n - 1 {
        lemma_extended_by_len(path, names, m, n - 1);
    }
}

/// Continuing a path by names, none of which leads to a path that was known, keeps the slab sound. The
/// new entries stand for the continued paths, and no other hash becomes known.
pub proof fn law_intern_names_sound(
    s: Interning,
    start: u32,
    path: Seq<u8>,
    names: Seq<Seq<u8>>,
    n: int,
    other: Hash40,
)
    requires
        0 <= n <= names.len(),
        interning_ok(s, start),
        start <= INTERNED_PATH_SLAB_SIZE,
        s.slab.sound(s.cache),
        stands_for(s, start, path),
        short_names(names),
        own_hashes(path, names, n),
        forall|m: int|
            0 < m <= n ==> s.slab.known(
                s.cache,
                hash40(#[trigger] extended_by(path, names, m)),
            ) is None,
    ensures
        intern_names(s, start, names, n) matches Some(t) ==> interning_ok(t, start) && t.slab.sound(
            t.cache,
        ) && stands_for(t, start, extended_by(path, names, n)) && ((s.slab.known(
            s.cache,
            other,
        ) is None && forall|m: int|
            0 < m <= n ==> other != hash40(#[trigger] extended_by(path, names, m)))
            ==> t.slab.known(t.cache, other) is None),
    decreases n,
{
    if n > 0 && intern_names(s, start, names, n) is Some {
        let u = intern_names(s, start, names, n - 1)->0;
        let p = extended_by(path, names, n - 1);
        let q = extended_by(path, names, n);
        assert(names[n - 1].len() > 0);
        assert forall|m: int| 0 < m <= n - 1 implies hash40(q) != hash40(
            #[trigger] extended_by(path, names, m),
        ) by {}
        law_intern_names_sound(s, start, path, names, n - 1, hash40(q));
        law_intern_names_sound(s, start, path, names, n - 1, other);
        law_intern_name(u, start, names[n - 1]);
        law_intern_name_sound(u, start, p, names[n - 1], other);
        let t = intern_names(s, start, names, n)->0;
        assert(t.hash == hash40(q));
    }
}

/// The path that was added is known by its hash, and its components are those from `start` on.
pub open spec fn known_as(t: Interning, hash: Hash40, start: u32) -> bool {
    t.slab.known(t.cache, hash) matches Some(idx) && t.slab.entry(idx).range == SmolRange::of(
        t.len as u8,
        start,
    )
}

proof fn lemma_name_known(s: Interning, start: u32, name: Seq<u8>)
    requires
        interning_ok(s, start),
    ensures
        intern_name(s, start, name) matches Some(t) ==> t.cache.paths.contains_key(t.hash.0) && known_as(
            t,
            t.hash,
            start,
        ),
{
    reveal(intern_name);
    if let Some(t) = intern_name(s, start, name) {
        let b = bucket_of(t.hash);
        let n = s.slab.buckets[b].len() as int;
        lemma_index(b, n);
        assert(t.slab.buckets[b][n].range == SmolRange::of(t.len as u8, start));
    }
}

/// A sound slab stays sound when a path is added that continues a known base, or none, by names. The
/// components of the path hash like the path.
pub proof fn law_intern_parts_sound(
    v: SlabView,
    c: CacheView,
    path: Seq<u8>,
    base: Option<int>,
    names: Seq<Seq<u8>>,
)
    requires
        v.wf(),
        v.cache_ok(c),
        v.sound(c),
        match base {
            Some(idx) => v.has_entry(idx) && v.entry_hash(idx) == hash40(path) && path.len() > 0,
            None => path.len() == 0,
        },
        path.len() > 0 ==> hash40(path) != hash40(Seq::<u8>::empty()),
        short_names(names),
        own_hashes(path, names, names.len() as int),
        forall|m: int|
            0 < m <= names.len() ==> v.known(
                c,
                hash40(#[trigger] extended_by(path, names, m)),
            ) is None,
    ensures
        intern_parts(v, c, hash40(path), base, names) matches Some(t) ==> t.slab.sound(t.cache)
            && hash40(join(t.slab.resolve(v.components.len(), t.slab.components.len()))) == hash40(
            extended_by(path, names, names.len() as int),
        ) && t.slab.components.len() == v.components.len() + t.len && t.len <= 0xFF && (names.len()
            > 0 ==> t.slab.stores(hash40(extended_by(path, names, names.len() as int))) && known_as(
            t,
            hash40(extended_by(path, names, names.len() as int)),
            v.components.len() as u32,
        )),
{
    if let Some(s) = intern_base(v, c, hash40(path), base) {
        let start = v.components.len() as u32;
        law_hash40_layout(path);
        if let Some(idx) = base {
            let x = (IS_INTERNED_COMPONENT + idx) as u32;
            lemma_add_component(v, x);
            let w = v.add_component(x);
            lemma_cache_grown(v, w, c);
            lemma_base_sound(v, c, idx);
            lemma_base_stands(v, idx, path);
        } else {
            assert(path =~= Seq::empty());
            assert(v.resolve(start as nat, v.components.len()) =~= Seq::empty());
        }
        assert forall|m: int| 0 < m <= names.len() implies s.slab.known(
            s.cache,
            hash40(#[trigger] extended_by(path, names, m)),
        ) is None by {
            if base is Some {
                let w = s.slab;
                lemma_grown_refl(v);
                lemma_add_component(v, (IS_INTERNED_COMPONENT + base->0) as u32);
                lemma_known_grown(v, c, w, c, hash40(extended_by(path, names, m)));
            }
        }
        law_intern_names_sound(s, start, path, names, names.len() as int, hash40(path));
        if names.len() > 0 {
            if let Some(t) = intern_names(s, start, names, names.len() as int) {
                let u = intern_names(s, start, names, names.len() - 1)->0;
                law_intern_names_sound(s, start, path, names, names.len() - 1, hash40(path));
                lemma_name_known(u, start, names.last());
                assert(t.cache.paths.contains_key(t.hash.0));
                assert(t.slab.has_entry(t.cache.paths[t.hash.0] as int));
            }
        }
    }
}

/// A component that stands for a path leaves the slab sound.
pub(crate) proof fn lemma_base_sound(v: SlabView, c: CacheView, idx: int)
    requires
        v.wf(),
        v.cache_ok(c),
        v.sound(c),
        v.has_entry(idx),
        v.components.len() < INTERNED_PATH_SLAB_SIZE,
    ensures
        v.add_component((IS_INTERNED_COMPONENT + idx) as u32).sound(c),
{
    let x = (IS_INTERNED_COMPONENT + idx) as u32;
    let w = v.add_component(x);
    lemma_add_component(v, x);
    assert forall|i: int| #[trigger] w.has_entry(i) implies ({
        let q = w.resolve_range(w.entry(i).range);
        &&& q.len() > 0
        &&& hash40(join(q)) == w.entry_hash(i)
        &&& w.entry_hash(i) != hash40(Seq::<u8>::empty())
    }) && w.known(c, w.entry_hash(i)) is Some by {
        assert(v.has_entry(i));
        lemma_entry_range(v, i);
        let r = v.entry(i).range;
        law_grown_resolve(v, w, r.spec_start() as nat, r.end() as nat);
        lemma_known_grown(v, c, w, c, v.entry_hash(i));
    }
    assert forall|k: u64| #[trigger] c.components.contains_key(k) implies hash40(
        w.string(c.components[k] as int),
    ).0 == k by {
        assert(w.string(c.components[k] as int) == v.string(c.components[k] as int));
    }
    assert forall|b: int, i: int, j: int|
        0 <= b < HASH_BUCKET_COUNT && 0 <= i < j < w.buckets[b].len() implies (
    #[trigger] w.buckets[b][i]).shifted_hash != (#[trigger] w.buckets[b][j]).shifted_hash by {
        assert(v.buckets[b][i].shifted_hash != v.buckets[b][j].shifted_hash);
    }
}

/// A component that stands for a path comes down to the strings of the path.
pub(crate) proof fn lemma_base_stands(v: SlabView, idx: int, path: Seq<u8>)
    requires
        v.wf(),
        v.faithful(),
        v.has_entry(idx),
        v.entry_hash(idx) == hash40(path),
        v.components.len() < INTERNED_PATH_SLAB_SIZE,
        path.len() > 0,
    ensures
        ({
            let w = v.add_component((IS_INTERNED_COMPONENT + idx) as u32);
            let parts = w.resolve(v.components.len(), w.components.len());
            parts.len() > 0 && hash40(join(parts)) == hash40(path) && parts == v.resolve_range(
                v.entry(idx).range,
            )
        }),
{
    let x = (IS_INTERNED_COMPONENT + idx) as u32;
    let w = v.add_component(x);
    let n = v.components.len();
    lemma_add_component(v, x);
    lemma_entry_range(v, idx);
    law_u24(x, u24::of(x));
    let r = v.entry(idx).range;
    law_grown_resolve(v, w, r.spec_start() as nat, r.end() as nat);
    assert(w.components[n as int].val() == x);
    assert(w.entry(idx) == v.entry(idx));
    assert(w.resolve(n, n) =~= Seq::empty());
    assert(w.resolve(n, (n + 1) as nat) =~= v.resolve_range(r));
}


/// A path of plain names.
pub open spec fn is_plain_path(path: Seq<char>) -> bool {
    exists|names: Seq<Seq<char>>| is_plain(names) && joined(names) == path
}

/// Names of a plain path that hashes can tell: each is shorter than 256 bytes, and no two of the paths
/// that they lead over have the same hash. The empty path is one of these.
pub open spec fn tellable_names(names: Seq<Seq<char>>) -> bool {
    &&& is_plain(names)
    &&& forall|i: int| 0 <= i < names.len() ==> encode_utf8(#[trigger] names[i]).len() < 0x100
    &&& forall|j: int, k: int|
        0 <= j < k <= names.len() ==> hash40_str(joined(#[trigger] names.take(j))) != hash40_str(
            joined(#[trigger] names.take(k)),
        )
}

/// A plain path that hashes can tell.
pub open spec fn is_tellable(path: Seq<char>) -> bool {
    is_plain_path(path) && tellable_names(plain_names(path))
}

/// The names behind the first `m` of a path that hashes can tell.
pub(crate) proof fn lemma_rest_tellable(names: Seq<Seq<char>>, m: int)
    requires
        tellable_names(names),
        0 <= m <= names.len(),
    ensures
        ({
            let rest = names.skip(m).map_values(|n: Seq<char>| encode_utf8(n));
            short_names(rest) && own_hashes(
                encode_utf8(joined(names.take(m))),
                rest,
                rest.len() as int,
            )
        }),
{
    let rest = names.skip(m).map_values(|n: Seq<char>| encode_utf8(n));
    let p = encode_utf8(joined(names.take(m)));
    let n = rest.len() as int;
    assert forall|i: int| 0 <= i < n implies 0 < (#[trigger] rest[i]).len() < 0x100 by {
        assert(is_plain_name(names[m + i]));
        lemma_slash_last(names[m + i]);
        assert(encode_utf8(names[m + i]).len() < 0x100);
    }
    assert forall|j: int, k: int| 0 <= j < k <= n implies hash40(#[trigger] extended_by(p, rest, j))
        != hash40(#[trigger] extended_by(p, rest, k)) by {
        lemma_joined_extended(names, m, j);
        lemma_joined_extended(names, m, k);
        assert(hash40_str(joined(names.take(m + j))) != hash40_str(joined(names.take(m + k))));
    }
    assert forall|k: int| 0 < k <= n implies hash40(#[trigger] extended_by(p, rest, k)) != hash40(
        Seq::<u8>::empty(),
    ) by {
        lemma_joined_extended(names, m, k);
        assert(hash40_str(joined(names.take(0))) != hash40_str(joined(names.take(m + k))));
        assert(joined(names.take(0)) =~= Seq::empty());
        assert(encode_utf8(joined(names.take(0))) =~= Seq::<u8>::empty());
    }
}

/// The bytes of the first names of a plain path, joined by slashes, are continued by those of the next
/// names.
pub(crate) proof fn lemma_joined_extended(names: Seq<Seq<char>>, m: int, i: int)
    requires
        is_plain(names),
        0 <= m <= m + i <= names.len(),
    ensures
        extended_by(
            encode_utf8(joined(names.take(m))),
            names.skip(m).map_values(|n: Seq<char>| encode_utf8(n)),
            i,
        ) == encode_utf8(joined(names.take(m + i))),
        encode_utf8(joined(names.take(m + i))).len() == 0 <==> m + i == 0,
    decreases i,
{
    let k = m + i;
    let rest = names.skip(m).map_values(|n: Seq<char>| encode_utf8(n));
    if k > 0 {
        let name = names[k - 1];
        assert(is_plain_name(name));
        let t = names.take(k);
        assert(is_plain(t)) by {
            assert forall|j: int| 0 <= j < t.len() implies is_plain_name(#[trigger] t[j]) by {
                assert(is_plain_name(names[j]));
            }
        }
        lemma_joined_last(t);
        lemma_slash_last(joined(t));
        lemma_slash_last(name);
    } else {
        assert(names.take(0) =~= Seq::empty());
        assert(joined(names.take(0)) =~= Seq::empty());
    }
    if i > 0 {
        lemma_joined_extended(names, m, i - 1);
        let t = names.take(k);
        let front = names.take(k - 1);
        let name = names[k - 1];
        assert(t.drop_last() =~= front);
        assert(t.last() == name);
        assert(rest[i - 1] == encode_utf8(name));
        let p = encode_utf8(joined(front));
        if k == 1 {
            assert(joined(t) == name);
        } else {
            lemma_slash();
            reveal_strlit("/");
            assert("/"@ =~= seq!['/']);
            encode_utf8_concat(joined(front), seq!['/']);
            encode_utf8_concat(joined(front) + seq!['/'], name);
        }
    }
}

/// An index that is known leads to an entry of the hash.
pub(crate) proof fn lemma_known_hash(v: SlabView, c: CacheView, hash: Hash40)
    requires
        v.wf(),
        v.cache_ok(c),
        hash.wf(),
    ensures
        v.known(c, hash) matches Some(idx) ==> v.has_entry(idx) && v.entry_hash(idx) == hash,
{
    if v.known(c, hash) is Some && !c.paths.contains_key(hash.0) {
        let b = bucket_of(hash);
        let n = c.previous[b] as int;
        assert(c.previous[b] <= v.buckets[b].len());
        assert(v.buckets[b].len() <= HASH_BUCKET_SIZE);
        let i = choose|i: int|
            0 <= i < n && (#[trigger] v.buckets[b][i]).shifted_hash == shifted(hash);
        lemma_index(b, i);
    }
}

/// Adding a plain path that was not known, whose longest known ancestor has the first `m` of its names.
proof fn lemma_plain_sound(v: SlabView, c: CacheView, names: Seq<Seq<char>>, m: int, base: Option<int>)
    requires
        v.wf(),
        v.cache_ok(c),
        v.sound(c),
        tellable_names(names),
        0 <= m <= names.len(),
        match base {
            Some(idx) => v.known(c, hash40_str(joined(names.take(m)))) == Some(idx),
            None => m == 0,
        },
        forall|j: int|
            m < j <= names.len() ==> v.known(c, hash40_str(joined(#[trigger] names.take(j)))) is None,
    ensures
        intern_parts(
            v,
            c,
            hash40_str(joined(names.take(m))),
            base,
            names.skip(m).map_values(|n: Seq<char>| encode_utf8(n)),
        ) matches Some(t) ==> t.slab.sound(t.cache) && hash40(
            join(t.slab.resolve(v.components.len(), t.slab.components.len())),
        ) == hash40_str(joined(names)) && t.slab.components.len() == v.components.len() + t.len
            && t.len <= 0xFF && (m < names.len() ==> t.slab.stores(hash40_str(joined(names)))
            && known_as(t, hash40_str(joined(names)), v.components.len() as u32)),
{
    let p = encode_utf8(joined(names.take(m)));
    let rest = names.skip(m).map_values(|n: Seq<char>| encode_utf8(n));
    let n = rest.len() as int;
    lemma_joined_extended(names, m, 0);
    lemma_joined_extended(names, m, n);
    assert(names.take(names.len() as int) =~= names);
    lemma_rest_tellable(names, m);
    assert forall|i: int| 0 < i <= n implies v.known(
        c,
        hash40(#[trigger] extended_by(p, rest, i)),
    ) is None by {
        lemma_joined_extended(names, m, i);
        assert(v.known(c, hash40_str(joined(names.take(m + i)))) is None);
    }
    if let Some(idx) = base {
        law_hash40_layout(p);
        lemma_known_hash(v, c, hash40(p));
        assert(v.entry_hash(idx) != hash40(Seq::<u8>::empty()));
    }
    law_intern_parts_sound(v, c, p, base, rest);
}

impl HashMemorySlab {
    /// Adds a path, unless it is known, and returns its components. `None` if a part of the slab is
    /// full.
    pub fn intern_path(&mut self, cache: &mut InternerCache, path: &str) -> (r: Option<
        InternPathResult,
    >)
        requires
            old(self).wf(),
            old(self)@.cache_ok(old(cache)@),
        ensures
            match (r, intern_path(old(self)@, old(cache)@, path@)) {
                (Some(x), Some((v, c, y))) => final(self)@ == v && final(cache)@ == c && x == y,
                (None, None) => true,
                _ => false,
            },
            r is Some ==> final(self).wf() && final(self)@.cache_ok(final(cache)@) && grown(
                old(self)@,
                final(self)@,
            ),
            r is Some && is_tellable(path@) && old(self)@.sound(old(cache)@) ==> final(self)@.sound(final(cache)@) && hash40(
                join(final(self)@.resolve_range(r->0.range)),
            ) == hash40_str(path@) && (path@.len() > 0 ==> final(self)@.stores(hash40_str(path@))),
            // Adding the path again changes nothing and comes to the same components.
            r is Some && is_tellable(path@) && 0 < path@.len() && old(self)@.sound(
                old(cache)@,
            ) ==> intern_path(
                final(self)@,
                final(cache)@,
                path@,
            ) == Some(
                (
                    final(self)@,
                    final(cache)@,
                    (InternPathResult { range: r->0.range, is_new: false }),
                ),
            ),
            // The path can be told from its hash, unless another path has the same hash.
            r is Some && is_tellable(path@) && old(self)@.sound(old(cache)@) && old(
                self,
            )@.rooted() ==> final(self)@.rooted() && adds_only(
                old(self)@,
                final(self)@,
                path_names(path@),
            ) && (0 < path@.len() && old(
                self,
            )@.unclashed(path_names(path@)) ==> final(self)@.tells(path_names(path@))),
    {
        let ghost v = self@;
        let ghost c = cache@;
        let ghost plain = is_tellable(path@) && v.sound(c);
        let ghost names = plain_names(path@);
        let ghost rooted = plain && v.rooted();
        let full_hash = Hash40::const_new(path);
        proof {
            law_hash40_layout(encode_utf8(path@));
            lemma_known_hash(v, c, full_hash);
            lemma_grown_refl(v);
        }
        if let Some(idx) = self.known(cache, full_hash) {
            proof {
                lemma_adds_nothing(v, v, path_names(path@));
                if rooted && 0 < path@.len() && v.unclashed(path_names(path@)) {
                    lemma_plain_tells(v, path@);
                }
            }
            return Some(
                InternPathResult { range: self.entry(idx as usize).range, is_new: false },
            );
        }
        let mut current: String = path.to_owned();
        let mut base: Option<u32> = None;
        let ghost mut m: int = names.len() as int;
        proof {
            assert(names.take(m) =~= names);
        }
        loop
            invariant_except_break
                base_of(v, c, path@) == base_of(v, c, current@),
                v.known(c, hash40_str(current@)) is None,
                plain ==> is_plain(names) && joined(names) == path@ && 0 <= m <= names.len()
                    && current@ == joined(names.take(m)) && forall|j: int|
                    m <= j <= names.len() ==> v.known(
                        c,
                        hash40_str(joined(#[trigger] names.take(j))),
                    ) is None,
                base is None,
            invariant
                v == self@,
                c == cache@,
                self.wf(),
                v.cache_ok(c),
            ensures
                base_of(v, c, path@) == (
                    current@,
                    match base {
                        Some(idx) => Some(idx as int),
                        None => None,
                    },
                ),
                base matches Some(idx) ==> v.has_entry(idx as int),
                plain ==> is_plain(names) && joined(names) == path@ && 0 <= m <= names.len()
                    && current@ == joined(names.take(m)) && match base {
                    Some(idx) => v.known(c, hash40_str(joined(names.take(m)))) == Some(idx as int),
                    None => m == 0,
                } && forall|j: int|
                    m < j <= names.len() ==> v.known(
                        c,
                        hash40_str(joined(#[trigger] names.take(j))),
                    ) is None,
            decreases current@.len(),
        {
            let ghost here = names.take(m);
            proof {
                if plain {
                    assert forall|j: int| 0 <= j < here.len() implies is_plain_name(
                        #[trigger] here[j],
                    ) by {
                        assert(is_plain_name(names[j]));
                    }
                    assert(is_plain(here) && joined(here) == current@);
                }
            }
            match parent(current.as_str()) {
                Some(p) => {
                    proof {
                        if plain {
                            assert(here.len() > 0);
                            assert(here.drop_last() =~= names.take(m - 1));
                            m = m - 1;
                        }
                    }
                    current = p;
                    let parent_hash = Hash40::const_new(current.as_str());
                    if let Some(idx) = self.known(cache, parent_hash) {
                        base = Some(idx);
                        break;
                    }
                },
                None => {
                    break;
                },
            }
        }
        let ghost found = match base {
            Some(idx) => Some(idx as int),
            None => None,
        };
        proof {
            if plain {
                assert(names.take(names.len() as int) =~= names);
                assert(joined(names) == path@ && joined(names.take(m)) == current@);
                let rest = names.skip(m);
                assert forall|j: int| 0 <= j < rest.len() implies is_plain_name(#[trigger] rest[j]) by {
                    assert(is_plain_name(names[m + j]));
                }
                lemma_plain_sound(v, c, names, m, found);
                if rooted {
                    lemma_plain_told(v, c, names, m, found);
                }
            }
        }
        let Some(rest) = strip_prefix(path, current.as_str()) else {
            return None;
        };
        let parts = components(rest.as_str());
        let base_hash = Hash40::const_new(current.as_str());
        proof {
            law_hash40_layout(encode_utf8(current@));
            assert(name_bytes(parts@) =~= path_components(rest@).map_values(
                |n: Seq<char>| encode_utf8(n),
            )) by {
                assert(views(parts@) == path_components(rest@));
                assert forall|i: int| 0 <= i < parts@.len() implies name_bytes(parts@)[i]
                    == path_components(rest@).map_values(|n: Seq<char>| encode_utf8(n))[i] by {
                    assert(views(parts@)[i] == parts@[i]@);
                }
            }
            if plain {
                assert(rest@ == joined(names.skip(m)));
                assert(path_components(rest@) == names.skip(m));
            }
        }
        match self.intern_parts(cache, base_hash, base, &parts) {
            Some(range) => {
                proof {
                    if plain {
                        let t = intern_parts(v, c, base_hash, found, name_bytes(parts@))->0;
                        law_smol_range(t.len as u8, v.components.len() as u32);
                    }
                    if rooted && 0 < path@.len() && v.unclashed(path_names(path@)) {
                        lemma_plain_tells(self@, path@);
                    }
                }
                Some(InternPathResult { range, is_new: true })
            },
            None => None,
        }
    }
}


/// An entry as key and value.
spec fn entry_pair(e: HashLookupKey) -> (u64, u32) {
    (e.shifted_hash as u64, e.range.0)
}

spec fn pair_entry(p: (u64, u32)) -> HashLookupKey {
    HashLookupKey { shifted_hash: p.0 as u32, range: SmolRange(p.1) }
}

/// Two buckets with the same entries.
pub open spec fn same_bucket(a: Seq<HashLookupKey>, b: Seq<HashLookupKey>) -> bool {
    &&& a.len() == b.len()
    &&& forall|e: HashLookupKey| #[trigger] a.contains(e) <==> b.contains(e)
}

/// No two entries are of the same hash.
pub open spec fn distinct_keys(s: Seq<HashLookupKey>) -> bool {
    forall|i: int, j: int|
        0 <= i < j < s.len() ==> (#[trigger] s[i]).shifted_hash != (#[trigger] s[j]).shifted_hash
}

/// Entries are sorted, and no two are of the same hash.
pub open spec fn strictly_sorted(s: Seq<HashLookupKey>) -> bool {
    forall|i: int, j: int|
        0 <= i < j < s.len() ==> (#[trigger] s[i]).shifted_hash < (#[trigger] s[j]).shifted_hash
}

/// `q` are the pairs `p` of the entries `a`, sorted, and `b` are the entries of `q`.
spec fn sorted_as(
    a: Seq<HashLookupKey>,
    p: Seq<(u64, u32)>,
    q: Seq<(u64, u32)>,
    b: Seq<HashLookupKey>,
) -> bool {
    &&& p == a.map_values(|e: HashLookupKey| entry_pair(e))
    &&& q.to_multiset() == p.to_multiset()
    &&& q.len() == p.len()
    &&& q.len() == b.len()
    &&& sorted_pairs(q)
    &&& same_bucket(a, b)
    &&& forall|i: int| 0 <= i < q.len() ==> entry_pair(#[trigger] b[i]) == q[i] && a.contains(b[i])
}

/// If no neighbours are of the same hash, no entries are.
proof fn lemma_neighbours_differ(
    a: Seq<HashLookupKey>,
    p: Seq<(u64, u32)>,
    q: Seq<(u64, u32)>,
    b: Seq<HashLookupKey>,
)
    requires
        sorted_as(a, p, q, b),
        forall|i: int| 0 < i < q.len() ==> q[i - 1].0 != (#[trigger] q[i]).0,
    ensures
        strictly_sorted(b),
        distinct_keys(a),
{
    assert forall|i: int, j: int| 0 <= i < j < b.len() implies (#[trigger] b[i]).shifted_hash < (
    #[trigger] b[j]).shifted_hash by {
        assert(q[i].0 <= q[i + 1].0 && q[i + 1 - 1].0 != q[i + 1].0);
        if i + 1 < j {
            assert(q[i + 1].0 <= q[j].0);
        }
        assert(entry_pair(b[i]) == q[i] && entry_pair(b[j]) == q[j]);
    }
    assert(q.no_duplicates()) by {
        assert forall|i: int, j: int| 0 <= i < q.len() && 0 <= j < q.len() && i != j implies q[i]
            != q[j] by {
            assert(entry_pair(b[i]) == q[i] && entry_pair(b[j]) == q[j]);
            if i < j {
                assert(b[i].shifted_hash < b[j].shifted_hash);
            } else {
                assert(b[j].shifted_hash < b[i].shifted_hash);
            }
        }
    }
    q.lemma_multiset_has_no_duplicates();
    p.lemma_multiset_has_no_duplicates_conv();
    assert forall|i: int, j: int| 0 <= i < j < a.len() implies (#[trigger] a[i]).shifted_hash != (
    #[trigger] a[j]).shifted_hash by {
        if a[i].shifted_hash == a[j].shifted_hash {
            assert(p[i] == entry_pair(a[i]) && p[j] == entry_pair(a[j]));
            assert(p[i] != p[j]);
            assert(a.contains(a[i]) && a.contains(a[j]));
            let x = choose|x: int| 0 <= x < b.len() && b[x] == a[i];
            let y = choose|y: int| 0 <= y < b.len() && b[y] == a[j];
            if x < y {
                assert(b[x].shifted_hash < b[y].shifted_hash);
            } else if y < x {
                assert(b[y].shifted_hash < b[x].shifted_hash);
            }
        }
    }
}

/// If two neighbours are of the same hash, two entries are.
proof fn lemma_neighbours_meet(
    a: Seq<HashLookupKey>,
    p: Seq<(u64, u32)>,
    q: Seq<(u64, u32)>,
    b: Seq<HashLookupKey>,
)
    requires
        sorted_as(a, p, q, b),
        exists|i: int| 0 < i < q.len() && q[i - 1].0 == (#[trigger] q[i]).0,
    ensures
        !distinct_keys(a),
{
    let i = choose|i: int| 0 < i < q.len() && q[i - 1].0 == (#[trigger] q[i]).0;
    assert(entry_pair(b[i - 1]) == q[i - 1] && entry_pair(b[i]) == q[i]);
    if distinct_keys(a) {
        assert(p.no_duplicates()) by {
            assert forall|x: int, y: int| 0 <= x < p.len() && 0 <= y < p.len() && x
                != y implies p[x] != p[y] by {
                assert(p[x] == entry_pair(a[x]) && p[y] == entry_pair(a[y]));
                if x < y {
                    assert(a[x].shifted_hash != a[y].shifted_hash);
                } else {
                    assert(a[y].shifted_hash != a[x].shifted_hash);
                }
            }
        }
        p.lemma_multiset_has_no_duplicates();
        q.lemma_multiset_has_no_duplicates_conv();
        assert(q[i - 1] != q[i]);
        assert(a.contains(b[i - 1]) && a.contains(b[i]));
        let x = choose|x: int| 0 <= x < a.len() && a[x] == b[i - 1];
        let y = choose|y: int| 0 <= y < a.len() && a[y] == b[i];
        if x < y {
            assert(a[x].shifted_hash != a[y].shifted_hash);
        } else if y < x {
            assert(a[y].shifted_hash != a[x].shifted_hash);
        }
    }
}

/// Sorting a run of pairs: entries stay, and duplicates can be told from neighbours.
proof fn lemma_sorted_pairs_entries(a: Seq<HashLookupKey>, p: Seq<(u64, u32)>, q: Seq<(u64, u32)>)
    requires
        p == a.map_values(|e: HashLookupKey| entry_pair(e)),
        q.to_multiset() == p.to_multiset(),
        q.len() == p.len(),
        sorted_pairs(q),
    ensures
        same_bucket(a, q.map_values(|x: (u64, u32)| pair_entry(x))),
        forall|i: int| 0 <= i < q.len() ==> (#[trigger] q[i]).0 <= u32::MAX,
        (forall|i: int| 0 < i < q.len() ==> q[i - 1].0 != (#[trigger] q[i]).0) ==> strictly_sorted(
            q.map_values(|x: (u64, u32)| pair_entry(x)),
        ) && distinct_keys(a),
        (exists|i: int| 0 < i < q.len() && q[i - 1].0 == (#[trigger] q[i]).0) ==> !distinct_keys(a),
{
    broadcast use vstd::seq_lib::group_to_multiset_ensures;

    let b = q.map_values(|x: (u64, u32)| pair_entry(x));
    assert forall|x: (u64, u32)| #[trigger] p.contains(x) <==> q.contains(x) by {
        vstd::seq_lib::to_multiset_contains(p, x);
        vstd::seq_lib::to_multiset_contains(q, x);
    }
    assert forall|i: int| 0 <= i < q.len() implies (#[trigger] q[i]).0 <= u32::MAX && entry_pair(
        b[i],
    ) == q[i] && a.contains(b[i]) by {
        assert(q.contains(q[i]));
        assert(p.contains(q[i]));
        let j = choose|j: int| 0 <= j < p.len() && p[j] == q[i];
        assert(p[j] == entry_pair(a[j]));
        assert(b[i] == a[j]);
    }
    assert forall|e: HashLookupKey| #[trigger] a.contains(e) <==> b.contains(e) by {
        if a.contains(e) {
            let j = choose|j: int| 0 <= j < a.len() && a[j] == e;
            assert(p[j] == entry_pair(e));
            assert(p.contains(p[j]));
            assert(q.contains(entry_pair(e)));
            let i = choose|i: int| 0 <= i < q.len() && q[i] == entry_pair(e);
            assert(b[i] == e);
        }
        if b.contains(e) {
            let i = choose|i: int| 0 <= i < b.len() && b[i] == e;
            assert(a.contains(b[i]));
        }
    }
    assert(same_bucket(a, b));
    assert(sorted_as(a, p, q, b));
    if forall|i: int| 0 < i < q.len() ==> q[i - 1].0 != (#[trigger] q[i]).0 {
        lemma_neighbours_differ(a, p, q, b);
    }
    if exists|i: int| 0 < i < q.len() && q[i - 1].0 == (#[trigger] q[i]).0 {
        lemma_neighbours_meet(a, p, q, b);
    }
}

/// Sorts a bucket. `None` if two entries are of the same hash.
fn sort_bucket(bucket: &Vec<HashLookupKey>) -> (r: Option<Vec<HashLookupKey>>)
    ensures
        match r {
            Some(b) => distinct_keys(bucket@) && same_bucket(bucket@, b@) && strictly_sorted(b@),
            None => !distinct_keys(bucket@),
        },
{
    let mut p: Vec<(u64, u32)> = Vec::new();
    let n: usize = bucket.len();
    let mut i: usize = 0;
    while i < n
        invariant
            n == bucket@.len(),
            i <= n,
            p@ =~= bucket@.take(i as int).map_values(|e: HashLookupKey| entry_pair(e)),
        decreases n - i,
    {
        p.push((bucket[i].shifted_hash as u64, bucket[i].range.0));
        i += 1;
    }
    proof {
        assert(bucket@.take(n as int) =~= bucket@);
    }
    let q = sort_pairs(&p, 0, n);
    proof {
        assert(p@.subrange(0, n as int) =~= p@);
        lemma_sorted_pairs_entries(bucket@, p@, q@);
    }
    let mut r: Vec<HashLookupKey> = Vec::new();
    let mut j: usize = 0;
    while j < n
        invariant
            n == q@.len(),
            j <= n,
            r@ =~= q@.take(j as int).map_values(|x: (u64, u32)| pair_entry(x)),
            forall|i: int| 0 < i < j ==> q@[i - 1].0 != (#[trigger] q@[i]).0,
            (exists|i: int| 0 < i < q@.len() && q@[i - 1].0 == (#[trigger] q@[i]).0)
                ==> !distinct_keys(bucket@),
            forall|i: int| 0 <= i < q@.len() ==> (#[trigger] q@[i]).0 <= u32::MAX,
        decreases n - j,
    {
        if j > 0 && q[j - 1].0 == q[j].0 {
            return None;
        }
        r.push(HashLookupKey { shifted_hash: q[j].0 as u32, range: SmolRange(q[j].1) });
        j += 1;
    }
    proof {
        assert(q@.take(n as int) =~= q@);
    }
    Some(r)
}


/// Component `c` of `v`, pointed at the entry that has the same hash in `w`.
pub open spec fn repointed(v: SlabView, w: SlabView, c: int) -> u24 {
    let x = v.components[c].val();
    if x < IS_INTERNED_COMPONENT {
        v.components[c]
    } else {
        u24::of((IS_INTERNED_COMPONENT + w.find(v.entry_hash(x - IS_INTERNED_COMPONENT))->0) as u32)
    }
}

/// `w` is `v` with its buckets sorted. Components that stand for paths go on standing for them.
pub open spec fn finalized_from(v: SlabView, w: SlabView) -> bool {
    &&& w.bytes == v.bytes
    &&& w.strings == v.strings
    &&& w.finalized
    &&& w.memory == v.memory
    &&& w.overfull == v.overfull
    &&& w.buckets.len() == v.buckets.len()
    &&& forall|b: int|
        0 <= b < HASH_BUCKET_COUNT ==> same_bucket(v.buckets[b], #[trigger] w.buckets[b])
            && strictly_sorted(w.buckets[b])
    &&& w.components == Seq::new(v.components.len(), |c: int| repointed(v, w, c))
}

/// Every entry is found by its hash in the sorted buckets.
pub(crate) proof fn lemma_finalized_entry(v: SlabView, w: SlabView, idx: int)
    requires
        v.wf(),
        w.buckets.len() == v.buckets.len(),
        forall|b: int|
            0 <= b < HASH_BUCKET_COUNT ==> same_bucket(v.buckets[b], #[trigger] w.buckets[b])
                && strictly_sorted(w.buckets[b]),
        v.has_entry(idx),
    ensures
        w.find(v.entry_hash(idx)) is Some,
        w.has_entry(w.find(v.entry_hash(idx))->0),
        w.entry(w.find(v.entry_hash(idx))->0) == v.entry(idx),
        w.entry_hash(w.find(v.entry_hash(idx))->0) == v.entry_hash(idx),
{
    let b = bucket_part(idx);
    let e = v.entry(idx);
    let hash = v.entry_hash(idx);
    lemma_hash_pieces(hash, b, e.shifted_hash);
    assert(same_bucket(v.buckets[b], w.buckets[b]));
    assert(v.buckets[b].contains(v.buckets[b][slot_part(idx)]));
    let i = choose|i: int| 0 <= i < w.buckets[b].len() && w.buckets[b][i] == e;
    assert(w.buckets[b][i].shifted_hash == shifted(hash));
    let n = w.buckets[b].len() as int;
    let j = choose|j: int|
        0 <= j < n && (#[trigger] w.buckets[b][j]).shifted_hash == shifted(hash);
    if i < j {
        assert(w.buckets[b][i].shifted_hash < w.buckets[b][j].shifted_hash);
    } else if j < i {
        assert(w.buckets[b][j].shifted_hash < w.buckets[b][i].shifted_hash);
    }
    assert(v.buckets[b].len() <= HASH_BUCKET_SIZE);
    lemma_index(b, i);
}

/// Finalizing keeps the slab valid, and every hash stands for the strings that its entry stood for.
pub proof fn law_finalized(v: SlabView, w: SlabView, idx: int)
    requires
        v.wf(),
        finalized_from(v, w),
    ensures
        w.wf(),
        w.sorted(),
        w.distinct(),
        v.has_entry(idx) ==> w.components_of(v.entry_hash(idx)) == Some(
            v.resolve_range(v.entry(idx).range),
        ),
{
    assert(w.within_capacity()) by {
        assert forall|b: int| 0 <= b < HASH_BUCKET_COUNT implies (#[trigger] w.buckets[b]).len()
            <= HASH_BUCKET_SIZE by {
            assert(same_bucket(v.buckets[b], w.buckets[b]));
            assert(v.buckets[b].len() <= HASH_BUCKET_SIZE);
        }
    }
    assert forall|c: int| 0 <= c < w.components.len() implies #[trigger] w.component_ok(c) by {
        assert(v.component_ok(c));
        lemma_repointed(v, w, c);
    }
    assert forall|b: int, i: int|
        0 <= b < HASH_BUCKET_COUNT && 0 <= i < w.buckets[b].len() implies (
    #[trigger] w.buckets[b][i]).range.end() <= w.components.len() by {
        assert(same_bucket(v.buckets[b], w.buckets[b]));
        let e = w.buckets[b][i];
        assert(w.buckets[b].contains(e));
        assert(v.buckets[b].contains(e));
        let j = choose|j: int| 0 <= j < v.buckets[b].len() && v.buckets[b][j] == e;
        assert(v.buckets[b][j].range.end() <= v.components.len());
    }
    assert forall|i: int| 0 <= i < w.strings.len() implies (#[trigger] w.strings[i]).end()
        <= w.bytes.len() by {
        assert(v.strings[i].end() <= v.bytes.len());
    }
    assert forall|b: int| 0 <= b < HASH_BUCKET_COUNT implies w.sorted_bucket(
        b,
        (#[trigger] w.buckets[b]).len() as int,
    ) by {
        assert(strictly_sorted(w.buckets[b]));
    }
    assert forall|b: int, i: int, j: int|
        0 <= b < HASH_BUCKET_COUNT && 0 <= i < j < w.buckets[b].len() implies (
    #[trigger] w.buckets[b][i]).shifted_hash != (#[trigger] w.buckets[b][j]).shifted_hash by {
        assert(strictly_sorted(w.buckets[b]));
    }
    if v.has_entry(idx) {
        lemma_finalized_entry(v, w, idx);
        lemma_entry_range(v, idx);
        let r = v.entry(idx).range;
        lemma_finalized_resolve(v, w, r.spec_start() as nat, r.end() as nat);
    }
}

proof fn lemma_repointed(v: SlabView, w: SlabView, c: int)
    requires
        v.wf(),
        finalized_from(v, w),
        0 <= c < v.components.len(),
    ensures
        ({
            let x = v.components[c].val();
            let y = w.components[c].val();
            if x < IS_INTERNED_COMPONENT {
                y == x
            } else {
                &&& y >= IS_INTERNED_COMPONENT
                &&& w.has_entry(y - IS_INTERNED_COMPONENT)
                &&& w.entry(y - IS_INTERNED_COMPONENT) == v.entry(x - IS_INTERNED_COMPONENT)
            }
        }),
{
    let x = v.components[c].val();
    assert(v.component_ok(c));
    if x >= IS_INTERNED_COMPONENT {
        let idx = x - IS_INTERNED_COMPONENT;
        lemma_finalized_entry(v, w, idx);
        let j = w.find(v.entry_hash(idx))->0;
        law_u24((IS_INTERNED_COMPONENT + j) as u32, v.components[c]);
    }
}

pub(crate) proof fn lemma_finalized_resolve(v: SlabView, w: SlabView, start: nat, end: nat)
    requires
        v.wf(),
        finalized_from(v, w),
        end <= v.components.len(),
    ensures
        w.resolve(start, end) == v.resolve(start, end),
    decreases end,
{
    if start < end {
        let c = (end - 1) as nat;
        lemma_finalized_resolve(v, w, start, c);
        assert(v.component_ok(c as int));
        lemma_repointed(v, w, c as int);
        let x = v.components[c as int].val();
        if x >= IS_INTERNED_COMPONENT {
            let r = v.entry(x - IS_INTERNED_COMPONENT).range;
            lemma_finalized_resolve(v, w, r.spec_start() as nat, r.end() as nat);
        }
    }
}

/// In a finalized slab of a sound one, the strings that a hash stands for hash to it.
pub proof fn law_finalized_faithful(v: SlabView, w: SlabView, hash: Hash40)
    requires
        v.wf(),
        v.faithful(),
        finalized_from(v, w),
        hash.wf(),
    ensures
        w.components_of(hash) matches Some(parts) ==> hash40(join(parts)) == hash,
        w.faithful(),
        forall|c: CacheView|
            c.components == Map::<u64, u32>::empty() && c.paths == Map::<u64, u32>::empty()
                && c.previous == Seq::new(
                HASH_BUCKET_COUNT as nat,
                |b: int| w.buckets[b].len() as usize,
            ) ==> #[trigger] w.sound(c),
{
    law_finalized(v, w, 0);
    assert forall|j: int| #[trigger] w.has_entry(j) implies ({
        let parts = w.resolve_range(w.entry(j).range);
        &&& parts.len() > 0
        &&& hash40(join(parts)) == w.entry_hash(j)
        &&& w.entry_hash(j) != hash40(Seq::<u8>::empty())
    }) by {
        let b = bucket_part(j);
        assert(same_bucket(v.buckets[b], w.buckets[b]));
        let e = w.entry(j);
        assert(w.buckets[b].contains(w.buckets[b][slot_part(j)]));
        assert(v.buckets[b].contains(e));
        let i = choose|i: int| 0 <= i < v.buckets[b].len() && v.buckets[b][i] == e;
        assert(v.buckets[b].len() <= HASH_BUCKET_SIZE);
        lemma_index(b, i);
        let idx = b * HASH_BUCKET_SIZE + i;
        assert(v.has_entry(idx));
        assert(v.entry_hash(idx) == w.entry_hash(j));
        lemma_entry_range(v, idx);
        let r = v.entry(idx).range;
        lemma_finalized_resolve(v, w, r.spec_start() as nat, r.end() as nat);
    }
    if let Some(j) = w.find(hash) {
        let b = bucket_of(hash);
        let n = w.buckets[b].len() as int;
        let i = choose|i: int|
            0 <= i < n && (#[trigger] w.buckets[b][i]).shifted_hash == shifted(hash);
        assert(w.buckets[b].len() <= HASH_BUCKET_SIZE);
        lemma_index(b, i);
        assert(w.has_entry(j));
        assert(w.entry_hash(j) == hash);
    }
    assert forall|c: CacheView|
        c.components == Map::<u64, u32>::empty() && c.paths == Map::<u64, u32>::empty() && c.previous
            == Seq::new(
            HASH_BUCKET_COUNT as nat,
            |b: int| w.buckets[b].len() as usize,
        ) implies #[trigger] w.sound(c) by {
        assert forall|idx: int| #[trigger] w.has_entry(idx) implies w.known(
            c,
            w.entry_hash(idx),
        ) is Some by {
            let b = bucket_part(idx);
            let h = w.entry_hash(idx);
            lemma_hash_pieces(h, b, w.entry(idx).shifted_hash);
            assert(w.buckets[b].len() <= HASH_BUCKET_SIZE);
            assert(c.previous[b] == w.buckets[b].len());
            assert(w.buckets[b][slot_part(idx)].shifted_hash == shifted(h));
        }
    }
}

impl HashMemorySlab {
    /// Sorts the buckets, so that hashes can be looked up. Returns whether that was possible: not if
    /// two entries are of the same hash.
    pub fn finalize(&mut self, _cache: InternerCache) -> (r: bool)
        requires
            old(self).wf(),
        ensures
            r == old(self)@.distinct(),
            r ==> finalized_from(old(self)@, final(self)@) && final(self).wf()
                && final(self)@.sorted(),
    {
        let ghost v = self@;
        // The components that stand for paths, and the hashes of the paths.
        let mut fixes: Vec<(usize, Hash40)> = Vec::new();
        let n: usize = self.components.len();
        let mut c: usize = 0;
        while c < n
            invariant
                v == self@,
                self.wf(),
                n == v.components.len(),
                c <= n,
                forall|k: int|
                    0 <= k < fixes@.len() ==> (#[trigger] fixes@[k]).0 < c && v.components[fixes@[k].0 as int].val()
                        >= IS_INTERNED_COMPONENT && fixes@[k].1 == v.entry_hash(
                        v.components[fixes@[k].0 as int].val() - IS_INTERNED_COMPONENT,
                    ),
                forall|d: int|
                    0 <= d < c && (#[trigger] v.components[d]).val() >= IS_INTERNED_COMPONENT
                        ==> exists|k: int| 0 <= k < fixes@.len() && (#[trigger] fixes@[k]).0 == d,
            decreases n - c,
        {
            let ghost before = fixes@;
            let x: u32 = self.components[c].to_u32();
            if x >= IS_INTERNED_COMPONENT {
                let idx: usize = (x - IS_INTERNED_COMPONENT) as usize;
                proof {
                    assert(v.component_ok(c as int));
                }
                let entry = self.entry(idx);
                let hash = Hash40::from_raw(
                    entry.shifted_hash as u64 * 0x100 + (idx / HASH_BUCKET_SIZE) as u64,
                );
                fixes.push((c, hash));
                proof {
                    assert(fixes@[before.len() as int].0 == c);
                }
            }
            proof {
                assert forall|d: int|
                    0 <= d < c + 1 && (#[trigger] v.components[d]).val()
                        >= IS_INTERNED_COMPONENT implies exists|k: int|
                    0 <= k < fixes@.len() && (#[trigger] fixes@[k]).0 == d by {
                    if d < c {
                        let k = choose|k: int| 0 <= k < before.len() && (#[trigger] before[k]).0 == d;
                        assert(fixes@[k] == before[k]);
                    }
                }
            }
            c += 1;
        }
        let mut b: usize = 0;
        while b < HASH_BUCKET_COUNT
            invariant
                v.wf(),
                b <= HASH_BUCKET_COUNT,
                self.buckets@.len() == HASH_BUCKET_COUNT,
                self@.bytes == v.bytes,
                self@.strings == v.strings,
                self@.components == v.components,
                self@.memory == v.memory,
                self@.overfull == v.overfull,
                v == old(self)@,
                forall|i: int| b <= i < HASH_BUCKET_COUNT ==> (#[trigger] self.buckets@[i])@ == v.buckets[i],
                forall|i: int|
                    0 <= i < b ==> same_bucket(v.buckets[i], (#[trigger] self.buckets@[i])@)
                        && strictly_sorted(self.buckets@[i]@) && distinct_keys(v.buckets[i]),
            decreases HASH_BUCKET_COUNT - b,
        {
            match sort_bucket(&self.buckets[b]) {
                Some(sorted) => {
                    let ghost before = self.buckets@;
                    self.buckets.set(b, sorted);
                    proof {
                        assert(before[b as int]@ == v.buckets[b as int]);
                        assert forall|i: int| 0 <= i < b + 1 implies same_bucket(
                            v.buckets[i],
                            (#[trigger] self.buckets@[i])@,
                        ) && strictly_sorted(self.buckets@[i]@) && distinct_keys(v.buckets[i]) by {
                            if i < b {
                                assert(self.buckets@[i] == before[i]);
                            }
                        }
                    }
                },
                None => {
                    proof {
                        assert(!distinct_keys(v.buckets[b as int]));
                        lemma_not_distinct(v, b as int);
                    }
                    return false;
                },
            }
            b += 1;
        }
        proof {
            assert forall|i: int, j: int, k: int|
                0 <= i < HASH_BUCKET_COUNT && 0 <= j < k < v.buckets[i].len() implies (
            #[trigger] v.buckets[i][j]).shifted_hash != (#[trigger] v.buckets[i][k]).shifted_hash by {
                assert(same_bucket(v.buckets[i], self.buckets@[i]@));
            }
        }
        let ghost u = self@;
        proof {
            assert forall|i: int| 0 <= i < HASH_BUCKET_COUNT implies same_bucket(
                v.buckets[i],
                #[trigger] u.buckets[i],
            ) && strictly_sorted(u.buckets[i]) && u.buckets[i].len() <= HASH_BUCKET_SIZE by {
                assert(u.buckets[i] == self.buckets@[i]@);
                assert(v.buckets[i].len() <= HASH_BUCKET_SIZE);
            }
            assert(u.sorted()) by {
                assert forall|i: int| 0 <= i < HASH_BUCKET_COUNT implies u.sorted_bucket(
                    i,
                    (#[trigger] u.buckets[i]).len() as int,
                ) by {
                    assert(strictly_sorted(u.buckets[i]));
                }
            }
        }
        let m: usize = fixes.len();
        let mut i: usize = 0;
        while i < m
            invariant
                v.wf(),
                m == fixes@.len(),
                i <= m,
                self@ == (SlabView { components: self@.components, ..u }),
                u.within_capacity(),
                u.sorted(),
                u.buckets.len() == v.buckets.len(),
                forall|b: int|
                    0 <= b < HASH_BUCKET_COUNT ==> same_bucket(v.buckets[b], #[trigger] u.buckets[b])
                        && strictly_sorted(u.buckets[b]),
                self@.components.len() == v.components.len(),
                forall|k: int|
                    0 <= k < fixes@.len() ==> (#[trigger] fixes@[k]).0 < v.components.len()
                        && v.components[fixes@[k].0 as int].val() >= IS_INTERNED_COMPONENT
                        && fixes@[k].1 == v.entry_hash(
                        v.components[fixes@[k].0 as int].val() - IS_INTERNED_COMPONENT,
                    ),
                forall|k: int|
                    0 <= k < i ==> self@.components[(#[trigger] fixes@[k]).0 as int] == repointed(
                        v,
                        u,
                        fixes@[k].0 as int,
                    ),
                forall|d: int|
                    0 <= d < v.components.len() && (#[trigger] v.components[d]).val()
                        < IS_INTERNED_COMPONENT ==> self@.components[d] == v.components[d],
            decreases m - i,
        {
            let (d, hash) = fixes[i];
            let ghost before = self@.components;
            proof {
                assert(fixes@[i as int].0 == d);
                assert(v.component_ok(d as int));
                lemma_finalized_entry(
                    v,
                    u,
                    v.components[d as int].val() - IS_INTERNED_COMPONENT,
                );
                assert(self@.find(hash) == u.find(hash));
                assert(self@.sorted()) by {
                    assert forall|b: int| 0 <= b < HASH_BUCKET_COUNT implies self@.sorted_bucket(
                        b,
                        (#[trigger] self@.buckets[b]).len() as int,
                    ) by {
                        assert(u.sorted_bucket(b, u.buckets[b].len() as int));
                    }
                }
            }
            match self.find(hash) {
                Some(idx) => {
                    let x = u24::from_u32(IS_INTERNED_COMPONENT + idx as u32);
                    self.components.set(d, x);
                    proof {
                        assert(self@.buckets =~= u.buckets);
                        assert(self@.components == before.update(d as int, x));
                        assert(x == repointed(v, u, d as int));
                    }
                },
                None => {
                    proof {
                        assert(false);
                    }
                },
            }
            i += 1;
        }
        self.finalized = true;
        proof {
            let w = self@;
            assert(w.buckets =~= u.buckets);
            assert forall|d: int| 0 <= d < v.components.len() implies w.components[d] == repointed(
                v,
                w,
                d,
            ) by {
                assert(w.find(v.entry_hash(v.components[d].val() - IS_INTERNED_COMPONENT)) == u.find(
                    v.entry_hash(v.components[d].val() - IS_INTERNED_COMPONENT),
                ));
                if v.components[d].val() >= IS_INTERNED_COMPONENT {
                    let k = choose|k: int| 0 <= k < fixes@.len() && (#[trigger] fixes@[k]).0 == d;
                    assert(w.components[fixes@[k].0 as int] == repointed(v, u, fixes@[k].0 as int));
                }
            }
            assert(w.components =~= Seq::new(v.components.len(), |c: int| repointed(v, w, c)));
            law_finalized(v, w, 0);
        }
        true
    }
}

proof fn lemma_not_distinct(v: SlabView, b: int)
    requires
        0 <= b < HASH_BUCKET_COUNT,
        !distinct_keys(v.buckets[b]),
    ensures
        !v.distinct(),
{
    let (i, j) = choose|i: int, j: int|
        0 <= i < j < v.buckets[b].len() && (#[trigger] v.buckets[b][i]).shifted_hash == (
        #[trigger] v.buckets[b][j]).shifted_hash;
    assert(v.buckets[b][i].shifted_hash == v.buckets[b][j].shifted_hash);
}

/// The number that hexadecimal digits spell.
pub open spec fn hex_value(s: Seq<u8>) -> int
    decreases s.len(),
{
    if s.len() == 0 {
        0
    } else {
        16 * hex_value(s.drop_last()) + if s.last() < 0x61 {
            s.last() - 0x30
        } else {
            s.last() - 0x61 + 10
        }
    }
}

/// The digits of a number spell it. They are digits from `0` to `9` and from `a` to `f`, and `0x` is in front.
pub proof fn law_hex_text(n: u64)
    ensures
        hex_value(hex_digits(n)) == n,
        hex_digits(n).len() > 0,
        forall|i: int|
            0 <= i < hex_digits(n).len() ==> 0x30 <= #[trigger] hex_digits(n)[i] <= 0x39 || 0x61
                <= hex_digits(n)[i] <= 0x66,
        hex_text(n) == seq![0x30u8, 0x78u8] + hex_digits(n),
    decreases n,
{
    let s = hex_digits(n);
    if n < 0x10 {
        assert(s.drop_last() =~= Seq::empty());
        assert(hex_value(s.drop_last()) == 0);
    } else {
        law_hex_text(n / 0x10);
        assert(s.drop_last() =~= hex_digits(n / 0x10));
        assert forall|i: int| 0 <= i < s.len() implies 0x30 <= #[trigger] s[i] <= 0x39 || 0x61 <= s[i]
            <= 0x66 by {
            if i < s.len() - 1 {
                assert(s[i] == hex_digits(n / 0x10)[i]);
            }
        }
    }
}

} // verus!
