//! Tables and lookups.
//!
//! Each container has a fixed part, which is what the archive came with, and a dynamic part, which
//! takes what is added. Containers only ever grow. Both parts are brought together when the archive
//! is serialized again.

use crate::data::HashWithData;
use crate::hash40::Hash40;
use crate::words::{flat, read_records, write_records, Record};
use std::collections::BTreeMap;
use vstd::prelude::*;
use vstd::std_specs::iter::IteratorSpec;

verus! {

broadcast use {vstd::laws_cmp::group_laws_cmp, vstd::std_specs::btree::group_btree_axioms};

/// What a [`Table`] holds.
pub struct TableView<T> {
    pub fixed: Seq<T>,
    pub dynamic: Seq<T>,
}

impl<T> TableView<T> {
    /// All items, in the order of their indices.
    pub open spec fn items(self) -> Seq<T> {
        self.fixed + self.dynamic
    }

    pub open spec fn len(self) -> nat {
        self.fixed.len() + self.dynamic.len()
    }

    /// The item with index `i`.
    pub open spec fn at(self, i: int) -> T {
        if i < self.fixed.len() {
            self.fixed[i]
        } else {
            self.dynamic[i - self.fixed.len()]
        }
    }

    /// The table with another item at index `i`.
    pub open spec fn update(self, i: int, value: T) -> TableView<T> {
        if i < self.fixed.len() {
            TableView { fixed: self.fixed.update(i, value), ..self }
        } else {
            TableView { dynamic: self.dynamic.update(i - self.fixed.len(), value), ..self }
        }
    }

    /// The table with one more item.
    pub open spec fn push(self, value: T) -> TableView<T> {
        TableView { dynamic: self.dynamic.push(value), ..self }
    }
}

/// A table's items behave like one growable sequence, whichever part they are in.
pub proof fn law_table_is_sequence<T>(t: TableView<T>, i: int, value: T)
    requires
        0 <= i < t.len(),
    ensures
        t.items().len() == t.len(),
        t.at(i) == t.items()[i],
        t.update(i, value).items() == t.items().update(i, value),
        t.push(value).items() == t.items().push(value),
        t.push(value).at(i) == t.at(i),
        t.push(value).at(t.len() as int) == value,
        t.update(i, value).at(i) == value,
        t.update(i, value).len() == t.len(),
{
    assert(t.update(i, value).items() =~= t.items().update(i, value));
    assert(t.push(value).items() =~= t.items().push(value));
}

/// A growable run of records.
pub struct Table<T> {
    fixed: Vec<T>,
    dynamic: Vec<T>,
}

impl<T> View for Table<T> {
    type V = TableView<T>;

    closed spec fn view(&self) -> TableView<T> {
        TableView { fixed: self.fixed@, dynamic: self.dynamic@ }
    }
}

impl<T: Record> Table<T> {
    /// Takes over records as the fixed part.
    pub fn from_fixed(fixed: Vec<T>) -> (r: Table<T>)
        ensures
            r@.fixed == fixed@,
            r@.dynamic == Seq::<T>::empty(),
    {
        Table { fixed, dynamic: Vec::new() }
    }

    /// Reads `count` records from word `at` on as the fixed part.
    pub fn new(words: &[u32], at: usize, count: usize) -> (r: Table<T>)
        requires
            at + count * T::width() <= words@.len(),
        ensures
            r@.fixed.len() == count,
            flat(r@.fixed) == words@.subrange(at as int, at + count * T::width()),
            r@.dynamic == Seq::<T>::empty(),
    {
        Table::from_fixed(read_records(words, at, count))
    }

    /// Length of the fixed part in bytes.
    pub fn fixed_byte_len(&self) -> (r: u64)
        requires
            self.wf(),
        ensures
            r == self@.fixed.len() * T::width() * 4,
    {
        let n: usize = self.fixed.len();
        let w: usize = T::width_words();
        proof {
            if n > 0 {
                self@.fixed[0].lemma_width();
            }
            assert(n * w <= u32::MAX * 0x100) by (nonlinear_arith)
                requires
                    n <= u32::MAX,
                    n == 0 || w <= 0x100,
            ;
            assert(n == 0 ==> n * w == 0) by (nonlinear_arith);
        }
        if n == 0 {
            0
        } else {
            (n as u64) * (w as u64) * 4
        }
    }

    /// Appends the words of the fixed part.
    pub fn write_fixed(&self, out: &mut Vec<u32>)
        ensures
            final(out)@ == old(out)@ + flat(self@.fixed),
    {
        write_records(&self.fixed, out);
    }

    /// Moves the dynamic part to the end of the fixed part.
    pub fn merge(&mut self)
        ensures
            final(self)@ == (TableView { fixed: old(self)@.items(), dynamic: Seq::empty() }),
    {
        let mut i: usize = 0;
        while i < self.dynamic.len()
            invariant
                self.dynamic@ == old(self)@.dynamic,
                i <= self.dynamic@.len(),
                self.fixed@ =~= old(self)@.fixed + self.dynamic@.take(i as int),
            decreases self.dynamic@.len() - i,
        {
            let x = self.dynamic[i];
            self.fixed.push(x);
            i += 1;
        }
        self.dynamic = Vec::new();
        proof {
            assert(old(self)@.dynamic.take(i as int) =~= old(self)@.dynamic);
        }
    }

    /// All items with their indices.
    pub fn iter(&self) -> (r: Vec<(u32, T)>)
        requires
            self.wf(),
        ensures
            r@.len() == self@.len(),
            forall|i: int| 0 <= i < r@.len() ==> r@[i] == (i as u32, self@.at(i)),
    {
        let mut r: Vec<(u32, T)> = Vec::new();
        let n: usize = self.len();
        let mut i: usize = 0;
        while i < n
            invariant
                self.wf(),
                n == self@.len(),
                i <= n,
                r@.len() == i,
                forall|j: int| 0 <= j < i ==> r@[j] == (j as u32, self@.at(j)),
            decreases n - i,
        {
            r.push((i as u32, *self.get_unchecked(i as u32)));
            i += 1;
        }
        r
    }
}

impl<T> Table<T> {
    /// Indices of the table fit 32 bits.
    pub open spec fn wf(&self) -> bool {
        self@.len() <= u32::MAX
    }

    pub fn get(&self, index: u32) -> (r: Option<&T>)
        requires
            self.wf(),
        ensures
            match r {
                Some(x) => index < self@.len() && *x == self@.at(index as int),
                None => index >= self@.len(),
            },
    {
        if self.contains(index) {
            Some(self.get_unchecked(index))
        } else {
            None
        }
    }

    pub fn get_mut(&mut self, index: u32) -> (r: Option<&mut T>)
        requires
            old(self).wf(),
        ensures
            match r {
                Some(x) => index < old(self)@.len() && *x == old(self)@.at(index as int)
                    && final(self)@ == old(self)@.update(index as int, *final(x)),
                None => index >= old(self)@.len() && *final(self) == *old(self),
            },
    {
        if self.contains(index) {
            Some(self.get_unchecked_mut(index))
        } else {
            None
        }
    }

    pub fn fixed(&self) -> (r: &[T])
        ensures
            r@ == self@.fixed,
    {
        self.fixed.as_slice()
    }

    pub fn dynamic(&self) -> (r: &[T])
        ensures
            r@ == self@.dynamic,
    {
        self.dynamic.as_slice()
    }

    /// Is there an item with this index?
    pub fn contains(&self, index: u32) -> (r: bool)
        requires
            self.wf(),
        ensures
            r == (index < self@.len()),
    {
        (index as usize) < self.len()
    }

    pub fn fixed_len(&self) -> (r: usize)
        ensures
            r == self@.fixed.len(),
    {
        self.fixed.len()
    }

    pub fn dynamic_len(&self) -> (r: usize)
        ensures
            r == self@.dynamic.len(),
    {
        self.dynamic.len()
    }

    pub fn len(&self) -> (r: usize)
        requires
            self.wf(),
        ensures
            r == self@.len(),
    {
        self.fixed.len() + self.dynamic.len()
    }

    pub fn is_fixed_empty(&self) -> (r: bool)
        ensures
            r == (self@.fixed.len() == 0),
    {
        self.fixed_len() == 0
    }

    pub fn is_dynamic_empty(&self) -> (r: bool)
        ensures
            r == (self@.dynamic.len() == 0),
    {
        self.dynamic_len() == 0
    }

    pub fn is_empty(&self) -> (r: bool)
        requires
            self.wf(),
        ensures
            r == (self@.len() == 0),
    {
        self.len() == 0
    }

    /// The item with this index, which has to be there.
    pub fn get_unchecked(&self, index: u32) -> (r: &T)
        requires
            index < self@.len(),
            self.wf(),
        ensures
            *r == self@.at(index as int),
    {
        let n: usize = self.fixed.len();
        let i: usize = index as usize;
        if i < n {
            &self.fixed[i]
        } else {
            &self.dynamic[i - n]
        }
    }

    /// The item with this index, which has to be there, for changing it.
    pub fn get_unchecked_mut(&mut self, index: u32) -> (r: &mut T)
        requires
            index < old(self)@.len(),
            old(self).wf(),
        ensures
            *r == old(self)@.at(index as int),
            final(self)@ == old(self)@.update(index as int, *final(r)),
    {
        let n: usize = self.fixed.len();
        let i: usize = index as usize;
        if i < n {
            &mut self.fixed[i]
        } else {
            &mut self.dynamic[i - n]
        }
    }

    /// Adds an item to the dynamic part and returns its index.
    pub fn push(&mut self, value: T) -> (r: u32)
        requires
            old(self)@.len() < u32::MAX,
        ensures
            final(self)@ == old(self)@.push(value),
            r == old(self)@.len(),
            final(self).wf(),
    {
        let r: u32 = (self.fixed.len() + self.dynamic.len()) as u32;
        self.dynamic.push(value);
        r
    }
}

/// The key that a stored hash is found by.
pub open spec fn key(h: HashWithData) -> u64 {
    h.spec_hash40().0
}

/// Keys do not decrease.
pub open spec fn sorted(s: Seq<HashWithData>) -> bool {
    forall|i: int, j: int| 0 <= i < j < s.len() ==> key(s[i]) <= key(s[j])
}

/// Position of the first hash with key `k`, or the length if there is none.
pub open spec fn position(s: Seq<HashWithData>, k: u64) -> int
    decreases s.len(),
{
    if s.len() == 0 {
        0
    } else if key(s[0]) == k {
        0
    } else {
        1 + position(s.drop_first(), k)
    }
}

pub proof fn lemma_position(s: Seq<HashWithData>, k: u64)
    ensures
        0 <= position(s, k) <= s.len(),
        position(s, k) < s.len() ==> key(s[position(s, k)]) == k,
        forall|j: int| 0 <= j < position(s, k) ==> key(s[j]) != k,
    decreases s.len(),
{
    if s.len() > 0 && key(s[0]) != k {
        let t = s.drop_first();
        lemma_position(t, k);
        assert forall|j: int| 0 <= j < position(s, k) implies key(s[j]) != k by {
            if j > 0 {
                assert(s[j] == t[j - 1]);
            }
        }
    }
}

/// Only the first hash with the key is at its position.
pub proof fn lemma_position_unique(s: Seq<HashWithData>, k: u64, p: int)
    requires
        0 <= p <= s.len(),
        p < s.len() ==> key(s[p]) == k,
        forall|j: int| 0 <= j < p ==> key(s[j]) != k,
    ensures
        position(s, k) == p,
{
    lemma_position(s, k);
}

/// Changing the data of a hash changes no positions.
pub proof fn lemma_position_update(s: Seq<HashWithData>, p: int, data: u32, k: u64)
    requires
        0 <= p < s.len(),
    ensures
        position(s.update(p, s[p].with_data(data)), k) == position(s, k),
        sorted(s) ==> sorted(s.update(p, s[p].with_data(data))),
        key(s[p].with_data(data)) == key(s[p]),
{
    let t = s.update(p, s[p].with_data(data));
    assert forall|j: int| 0 <= j < s.len() implies key(t[j]) == key(s[j]) by {}
    lemma_position(s, k);
    lemma_position_unique(t, k, position(s, k));
}

/// The first hash with key `k` in `s[lo..hi]`, by bisection.
fn search(s: &Vec<HashWithData>, from: usize, to: usize, k: u64) -> (r: Option<usize>)
    requires
        from <= to <= s@.len(),
        sorted(s@.subrange(from as int, to as int)),
    ensures
        match r {
            Some(p) => from <= p < to && position(s@.subrange(from as int, to as int), k) == p - from,
            None => position(s@.subrange(from as int, to as int), k) == to - from,
        },
{
    let ghost sub = s@.subrange(from as int, to as int);
    let mut lo: usize = from;
    let mut hi: usize = to;
    while lo < hi
        invariant
            from <= lo <= hi <= to <= s@.len(),
            sub == s@.subrange(from as int, to as int),
            sorted(sub),
            forall|j: int| 0 <= j < lo - from ==> key(sub[j]) < k,
            forall|j: int| hi - from <= j < to - from ==> key(sub[j]) >= k,
        decreases hi - lo,
    {
        let mid: usize = lo + (hi - lo) / 2;
        proof {
            assert(s@[mid as int] == sub[mid - from]);
        }
        if s[mid].hash40().raw() < k {
            lo = mid + 1;
        } else {
            hi = mid;
        }
    }
    if lo < to {
        proof {
            assert(s@[lo as int] == sub[lo - from]);
        }
        if s[lo].hash40().raw() == k {
            proof {
                lemma_position_unique(sub, k, lo - from);
            }
            return Some(lo);
        }
    }
    proof {
        assert forall|j: int| 0 <= j < to - from implies key(sub[j]) != k by {
            if j > lo - from {
                assert(key(sub[lo - from]) <= key(sub[j]));
            }
        }
        lemma_position_unique(sub, k, to - from);
    }
    None
}

/// The entries of a map in the order of their keys.
pub open spec fn is_listing(m: Map<u64, u32>, s: Seq<(u64, u32)>) -> bool {
    &&& forall|i: int, j: int| 0 <= i < j < s.len() ==> s[i].0 < s[j].0
    &&& forall|i: int| 0 <= i < s.len() ==> m.contains_key(s[i].0) && m[s[i].0] == s[i].1
    &&& forall|k: u64| m.contains_key(k) ==> exists|i: int| 0 <= i < s.len() && s[i].0 == k
}

/// A map has one listing only.
pub proof fn lemma_listing_unique(m: Map<u64, u32>, a: Seq<(u64, u32)>, b: Seq<(u64, u32)>)
    requires
        is_listing(m, a),
        is_listing(m, b),
    ensures
        a == b,
    decreases a.len(),
{
    if a.len() == 0 {
        if b.len() > 0 {
            assert(m.contains_key(b[0].0));
        }
        assert(a =~= b);
    } else {
        let ka = a.last().0;
        assert(m.contains_key(ka));
        assert(b.len() > 0);
        let kb = b.last().0;
        assert(m.contains_key(kb));
        let i = choose|i: int| 0 <= i < b.len() && b[i].0 == ka;
        let j = choose|j: int| 0 <= j < a.len() && a[j].0 == kb;
        assert(ka == kb);
        let m2 = m.remove(ka);
        let a2 = a.drop_last();
        let b2 = b.drop_last();
        assert forall|k: u64| m2.contains_key(k) implies exists|i: int|
            0 <= i < a2.len() && a2[i].0 == k by {
            let i = choose|i: int| 0 <= i < a.len() && a[i].0 == k;
            assert(a2[i].0 == k);
        }
        assert forall|k: u64| m2.contains_key(k) implies exists|i: int|
            0 <= i < b2.len() && b2[i].0 == k by {
            let i = choose|i: int| 0 <= i < b.len() && b[i].0 == k;
            assert(b2[i].0 == k);
        }
        lemma_listing_unique(m2, a2, b2);
        assert(a =~= a2.push(a.last()));
        assert(b =~= b2.push(b.last()));
    }
}

/// The entries of a map in the order of their keys.
pub open spec fn listing(m: Map<u64, u32>) -> Seq<(u64, u32)> {
    choose|s: Seq<(u64, u32)>| is_listing(m, s)
}

/// Lists a map in the order of its keys.
fn list_map(m: &BTreeMap<u64, u32>) -> (r: Vec<(u64, u32)>)
    ensures
        r@ == listing(m@),
        is_listing(m@, r@),
{
    let mut r: Vec<(u64, u32)> = Vec::new();
    let entries = m.iter();
    proof {
        let v = entries.remaining();
        let keys = v.map_values(|kv: (&u64, &u32)| *kv.0);
        assert(vstd::laws_cmp::obeys_cmp::<u64>());
        assert(vstd::std_specs::btree::increasing_seq(keys));
        assert forall|i: int, j: int| 0 <= i < j < v.len() implies *v[i].0 < *v[j].0 by {
            assert(vstd::std_specs::cmp::OrdSpec::cmp_spec(&keys[i], &keys[j]) is Less);
            assert(keys[i] == *v[i].0 && keys[j] == *v[j].0);
        }
        assert forall|k: u64| #[trigger] m@.contains_key(k) implies exists|i: int|
            0 <= i < v.len() && *(#[trigger] v[i]).0 == k by {
            assert(v.contains((&k, &m@[k])));
            let i = choose|i: int| 0 <= i < v.len() && v[i] == (&k, &m@[k]);
            assert(*v[i].0 == k);
        }
    }
    for kv in it: entries
        invariant
            r@.len() == it.index(),
            forall|i: int|
                #![trigger it.seq()[i]]
                #![trigger r@[i]]
                0 <= i < r@.len() ==> r@[i] == (*it.seq()[i].0, *it.seq()[i].1),
            forall|i: int, j: int| 0 <= i < j < it.seq().len() ==> *it.seq()[i].0 < *it.seq()[j].0,
            forall|i: int|
                0 <= i < it.seq().len() ==> m@.contains_key(*it.seq()[i].0) && m@[*it.seq()[i].0]
                    == *it.seq()[i].1,
            forall|k: u64| #[trigger]
                m@.contains_key(k) ==> exists|i: int|
                    0 <= i < it.seq().len() && *(#[trigger] it.seq()[i]).0 == k,
    {
        r.push((*kv.0, *kv.1));
    }
    proof {
        assert(is_listing(m@, r@));
        lemma_listing_unique(m@, r@, listing(m@));
    }
    r
}

/// A stored hash as key and value.
pub open spec fn pair(h: HashWithData) -> (u64, u32) {
    (key(h), h.spec_data())
}

pub open spec fn pairs(s: Seq<HashWithData>) -> Seq<(u64, u32)> {
    s.map_values(|h: HashWithData| pair(h))
}

/// The stored form of a key and the low 24 bits of a value.
pub open spec fn stored(e: (u64, u32)) -> HashWithData {
    HashWithData::of(Hash40(e.0), e.1)
}

/// The number of entries at the front whose keys are less than `k`.
pub open spec fn leading(s: Seq<(u64, u32)>, k: u64) -> nat
    decreases s.len(),
{
    if s.len() == 0 || s[0].0 >= k {
        0
    } else {
        1 + leading(s.drop_first(), k)
    }
}

proof fn lemma_leading(s: Seq<(u64, u32)>, k: u64, n: int)
    requires
        0 <= n <= s.len(),
        forall|i: int| 0 <= i < n ==> (#[trigger] s[i]).0 < k,
        n < s.len() ==> s[n].0 >= k,
    ensures
        leading(s, k) == n,
    decreases s.len(),
{
    if s.len() > 0 && n > 0 {
        assert(s[0].0 < k);
        let t = s.drop_first();
        assert forall|i: int| 0 <= i < n - 1 implies (#[trigger] t[i]).0 < k by {
            assert(t[i] == s[i + 1]);
        }
        lemma_leading(t, k, n - 1);
    }
}

/// The entries that a walk over the runs `a` and `b` side by side meets. Where the first entry of `b` comes
/// before one of `a`, the walk leaves `a`, and meets that entry again for each of `b` that it passes.
pub open spec fn walked(a: Seq<(u64, u32)>, b: Seq<(u64, u32)>) -> Seq<(u64, u32)> {
    if b.len() == 0 {
        a
    } else {
        let n = leading(a, b[0].0) as int;
        if n == a.len() {
            a + b
        } else {
            a.take(n) + Seq::new(b.len() + 1, |i: int| b[0])
        }
    }
}

/// A walk meets all entries, in the order of their keys, if those of `b` come behind those of `a`.
pub proof fn law_walked(a: Seq<(u64, u32)>, b: Seq<(u64, u32)>)
    requires
        forall|i: int, j: int|
            0 <= i < a.len() && 0 <= j < b.len() ==> (#[trigger] a[i]).0 < (#[trigger] b[j]).0,
    ensures
        walked(a, b) == a + b,
        walked(a, b) == merge_pairs(a, b),
    decreases a.len(),
{
    if b.len() == 0 {
        assert(a + b =~= a);
    } else {
        assert forall|i: int| 0 <= i < a.len() implies (#[trigger] a[i]).0 < b[0].0 by {}
        lemma_leading(a, b[0].0, a.len() as int);
    }
    lemma_merge_behind(a, b);
}

proof fn lemma_merge_behind(a: Seq<(u64, u32)>, b: Seq<(u64, u32)>)
    requires
        forall|i: int, j: int|
            0 <= i < a.len() && 0 <= j < b.len() ==> (#[trigger] a[i]).0 < (#[trigger] b[j]).0,
    ensures
        merge_pairs(a, b) == a + b,
    decreases a.len() + b.len(),
{
    if a.len() == 0 {
        assert(a + b =~= b);
    } else if b.len() == 0 {
        assert(a + b =~= a);
    } else {
        lemma_merge_behind(a.drop_first(), b);
        assert(seq![a[0]] + (a.drop_first() + b) =~= a + b);
    }
    assert(merge_pairs(a, b) =~= a + b);
}

fn walk(a: &Vec<(u64, u32)>, b: &Vec<(u64, u32)>) -> (r: Vec<(u64, u32)>)
    ensures
        r@ == walked(a@, b@),
{
    let mut r: Vec<(u64, u32)> = Vec::new();
    let mut n: usize = 0;
    while n < a.len() && (b.len() == 0 || a[n].0 < b[0].0)
        invariant
            n <= a@.len(),
            r@ == a@.take(n as int),
            b@.len() > 0 ==> forall|i: int| 0 <= i < n ==> (#[trigger] a@[i]).0 < b@[0].0,
        ensures
            n <= a@.len(),
            r@ == a@.take(n as int),
            b@.len() > 0 ==> forall|i: int| 0 <= i < n ==> (#[trigger] a@[i]).0 < b@[0].0,
            n < a@.len() ==> b@.len() > 0 && a@[n as int].0 >= b@[0].0,
        decreases a@.len() - n,
    {
        r.push(a[n]);
        n += 1;
        proof {
            assert(r@ =~= a@.take(n as int));
        }
    }
    let left_behind: bool = n < a.len();
    proof {
        assert(a@.take(a@.len() as int) =~= a@);
        if b@.len() > 0 {
            lemma_leading(a@, b@[0].0, n as int);
        }
    }
    let ghost front = r@;
    proof {
        assert(front + Seq::new(0, |j: int| b@[0]) =~= front);
        assert(front + b@.take(0) =~= front);
    }
    for i in 0..b.len()
        invariant
            left_behind ==> b@.len() > 0,
            r@ == front + (if left_behind {
                Seq::new(i as nat, |j: int| b@[0])
            } else {
                b@.take(i as int)
            }),
    {
        if left_behind {
            r.push(b[0]);
        } else {
            r.push(b[i]);
        }
        proof {
            assert(r@ =~= front + (if left_behind {
                Seq::new((i + 1) as nat, |j: int| b@[0])
            } else {
                b@.take(i + 1)
            }));
        }
    }
    if left_behind {
        r.push(b[0]);
    }
    proof {
        assert(r@ =~= walked(a@, b@));
    }
    r
}

/// Two sorted runs of entries as one.
pub open spec fn merge_pairs(a: Seq<(u64, u32)>, b: Seq<(u64, u32)>) -> Seq<(u64, u32)>
    decreases a.len() + b.len(),
{
    if a.len() == 0 {
        b
    } else if b.len() == 0 {
        a
    } else if a[0].0 < b[0].0 {
        seq![a[0]] + merge_pairs(a.drop_first(), b)
    } else {
        seq![b[0]] + merge_pairs(a, b.drop_first())
    }
}

/// The value of the first entry with key `k`.
pub open spec fn find(s: Seq<(u64, u32)>, k: u64) -> Option<u32>
    decreases s.len(),
{
    if s.len() == 0 {
        None
    } else if s[0].0 == k {
        Some(s[0].1)
    } else {
        find(s.drop_first(), k)
    }
}

pub open spec fn sorted_pairs(s: Seq<(u64, u32)>) -> bool {
    forall|i: int, j: int| 0 <= i < j < s.len() ==> s[i].0 <= s[j].0
}

pub proof fn lemma_find(s: Seq<HashWithData>, k: u64)
    ensures
        find(pairs(s), k) == if position(s, k) < s.len() {
            Some(s[position(s, k)].spec_data())
        } else {
            None
        },
    decreases s.len(),
{
    lemma_position(s, k);
    if s.len() > 0 {
        assert(pairs(s).drop_first() =~= pairs(s.drop_first()));
        lemma_find(s.drop_first(), k);
        lemma_position(s.drop_first(), k);
    }
}

pub proof fn lemma_find_listing(m: Map<u64, u32>, s: Seq<(u64, u32)>, k: u64)
    requires
        is_listing(m, s),
    ensures
        find(s, k) == if m.contains_key(k) {
            Some(m[k])
        } else {
            None
        },
    decreases s.len(),
{
    if s.len() > 0 {
        let m2 = m.remove(s[0].0);
        let t = s.drop_first();
        assert forall|i: int| 0 <= i < t.len() implies m2.contains_key(t[i].0) && m2[t[i].0]
            == t[i].1 by {
            assert(t[i] == s[i + 1]);
        }
        assert forall|k: u64| m2.contains_key(k) implies exists|i: int|
            0 <= i < t.len() && t[i].0 == k by {
            let i = choose|i: int| 0 <= i < s.len() && s[i].0 == k;
            assert(t[i - 1].0 == k);
        }
        lemma_find_listing(m2, t, k);
        assert(m.contains_key(s[0].0) && m[s[0].0] == s[0].1);
    }
}

/// Merging sorted runs gives a sorted run that has the entries of both.
pub proof fn law_merge_pairs(a: Seq<(u64, u32)>, b: Seq<(u64, u32)>, k: u64)
    requires
        sorted_pairs(a),
        sorted_pairs(b),
    ensures
        sorted_pairs(merge_pairs(a, b)),
        merge_pairs(a, b).len() == a.len() + b.len(),
        find(a, k) is None ==> find(merge_pairs(a, b), k) == find(b, k),
        find(b, k) is None ==> find(merge_pairs(a, b), k) == find(a, k),
        forall|i: int|
            0 <= i < merge_pairs(a, b).len() ==> a.contains(#[trigger] merge_pairs(a, b)[i])
                || b.contains(merge_pairs(a, b)[i]),
    decreases a.len() + b.len(),
{
    let m = merge_pairs(a, b);
    if a.len() == 0 || b.len() == 0 {
        if a.len() == 0 {
            assert forall|i: int| 0 <= i < m.len() implies b.contains(#[trigger] m[i]) by {
                assert(b[i] == m[i]);
            }
        } else {
            assert forall|i: int| 0 <= i < m.len() implies a.contains(#[trigger] m[i]) by {
                assert(a[i] == m[i]);
            }
        }
    } else {
        let from_a = a[0].0 < b[0].0;
        let a2 = if from_a {
            a.drop_first()
        } else {
            a
        };
        let b2 = if from_a {
            b
        } else {
            b.drop_first()
        };
        let head = if from_a {
            a[0]
        } else {
            b[0]
        };
        let rest = merge_pairs(a2, b2);
        law_merge_pairs(a2, b2, k);
        assert(m =~= seq![head] + rest);
        assert(m.drop_first() =~= rest);
        assert(forall|x: (u64, u32)| #[trigger]
            a2.contains(x) ==> a.contains(x) && head.0 <= x.0) by {
            assert forall|x: (u64, u32)| #[trigger] a2.contains(x) implies a.contains(x) && head.0
                <= x.0 by {
                let i = choose|i: int| 0 <= i < a2.len() && a2[i] == x;
                if from_a {
                    assert(a[i + 1] == x);
                } else {
                    assert(a[i] == x);
                    assert(a[0].0 <= a[i].0);
                }
            }
        }
        assert(forall|x: (u64, u32)| #[trigger]
            b2.contains(x) ==> b.contains(x) && head.0 <= x.0) by {
            assert forall|x: (u64, u32)| #[trigger] b2.contains(x) implies b.contains(x) && head.0
                <= x.0 by {
                let i = choose|i: int| 0 <= i < b2.len() && b2[i] == x;
                if from_a {
                    assert(b[i] == x);
                    assert(b[0].0 <= b[i].0);
                } else {
                    assert(b[i + 1] == x);
                }
            }
        }
        assert forall|i: int| 0 <= i < m.len() implies a.contains(#[trigger] m[i]) || b.contains(
            m[i],
        ) by {
            if i == 0 {
                assert(a.contains(a[0]) && b.contains(b[0]));
            } else {
                assert(m[i] == rest[i - 1]);
            }
        }
        assert forall|i: int, j: int| 0 <= i < j < m.len() implies m[i].0 <= m[j].0 by {
            assert(m[j] == rest[j - 1]);
            if i > 0 {
                assert(m[i] == rest[i - 1]);
            }
        }
    }
}

/// Merges two runs of entries that are sorted by their keys.
fn merge(a: &Vec<(u64, u32)>, b: &Vec<(u64, u32)>, out: &mut Vec<(u64, u32)>)
    ensures
        final(out)@ == old(out)@ + merge_pairs(a@, b@),
{
    let ghost all = old(out)@ + merge_pairs(a@, b@);
    let mut i: usize = 0;
    let mut j: usize = 0;
    proof {
        assert(a@.skip(0) =~= a@);
        assert(b@.skip(0) =~= b@);
    }
    while i < a.len() || j < b.len()
        invariant
            i <= a@.len(),
            j <= b@.len(),
            out@ + merge_pairs(a@.skip(i as int), b@.skip(j as int)) == all,
        decreases a@.len() - i + b@.len() - j,
    {
        let ghost sa = a@.skip(i as int);
        let ghost sb = b@.skip(j as int);
        let ghost before = out@;
        let from_a: bool = if j >= b.len() {
            true
        } else if i >= a.len() {
            false
        } else {
            a[i].0 < b[j].0
        };
        proof {
            let x = if from_a {
                sa[0]
            } else {
                sb[0]
            };
            let ra = if from_a {
                sa.drop_first()
            } else {
                sa
            };
            let rb = if from_a {
                sb
            } else {
                sb.drop_first()
            };
            assert(a@.skip(i + 1) =~= a@.skip(i as int).drop_first() || !from_a);
            assert(b@.skip(j + 1) =~= b@.skip(j as int).drop_first() || from_a);
            assert(merge_pairs(sa, sb) =~= seq![x] + merge_pairs(ra, rb)) by {
                if sa.len() == 0 {
                    assert(merge_pairs(ra, rb) =~= rb);
                } else if sb.len() == 0 {
                    assert(merge_pairs(ra, rb) =~= ra);
                }
            }
            assert(before.push(x) + merge_pairs(ra, rb) =~= before + merge_pairs(sa, sb));
        }
        if from_a {
            out.push(a[i]);
            i += 1;
        } else {
            out.push(b[j]);
            j += 1;
        }
    }
    proof {
        assert(out@ + merge_pairs(a@.skip(i as int), b@.skip(j as int)) =~= out@);
    }
}

/// Merging leaves the entries of both runs.
pub proof fn lemma_merge_multiset(a: Seq<(u64, u32)>, b: Seq<(u64, u32)>)
    ensures
        merge_pairs(a, b).to_multiset() == a.to_multiset().add(b.to_multiset()),
    decreases a.len() + b.len(),
{
    broadcast use vstd::seq_lib::group_to_multiset_ensures;

    if a.len() == 0 {
        assert(a.to_multiset() =~= vstd::multiset::Multiset::empty());
        assert(merge_pairs(a, b).to_multiset() =~= a.to_multiset().add(b.to_multiset()));
    } else if b.len() == 0 {
        assert(b.to_multiset() =~= vstd::multiset::Multiset::empty());
        assert(merge_pairs(a, b).to_multiset() =~= a.to_multiset().add(b.to_multiset()));
    } else {
        let from_a = a[0].0 < b[0].0;
        let x = if from_a {
            a[0]
        } else {
            b[0]
        };
        let a2 = if from_a {
            a.drop_first()
        } else {
            a
        };
        let b2 = if from_a {
            b
        } else {
            b.drop_first()
        };
        lemma_merge_multiset(a2, b2);
        vstd::seq_lib::lemma_multiset_commutative(seq![x], merge_pairs(a2, b2));
        if from_a {
            vstd::seq_lib::lemma_multiset_commutative(seq![x], a2);
            assert(a =~= seq![x] + a2);
        } else {
            vstd::seq_lib::lemma_multiset_commutative(seq![x], b2);
            assert(b =~= seq![x] + b2);
        }
        assert(merge_pairs(a, b) =~= seq![x] + merge_pairs(a2, b2));
        assert(merge_pairs(a, b).to_multiset() =~= a.to_multiset().add(b.to_multiset()));
    }
}

/// Sorts entries by their keys.
pub fn sort_pairs(s: &Vec<(u64, u32)>, from: usize, to: usize) -> (r: Vec<(u64, u32)>)
    requires
        from <= to <= s@.len(),
    ensures
        sorted_pairs(r@),
        r@.to_multiset() == s@.subrange(from as int, to as int).to_multiset(),
        r@.len() == to - from,
    decreases to - from,
{
    let ghost sub = s@.subrange(from as int, to as int);
    let mut out: Vec<(u64, u32)> = Vec::new();
    if to - from < 2 {
        if from < to {
            out.push(s[from]);
        }
        proof {
            assert(out@ =~= sub);
        }
        return out;
    }
    let mid: usize = from + (to - from) / 2;
    let a = sort_pairs(s, from, mid);
    let b = sort_pairs(s, mid, to);
    merge(&a, &b, &mut out);
    proof {
        let x = s@.subrange(from as int, mid as int);
        let y = s@.subrange(mid as int, to as int);
        assert(sub =~= x + y);
        assert(out@ =~= merge_pairs(a@, b@));
        law_merge_pairs(a@, b@, 0);
        lemma_merge_multiset(a@, b@);
        vstd::seq_lib::lemma_multiset_commutative(x, y);
    }
    out
}

/// Stored hashes as keys and values.
fn to_pairs(s: &Vec<HashWithData>, from: usize, to: usize) -> (r: Vec<(u64, u32)>)
    requires
        from <= to <= s@.len(),
    ensures
        r@ == pairs(s@.subrange(from as int, to as int)),
{
    let mut r: Vec<(u64, u32)> = Vec::new();
    let mut i: usize = from;
    while i < to
        invariant
            from <= i <= to <= s@.len(),
            r@ =~= pairs(s@.subrange(from as int, i as int)),
        decreases to - i,
    {
        r.push((s[i].hash40().raw(), s[i].data()));
        i += 1;
    }
    r
}

/// The stored form of entries.
fn to_stored(s: &Vec<(u64, u32)>) -> (r: Vec<HashWithData>)
    ensures
        r@ == s@.map_values(|e: (u64, u32)| stored(e)),
{
    let mut r: Vec<HashWithData> = Vec::new();
    let mut i: usize = 0;
    while i < s.len()
        invariant
            i <= s@.len(),
            r@ =~= s@.take(i as int).map_values(|e: (u64, u32)| stored(e)),
        decreases s@.len() - i,
    {
        r.push(HashWithData::new(Hash40::from_raw(s[i].0), s[i].1));
        i += 1;
    }
    proof {
        assert(s@.take(i as int) =~= s@);
    }
    r
}

fn to_hashes(s: &Vec<(u64, u32)>) -> (r: Vec<(Hash40, u32)>)
    ensures
        r@ == s@.map_values(|e: (u64, u32)| (Hash40(e.0), e.1)),
{
    let mut r: Vec<(Hash40, u32)> = Vec::new();
    let mut i: usize = 0;
    while i < s.len()
        invariant
            i <= s@.len(),
            r@ =~= s@.take(i as int).map_values(|e: (u64, u32)| (Hash40(e.0), e.1)),
        decreases s@.len() - i,
    {
        r.push((Hash40::from_raw(s[i].0), s[i].1));
        i += 1;
    }
    proof {
        assert(s@.take(i as int) =~= s@);
    }
    r
}

/// Entries with 40-bit keys survive being stored, but for the top 8 bits of their values.
pub proof fn lemma_stored(s: Seq<(u64, u32)>, k: u64)
    requires
        forall|i: int| 0 <= i < s.len() ==> (#[trigger] s[i]).0 < 0x100_0000_0000,
    ensures
        sorted_pairs(s) ==> sorted(s.map_values(|e: (u64, u32)| stored(e))),
        find(pairs(s.map_values(|e: (u64, u32)| stored(e))), k) == match find(s, k) {
            Some(v) => Some((v % 0x100_0000) as u32),
            None => None,
        },
    decreases s.len(),
{
    let t = s.map_values(|e: (u64, u32)| stored(e));
    assert forall|i: int| 0 <= i < s.len() implies key(#[trigger] t[i]) == s[i].0 && t[i].spec_data()
        == s[i].1 % 0x100_0000 by {
        assert(t[i] == stored(s[i]));
    }
    if s.len() > 0 {
        let s2 = s.drop_first();
        assert(pairs(t).drop_first() =~= pairs(s2.map_values(|e: (u64, u32)| stored(e))));
        assert forall|i: int| 0 <= i < s2.len() implies (#[trigger] s2[i]).0 < 0x100_0000_0000 by {
            assert(s2[i] == s[i + 1]);
        }
        lemma_stored(s2, k);
        assert(pairs(t)[0] == pair(t[0]));
    }
}

/// What an [`IndexLookup`] holds.
pub struct LookupView {
    pub fixed: Seq<HashWithData>,
    pub dynamic: Map<u64, u32>,
}

impl LookupView {
    pub open spec fn has_fixed(self, k: u64) -> bool {
        position(self.fixed, k) < self.fixed.len()
    }

    /// The index that a key points to.
    pub open spec fn get(self, k: u64) -> Option<u32> {
        if self.has_fixed(k) {
            Some(self.fixed[position(self.fixed, k)].spec_data())
        } else if self.dynamic.contains_key(k) {
            Some(self.dynamic[k])
        } else {
            None
        }
    }

    /// The lookup with another index for a key. Indices in the fixed part have 24 bits.
    pub open spec fn put(self, k: u64, index: u32) -> LookupView {
        if self.has_fixed(k) {
            let p = position(self.fixed, k);
            LookupView { fixed: self.fixed.update(p, self.fixed[p].with_data(index)), ..self }
        } else {
            LookupView { dynamic: self.dynamic.insert(k, index), ..self }
        }
    }

    /// The fixed part is sorted, and the dynamic part has only 40-bit keys that it lacks.
    pub open spec fn wf(self) -> bool {
        &&& sorted(self.fixed)
        &&& self.dynamic.dom().finite()
        &&& forall|k: u64| #[trigger]
            self.dynamic.contains_key(k) ==> k < 0x100_0000_0000 && !self.has_fixed(k)
    }

    pub open spec fn len(self) -> nat {
        self.fixed.len() + self.dynamic.len()
    }

    /// All entries, sorted.
    pub open spec fn entries(self) -> Seq<(u64, u32)> {
        merge_pairs(pairs(self.fixed), listing(self.dynamic))
    }

    /// The entries that a walk over both parts meets.
    pub open spec fn walked(self) -> Seq<(u64, u32)> {
        walked(pairs(self.fixed), listing(self.dynamic))
    }

    /// The lookup with everything in its fixed part.
    pub open spec fn merged(self) -> LookupView {
        LookupView {
            fixed: self.entries().map_values(|e: (u64, u32)| stored(e)),
            dynamic: Map::empty(),
        }
    }
}

/// A key that was put is found again, up to the 24 bits of the fixed part, and no other key
/// changes.
pub proof fn law_lookup_put(v: LookupView, k: u64, index: u32, other: u64)
    requires
        v.wf(),
        k < 0x100_0000_0000,
    ensures
        v.put(k, index).wf(),
        v.put(k, index).get(k) == Some(
            if v.has_fixed(k) {
                (index % 0x100_0000) as u32
            } else {
                index
            },
        ),
        other != k ==> v.put(k, index).get(other) == v.get(other),
{
    lemma_position(v.fixed, k);
    lemma_position(v.fixed, other);
    let w = v.put(k, index);
    if v.has_fixed(k) {
        let p = position(v.fixed, k);
        assert forall|j: u64| #[trigger] w.has_fixed(j) == v.has_fixed(j) by {
            lemma_position_update(v.fixed, p, index, j);
        }
        lemma_position_update(v.fixed, p, index, k);
        lemma_position_update(v.fixed, p, index, other);
    }
}

/// The listing of the dynamic part exists.
proof fn lemma_listing_exists(m: Map<u64, u32>)
    requires
        m.dom().finite(),
    ensures
        is_listing(m, listing(m)),
        listing(m).len() == m.len(),
    decreases m.len(),
{
    lemma_some_listing(m);
    let s = choose|s: Seq<(u64, u32)>| is_listing(m, s) && s.len() == m.len();
    assert(is_listing(m, s));
    lemma_listing_unique(m, s, listing(m));
}

/// A finite map has a listing.
proof fn lemma_some_listing(m: Map<u64, u32>)
    requires
        m.dom().finite(),
    ensures
        exists|s: Seq<(u64, u32)>| is_listing(m, s) && s.len() == m.len(),
    decreases m.len(),
{
    if m.len() == 0 {
        m.dom().lemma_len0_is_empty();
        let s = Seq::<(u64, u32)>::empty();
        assert(is_listing(m, s) && s.len() == m.len());
    } else {
        let leq = |a: u64, b: u64| a <= b;
        let k = m.dom().find_unique_maximal(leq);
        m.dom().find_unique_maximal_ensures(leq);
        let m2 = m.remove(k);
        assert forall|j: u64| m.contains_key(j) implies j <= k by {
            assert(m.dom().contains(j));
            assert(leq(k, j) ==> leq(j, k));
        }
        assert(m2.dom() =~= m.dom().remove(k));
        lemma_some_listing(m2);
        let t = choose|s: Seq<(u64, u32)>| is_listing(m2, s) && s.len() == m2.len();
        let s = t.push((k, m[k]));
        assert forall|i: int, j: int| 0 <= i < j < s.len() implies s[i].0 < s[j].0 by {
            assert(m2.contains_key(t[i].0));
        }
        assert forall|j: u64| m.contains_key(j) implies exists|i: int|
            0 <= i < s.len() && s[i].0 == j by {
            if j == k {
                assert(s[t.len() as int].0 == j);
            } else {
                assert(m2.contains_key(j));
                let i = choose|i: int| 0 <= i < t.len() && t[i].0 == j;
                assert(s[i].0 == j);
            }
        }
        assert forall|i: int| 0 <= i < s.len() implies m.contains_key(s[i].0) && m[s[i].0]
            == s[i].1 by {
            if i < t.len() {
                assert(m2.contains_key(t[i].0));
            }
        }
        assert(is_listing(m, s));
    }
}

/// Bringing the parts together keeps every key, up to the 24 bits of the fixed part, adds none, and
/// leaves the lookup sorted.
pub proof fn law_lookup_merged(v: LookupView, k: u64)
    requires
        v.wf(),
    ensures
        v.merged().wf(),
        v.merged().fixed.len() == v.len(),
        v.merged().get(k) == match v.get(k) {
            Some(i) => Some((i % 0x100_0000) as u32),
            None => None,
        },
{
    let a = pairs(v.fixed);
    let b = listing(v.dynamic);
    let m = merge_pairs(a, b);
    lemma_listing_exists(v.dynamic);
    assert forall|i: int, j: int| 0 <= i < j < a.len() implies a[i].0 <= a[j].0 by {
        assert(a[i] == pair(v.fixed[i]) && a[j] == pair(v.fixed[j]));
    }
    law_merge_pairs(a, b, k);
    lemma_find(v.fixed, k);
    lemma_find_listing(v.dynamic, b, k);
    assert forall|i: int| 0 <= i < m.len() implies (#[trigger] m[i]).0 < 0x100_0000_0000 by {
        if a.contains(m[i]) {
            let j = choose|j: int| 0 <= j < a.len() && a[j] == m[i];
            assert(a[j] == pair(v.fixed[j]));
        } else {
            let j = choose|j: int| 0 <= j < b.len() && b[j] == m[i];
            assert(v.dynamic.contains_key(b[j].0));
        }
    }
    lemma_stored(m, k);
    lemma_find(v.merged().fixed, k);
    lemma_position(v.merged().fixed, k);
    lemma_position(v.fixed, k);
    assert(v.has_fixed(k) ==> v.fixed[position(v.fixed, k)].spec_data() < 0x100_0000);
}

/// Finds indices of a table by hash.
///
/// The fixed part is a sorted run of hashes that is bisected, the dynamic part is a map.
pub struct IndexLookup {
    fixed: Vec<HashWithData>,
    dynamic: BTreeMap<u64, u32>,
}

impl View for IndexLookup {
    type V = LookupView;

    closed spec fn view(&self) -> LookupView {
        LookupView { fixed: self.fixed@, dynamic: self.dynamic@ }
    }
}

impl IndexLookup {
    pub open spec fn wf(&self) -> bool {
        self@.wf()
    }

    /// Takes over hashes as the fixed part.
    pub fn from_fixed(fixed: Vec<HashWithData>) -> (r: IndexLookup)
        ensures
            r@ == (LookupView { fixed: fixed@, dynamic: Map::empty() }),
    {
        IndexLookup { fixed, dynamic: BTreeMap::new() }
    }

    /// Reads `count` hashes from word `at` on as the fixed part.
    pub fn new(words: &[u32], at: usize, count: usize) -> (r: IndexLookup)
        requires
            at + count * 2 <= words@.len(),
        ensures
            r@.fixed.len() == count,
            flat(r@.fixed) == words@.subrange(at as int, at + count * 2),
            r@.dynamic == Map::<u64, u32>::empty(),
    {
        IndexLookup::from_fixed(read_records(words, at, count))
    }

    /// Is the fixed part sorted?
    pub fn is_sorted(&self) -> (r: bool)
        ensures
            r == sorted(self@.fixed),
    {
        proof {
            assert(self.fixed@.subrange(0, self.fixed@.len() as int) =~= self.fixed@);
        }
        is_sorted_range(&self.fixed, 0, self.fixed.len())
    }

    /// Number of hashes in the fixed part.
    pub fn fixed_len(&self) -> (r: usize)
        ensures
            r == self@.fixed.len(),
    {
        self.fixed.len()
    }

    /// Number of entries, unless it is past what 32 bits can count.
    pub fn len(&self) -> (r: Option<u32>)
        ensures
            match r {
                Some(n) => n == self@.len(),
                None => self@.len() > u32::MAX,
            },
    {
        let a: usize = self.fixed.len();
        let b: usize = self.dynamic.len();
        if a > 0xFFFF_FFFF || b > 0xFFFF_FFFF {
            return None;
        }
        let n: u64 = a as u64 + b as u64;
        if n > 0xFFFF_FFFF {
            None
        } else {
            Some(n as u32)
        }
    }

    /// Length of the fixed part in bytes.
    pub fn fixed_byte_len(&self) -> (r: u64)
        requires
            self@.fixed.len() <= u32::MAX,
        ensures
            r == self@.fixed.len() * 8,
    {
        self.fixed.len() as u64 * 8
    }

    pub fn contains_key(&self, hash: Hash40) -> (r: bool)
        requires
            self.wf(),
        ensures
            r == (self@.get(hash.0) is Some),
    {
        self.get(hash).is_some()
    }

    /// The index that the hash points to.
    pub fn get(&self, hash: Hash40) -> (r: Option<u32>)
        requires
            self.wf(),
        ensures
            r == self@.get(hash.0),
    {
        proof {
            assert(self.fixed@.subrange(0, self.fixed@.len() as int) =~= self.fixed@);
        }
        match search(&self.fixed, 0, self.fixed.len(), hash.raw()) {
            Some(p) => Some(self.fixed[p].data()),
            None => match self.dynamic.get(&hash.raw()) {
                Some(index) => Some(*index),
                None => None,
            },
        }
    }

    /// Changes the index of a hash that is there. Returns whether it is.
    pub fn set(&mut self, hash: Hash40, new_index: u32) -> (r: bool)
        requires
            old(self).wf(),
            hash.wf(),
        ensures
            r == (old(self)@.get(hash.0) is Some),
            final(self)@ == if r {
                old(self)@.put(hash.0, new_index)
            } else {
                old(self)@
            },
            final(self).wf(),
    {
        if self.contains_key(hash) {
            let _previous = self.insert(hash, new_index);
            true
        } else {
            false
        }
    }

    /// Points a hash at an index and returns the index that it pointed to before.
    pub fn insert(&mut self, hash: Hash40, index: u32) -> (r: Option<u32>)
        requires
            old(self).wf(),
            hash.wf(),
        ensures
            r == old(self)@.get(hash.0),
            final(self)@ == old(self)@.put(hash.0, index),
            final(self).wf(),
    {
        proof {
            assert(self.fixed@.subrange(0, self.fixed@.len() as int) =~= self.fixed@);
            law_lookup_put(self@, hash.0, index, hash.0);
        }
        match search(&self.fixed, 0, self.fixed.len(), hash.raw()) {
            Some(p) => {
                let previous: u32 = self.fixed[p].data();
                let mut h = self.fixed[p];
                h.set_data(index);
                self.fixed.set(p, h);
                Some(previous)
            },
            None => self.dynamic.insert(hash.raw(), index),
        }
    }

    /// The entries that a walk over both parts meets. It meets all of them, sorted by hash, as long as no
    /// added hash comes before one of the fixed part.
    pub fn iter(&self) -> (r: Vec<(Hash40, u32)>)
        ensures
            r@ == self@.walked().map_values(|e: (u64, u32)| (Hash40(e.0), e.1)),
    {
        let a = to_pairs(&self.fixed, 0, self.fixed.len());
        let b = list_map(&self.dynamic);
        proof {
            assert(self.fixed@.subrange(0, self.fixed@.len() as int) =~= self.fixed@);
        }
        to_hashes(&walk(&a, &b))
    }

    fn entry_pairs(&self) -> (r: Vec<(u64, u32)>)
        ensures
            r@ == self@.entries(),
    {
        let a = to_pairs(&self.fixed, 0, self.fixed.len());
        let b = list_map(&self.dynamic);
        let mut out: Vec<(u64, u32)> = Vec::new();
        merge(&a, &b, &mut out);
        proof {
            assert(self.fixed@.subrange(0, self.fixed@.len() as int) =~= self.fixed@);
            assert(out@ =~= self@.entries());
        }
        out
    }

    /// Brings both parts together in the fixed part.
    pub fn merge(&mut self)
        ensures
            final(self)@ == old(self)@.merged(),
    {
        let entries = self.entry_pairs();
        self.fixed = to_stored(&entries);
        self.dynamic = BTreeMap::new();
    }

    /// Appends the words of the fixed part.
    pub fn write_fixed(&self, out: &mut Vec<u32>)
        ensures
            final(out)@ == old(out)@ + flat(self@.fixed),
    {
        write_records(&self.fixed, out);
    }
}

/// Is `s[from..to]` sorted?
fn is_sorted_range(s: &Vec<HashWithData>, from: usize, to: usize) -> (r: bool)
    requires
        from <= to <= s@.len(),
    ensures
        r == sorted(s@.subrange(from as int, to as int)),
{
    let ghost sub = s@.subrange(from as int, to as int);
    if to - from < 2 {
        return true;
    }
    let mut i: usize = from + 1;
    while i < to
        invariant
            from < i <= to <= s@.len(),
            sub == s@.subrange(from as int, to as int),
            forall|a: int, b: int| 0 <= a < b < i - from ==> key(sub[a]) <= key(sub[b]),
        decreases to - i,
    {
        proof {
            assert(s@[i as int] == sub[i - from]);
            assert(s@[i - 1] == sub[i - from - 1]);
        }
        if s[i - 1].hash40().raw() > s[i].hash40().raw() {
            return false;
        }
        proof {
            assert forall|a: int, b: int| 0 <= a < b < i + 1 - from implies key(sub[a]) <= key(
                sub[b],
            ) by {
                if b == i - from && a < i - from - 1 {
                    assert(key(sub[a]) <= key(sub[i - from - 1]));
                }
            }
        }
        i += 1;
    }
    true
}

/// A range of the hashes of a [`BucketLookup`].
#[derive(Copy, Clone, Debug, PartialEq, Eq, Structural)]
pub struct Bucket {
    pub start: u32,
    pub count: u32,
}

/// What a [`BucketLookup`] holds.
pub struct BucketView {
    pub hashes: Seq<HashWithData>,
    pub buckets: Seq<Bucket>,
    pub dynamic: Seq<Map<u64, u32>>,
}

impl BucketView {
    /// The bucket of a key.
    pub open spec fn bucket_of(self, k: u64) -> int {
        k as int % self.buckets.len() as int
    }

    /// The fixed hashes of bucket `b`.
    pub open spec fn slice(self, b: int) -> Seq<HashWithData> {
        self.hashes.subrange(
            self.buckets[b].start as int,
            self.buckets[b].start + self.buckets[b].count,
        )
    }

    /// Bucket `b` as a lookup of its own.
    pub open spec fn part(self, b: int) -> LookupView {
        LookupView { fixed: self.slice(b), dynamic: self.dynamic[b] }
    }

    /// The index that a key points to.
    pub open spec fn get(self, k: u64) -> Option<u32> {
        self.part(self.bucket_of(k)).get(k)
    }

    /// The lookup with another index for a key. Indices in the fixed part have 24 bits.
    pub open spec fn put(self, k: u64, index: u32) -> BucketView {
        let b = self.bucket_of(k);
        if self.part(b).has_fixed(k) {
            let p = self.buckets[b].start + position(self.slice(b), k);
            BucketView { hashes: self.hashes.update(p, self.hashes[p].with_data(index)), ..self }
        } else {
            BucketView {
                dynamic: self.dynamic.update(b, self.dynamic[b].insert(k, index)),
                ..self
            }
        }
    }

    /// There are buckets, they lie within the hashes, and each is a valid lookup.
    pub open spec fn wf(self) -> bool {
        &&& self.buckets.len() > 0
        &&& self.dynamic.len() == self.buckets.len()
        &&& forall|b: int|
            0 <= b < self.buckets.len() ==> (#[trigger] self.buckets[b]).start
                + self.buckets[b].count <= self.hashes.len()
        &&& forall|b: int| 0 <= b < self.buckets.len() ==> (#[trigger] self.part(b)).wf()
    }

    /// Number of entries that were added to the first `n` buckets.
    pub open spec fn added(self, n: int) -> nat
        decreases n,
    {
        if n <= 0 {
            0
        } else {
            self.added(n - 1) + self.dynamic[n - 1].len()
        }
    }

    /// The entries of the first `n` buckets, bucket by bucket.
    pub open spec fn entries(self, n: int) -> Seq<(u64, u32)>
        decreases n,
    {
        if n <= 0 {
            Seq::empty()
        } else {
            self.entries(n - 1) + self.part(n - 1).entries()
        }
    }

    /// The buckets that the entries of all buckets make up.
    pub open spec fn new_buckets(self) -> Seq<Bucket> {
        Seq::new(
            self.buckets.len(),
            |b: int|
                Bucket {
                    start: self.entries(b).len() as u32,
                    count: self.part(b).entries().len() as u32,
                },
        )
    }

    /// The lookup with everything in its fixed part.
    pub open spec fn merged(self) -> BucketView {
        BucketView {
            hashes: self.entries(self.buckets.len() as int).map_values(
                |e: (u64, u32)| stored(e),
            ),
            buckets: self.new_buckets(),
            dynamic: Seq::new(self.buckets.len(), |b: int| Map::empty()),
        }
    }
}

/// Putting a key in one bucket leaves all buckets valid.
proof fn lemma_bucket_put(v: BucketView, k: u64, index: u32, b: int)
    requires
        v.wf(),
        k < 0x100_0000_0000,
        0 <= b < v.buckets.len(),
    ensures
        v.put(k, index).part(b).wf(),
        b == v.bucket_of(k) ==> v.put(k, index).part(b) == v.part(b).put(k, index),
        forall|other: u64| other != k ==> v.put(k, index).part(b).get(other) == v.part(b).get(other),
{
    let w = v.put(k, index);
    let h = v.bucket_of(k);
    assert(v.part(h).wf() && v.part(b).wf());
    assert(v.buckets[h].start + v.buckets[h].count <= v.hashes.len());
    assert(v.buckets[b].start + v.buckets[b].count <= v.hashes.len());
    law_lookup_put(v.part(h), k, index, k);
    if v.part(h).has_fixed(k) {
        lemma_position(v.slice(h), k);
        let p = v.buckets[h].start + position(v.slice(h), k);
        assert(v.slice(h)[position(v.slice(h), k)] == v.hashes[p]);
        let start = v.buckets[b].start as int;
        if start <= p < start + v.buckets[b].count {
            let q = p - start;
            assert(v.slice(b)[q] == v.hashes[p]);
            assert(w.slice(b) =~= v.slice(b).update(q, v.slice(b)[q].with_data(index)));
            assert forall|j: u64| #[trigger] w.part(b).has_fixed(j) == v.part(b).has_fixed(j) by {
                lemma_position_update(v.slice(b), q, index, j);
            }
            lemma_position_update(v.slice(b), q, index, k);
            assert forall|other: u64| other != k implies w.part(b).get(other) == v.part(b).get(
                other,
            ) by {
                lemma_position_update(v.slice(b), q, index, other);
                lemma_position(v.slice(b), other);
            }
        } else {
            assert(w.slice(b) =~= v.slice(b));
        }
    } else {
        assert(w.slice(b) =~= v.slice(b));
    }
}

/// A key that was put is found again, up to the 24 bits of the fixed part, and no other key
/// changes.
pub proof fn law_bucket_put(v: BucketView, k: u64, index: u32, other: u64)
    requires
        v.wf(),
        k < 0x100_0000_0000,
    ensures
        v.put(k, index).wf(),
        v.put(k, index).get(k) == Some(
            if v.part(v.bucket_of(k)).has_fixed(k) {
                (index % 0x100_0000) as u32
            } else {
                index
            },
        ),
        other != k ==> v.put(k, index).get(other) == v.get(other),
{
    let h = v.bucket_of(k);
    let w = v.put(k, index);
    assert(v.part(h).wf());
    law_lookup_put(v.part(h), k, index, k);
    lemma_bucket_put(v, k, index, h);
    lemma_bucket_put(v, k, index, v.bucket_of(other));
    assert(v.buckets[h].start + v.buckets[h].count <= v.hashes.len());
    lemma_position(v.slice(h), k);
    assert forall|b: int| 0 <= b < w.buckets.len() implies (#[trigger] w.part(b)).wf() by {
        lemma_bucket_put(v, k, index, b);
    }
    assert forall|b: int| 0 <= b < w.buckets.len() implies (#[trigger] w.buckets[b]).start
        + w.buckets[b].count <= w.hashes.len() by {
        assert(v.buckets[b].start + v.buckets[b].count <= v.hashes.len());
    }
}

proof fn lemma_part_entries(v: BucketView, b: int)
    requires
        v.wf(),
        0 <= b < v.buckets.len(),
    ensures
        v.part(b).entries().len() == v.buckets[b].count + v.dynamic[b].len(),
{
    assert(v.part(b).wf());
    assert(v.buckets[b].start + v.buckets[b].count <= v.hashes.len());
    law_lookup_merged(v.part(b), 0);
}

proof fn lemma_entries_prefix(v: BucketView, a: int, b: int)
    requires
        0 <= a <= b,
    ensures
        v.entries(a).len() <= v.entries(b).len(),
        v.entries(b).take(v.entries(a).len() as int) == v.entries(a),
    decreases b,
{
    if a < b {
        lemma_entries_prefix(v, a, b - 1);
        assert(v.entries(b).take(v.entries(a).len() as int) =~= v.entries(b - 1).take(
            v.entries(a).len() as int,
        ));
    } else {
        assert(v.entries(b).take(v.entries(a).len() as int) =~= v.entries(a));
    }
}

/// Bringing the parts together keeps every key, up to the 24 bits of the fixed part, adds none, and
/// leaves a valid lookup. The entries have to be few enough for the buckets to count them.
pub proof fn law_bucket_merged(v: BucketView, k: u64)
    requires
        v.wf(),
        v.entries(v.buckets.len() as int).len() <= u32::MAX,
    ensures
        v.merged().wf(),
        v.merged().get(k) == match v.get(k) {
            Some(i) => Some((i % 0x100_0000) as u32),
            None => None,
        },
{
    let m = v.merged();
    let n = v.buckets.len() as int;
    assert forall|b: int| 0 <= b < n implies (#[trigger] m.buckets[b]).start + m.buckets[b].count
        <= m.hashes.len() && m.part(b) == v.part(b).merged() by {
        lemma_entries_prefix(v, b, n);
        lemma_entries_prefix(v, b + 1, n);
        let lo = v.entries(b).len() as int;
        let hi = v.entries(b + 1).len() as int;
        assert(v.entries(b + 1) == v.entries(b) + v.part(b).entries());
        assert(m.slice(b) =~= v.part(b).merged().fixed) by {
            assert forall|i: int| 0 <= i < hi - lo implies m.slice(b)[i] == v.part(
                b,
            ).merged().fixed[i] by {
                assert(v.entries(n).take(hi)[lo + i] == v.entries(b + 1)[lo + i]);
            }
        }
    }
    assert forall|b: int| 0 <= b < n implies (#[trigger] m.part(b)).wf() by {
        assert(m.buckets[b].start + m.buckets[b].count <= m.hashes.len());
        assert(v.part(b).wf());
        law_lookup_merged(v.part(b), k);
    }
    let h = v.bucket_of(k);
    assert(m.buckets[h].start + m.buckets[h].count <= m.hashes.len());
    assert(v.part(h).wf());
    law_lookup_merged(v.part(h), k);
}

/// Finds indices of a table by hash, with buckets for faster searches.
///
/// The fixed part is a run of hashes in which every bucket is sorted by itself. The dynamic part
/// is one map for each bucket.
pub struct BucketLookup {
    hashes: Vec<HashWithData>,
    buckets: Vec<Bucket>,
    dynamic: Vec<BTreeMap<u64, u32>>,
}

impl View for BucketLookup {
    type V = BucketView;

    closed spec fn view(&self) -> BucketView {
        BucketView {
            hashes: self.hashes@,
            buckets: self.buckets@,
            dynamic: Seq::new(self.dynamic@.len(), |b: int| self.dynamic@[b]@),
        }
    }
}

impl BucketLookup {
    pub open spec fn wf(&self) -> bool {
        self@.wf()
    }

    /// Takes over buckets and hashes as the fixed part.
    pub fn from_fixed(buckets: Vec<Bucket>, hashes: Vec<HashWithData>) -> (r: BucketLookup)
        ensures
            r@.hashes == hashes@,
            r@.buckets == buckets@,
            r@.dynamic == Seq::new(buckets@.len(), |b: int| Map::<u64, u32>::empty()),
    {
        let mut dynamic: Vec<BTreeMap<u64, u32>> = Vec::new();
        let n: usize = buckets.len();
        let mut i: usize = 0;
        while i < n
            invariant
                i <= n,
                dynamic@.len() == i,
                forall|b: int| 0 <= b < i ==> (#[trigger] dynamic@[b])@ == Map::<u64, u32>::empty(),
            decreases n - i,
        {
            dynamic.push(BTreeMap::new());
            i += 1;
        }
        let r = BucketLookup { hashes, buckets, dynamic };
        proof {
            assert(r@.dynamic =~= Seq::new(buckets@.len(), |b: int| Map::<u64, u32>::empty()));
        }
        r
    }

    /// Reads the buckets from word `at` on, and behind them the hashes, as the fixed part.
    pub fn new(words: &[u32], at: usize, hash_count: usize, bucket_count: usize) -> (r: BucketLookup)
        requires
            at + bucket_count * 2 + hash_count * 2 <= words@.len(),
        ensures
            r@.buckets.len() == bucket_count,
            r@.hashes.len() == hash_count,
            flat(r@.buckets) + flat(r@.hashes) == words@.subrange(
                at as int,
                at + bucket_count * 2 + hash_count * 2,
            ),
            r@.dynamic == Seq::new(bucket_count as nat, |b: int| Map::<u64, u32>::empty()),
    {
        let len: usize = words.len();
        let buckets: Vec<Bucket> = read_records(words, at, bucket_count);
        let middle: usize = at + bucket_count * 2;
        let hashes: Vec<HashWithData> = read_records(words, middle, hash_count);
        proof {
            assert(words@.subrange(at as int, middle as int) + words@.subrange(
                middle as int,
                middle + hash_count * 2,
            ) =~= words@.subrange(at as int, at + bucket_count * 2 + hash_count * 2));
        }
        BucketLookup::from_fixed(buckets, hashes)
    }

    /// Do the buckets lie within the hashes, and is each of them sorted?
    pub fn is_sorted(&self) -> (r: bool)
        ensures
            r == (self@.buckets.len() > 0 && forall|b: int|
                0 <= b < self@.buckets.len() ==> (#[trigger] self@.buckets[b]).start
                    + self@.buckets[b].count <= self@.hashes.len() && sorted(self@.slice(b))),
    {
        if self.buckets.len() == 0 {
            return false;
        }
        let mut i: usize = 0;
        while i < self.buckets.len()
            invariant
                i <= self.buckets@.len(),
                forall|b: int|
                    0 <= b < i ==> (#[trigger] self@.buckets[b]).start + self@.buckets[b].count
                        <= self@.hashes.len() && sorted(self@.slice(b)),
            decreases self.buckets@.len() - i,
        {
            let bucket = self.buckets[i];
            proof {
                assert(self@.buckets[i as int] == bucket);
            }
            let end: u64 = bucket.start as u64 + bucket.count as u64;
            if end > self.hashes.len() as u64 {
                return false;
            }
            if !is_sorted_range(&self.hashes, bucket.start as usize, end as usize) {
                return false;
            }
            i += 1;
        }
        true
    }

    /// Number of hashes in the fixed part.
    pub fn fixed_len(&self) -> (r: usize)
        ensures
            r == self@.hashes.len(),
    {
        self.hashes.len()
    }

    /// Length of the fixed part in bytes.
    pub fn fixed_byte_len(&self) -> (r: u64)
        requires
            self@.hashes.len() <= u32::MAX,
            self@.buckets.len() <= u32::MAX,
        ensures
            r == self@.hashes.len() * 8 + self@.buckets.len() * 8,
    {
        self.hashes.len() as u64 * 8 + self.buckets.len() as u64 * 8
    }

    /// Number of entries in the fixed and the dynamic part.
    pub fn len(&self) -> (r: usize)
        requires
            self@.dynamic.len() == self@.buckets.len(),
            self@.hashes.len() + self@.added(self@.buckets.len() as int) <= usize::MAX,
        ensures
            r == self@.hashes.len() + self@.added(self@.buckets.len() as int),
    {
        let mut r: usize = self.hashes.len();
        let n: usize = self.dynamic.len();
        let mut i: usize = 0;
        while i < n
            invariant
                n == self@.dynamic.len() == self@.buckets.len(),
                i <= n,
                r == self@.hashes.len() + self@.added(i as int),
                self@.hashes.len() + self@.added(n as int) <= usize::MAX,
            decreases n - i,
        {
            proof {
                lemma_added_monotone(self@, i + 1, n as int);
                assert(self@.dynamic[i as int] == self.dynamic@[i as int]@);
            }
            r += self.dynamic[i].len();
            i += 1;
        }
        r
    }

    pub fn bucket_count(&self) -> (r: usize)
        requires
            self.wf(),
        ensures
            r == self@.buckets.len(),
    {
        self.dynamic.len()
    }

    /// Number of entries in all buckets.
    pub fn entry_count(&self) -> (r: usize)
        requires
            self.wf(),
        ensures
            r == self@.entries(self@.buckets.len() as int).len(),
    {
        self.entry_pairs().len()
    }

    /// The buckets as they will be once both parts are brought together.
    pub fn buckets(&self) -> (r: Vec<Bucket>)
        requires
            self.wf(),
            self@.entries(self@.buckets.len() as int).len() <= u32::MAX,
        ensures
            r@ == self@.new_buckets(),
    {
        let mut r: Vec<Bucket> = Vec::new();
        let mut start: u32 = 0;
        let n: usize = self.buckets.len();
        let mut i: usize = 0;
        while i < n
            invariant
                self.wf(),
                n == self@.buckets.len() == self.dynamic@.len(),
                self@.entries(n as int).len() <= u32::MAX,
                i <= n,
                start == self@.entries(i as int).len(),
                r@ =~= self@.new_buckets().take(i as int),
            decreases n - i,
        {
            proof {
                lemma_part_entries(self@, i as int);
                lemma_entries_prefix(self@, i + 1, n as int);
                assert(self@.dynamic[i as int] == self.dynamic@[i as int]@);
            }
            let count: u32 = self.buckets[i].count + self.dynamic[i].len() as u32;
            r.push(Bucket { start, count });
            start += count;
            i += 1;
        }
        proof {
            assert(r@ =~= self@.new_buckets());
        }
        r
    }

    pub fn contains_key(&self, hash: Hash40) -> (r: bool)
        requires
            self.wf(),
        ensures
            r == (self@.get(hash.0) is Some),
    {
        self.get(hash).is_some()
    }

    /// The bucket of a key, and the position of the key among the fixed hashes if it is there.
    fn locate(&self, k: u64) -> (r: (usize, Option<usize>))
        requires
            self.wf(),
        ensures
            r.0 == self@.bucket_of(k),
            r.0 < self@.buckets.len(),
            match r.1 {
                Some(p) => self@.part(r.0 as int).has_fixed(k) && p == self@.buckets[r.0 as int].start
                    + position(self@.slice(r.0 as int), k) && p < self@.hashes.len(),
                None => !self@.part(r.0 as int).has_fixed(k),
            },
    {
        let b: usize = (k % self.buckets.len() as u64) as usize;
        proof {
            assert(self@.part(b as int).wf());
            assert(self@.buckets[b as int].start + self@.buckets[b as int].count
                <= self@.hashes.len());
        }
        let bucket = self.buckets[b];
        let len: usize = self.hashes.len();
        let start: usize = bucket.start as usize;
        let end: usize = start + bucket.count as usize;
        (b, search(&self.hashes, start, end, k))
    }

    /// The index that the hash points to.
    pub fn get(&self, hash: Hash40) -> (r: Option<u32>)
        requires
            self.wf(),
        ensures
            r == self@.get(hash.0),
    {
        let (b, at) = self.locate(hash.raw());
        proof {
            assert(self@.buckets[b as int].start + self@.buckets[b as int].count
                <= self@.hashes.len());
            assert(self@.dynamic[b as int] == self.dynamic@[b as int]@);
            lemma_position(self@.slice(b as int), hash.0);
            if at is Some {
                assert(self@.hashes[at->0 as int] == self@.slice(b as int)[at->0
                    - self@.buckets[b as int].start]);
            }
        }
        match at {
            Some(p) => Some(self.hashes[p].data()),
            None => match self.dynamic[b].get(&hash.raw()) {
                Some(index) => Some(*index),
                None => None,
            },
        }
    }

    /// Changes the index of a hash that is there. Returns whether it is.
    pub fn set(&mut self, hash: Hash40, new_index: u32) -> (r: bool)
        requires
            old(self).wf(),
            hash.wf(),
        ensures
            r == (old(self)@.get(hash.0) is Some),
            final(self)@ == if r {
                old(self)@.put(hash.0, new_index)
            } else {
                old(self)@
            },
            final(self).wf(),
    {
        if self.contains_key(hash) {
            let _previous = self.insert(hash, new_index);
            true
        } else {
            false
        }
    }

    /// Points a hash at an index and returns the index that it pointed to before.
    pub fn insert(&mut self, hash: Hash40, index: u32) -> (r: Option<u32>)
        requires
            old(self).wf(),
            hash.wf(),
        ensures
            r == old(self)@.get(hash.0),
            final(self)@ == old(self)@.put(hash.0, index),
            final(self).wf(),
    {
        let (b, at) = self.locate(hash.raw());
        proof {
            law_bucket_put(self@, hash.0, index, hash.0);
            assert(self@.buckets[b as int].start + self@.buckets[b as int].count
                <= self@.hashes.len());
            assert(self@.dynamic[b as int] == self.dynamic@[b as int]@);
            lemma_position(self@.slice(b as int), hash.0);
            if at is Some {
                assert(self@.hashes[at->0 as int] == self@.slice(b as int)[at->0
                    - self@.buckets[b as int].start]);
            }
        }
        match at {
            Some(p) => {
                let previous: u32 = self.hashes[p].data();
                let mut h = self.hashes[p];
                h.set_data(index);
                self.hashes.set(p, h);
                proof {
                    assert(self@.dynamic =~= old(self)@.dynamic);
                }
                Some(previous)
            },
            None => {
                let r = self.dynamic[b].insert(hash.raw(), index);
                proof {
                    assert(self@.dynamic =~= old(self)@.put(hash.0, index).dynamic);
                }
                r
            },
        }
    }

    /// All entries, bucket by bucket, sorted by hash within each bucket.
    pub fn iter(&self) -> (r: Vec<(Hash40, u32)>)
        requires
            self.wf(),
        ensures
            r@ == self@.entries(self@.buckets.len() as int).map_values(
                |e: (u64, u32)| (Hash40(e.0), e.1),
            ),
    {
        to_hashes(&self.entry_pairs())
    }

    fn entry_pairs(&self) -> (r: Vec<(u64, u32)>)
        requires
            self.wf(),
        ensures
            r@ == self@.entries(self@.buckets.len() as int),
    {
        let mut out: Vec<(u64, u32)> = Vec::new();
        let n: usize = self.buckets.len();
        let len: usize = self.hashes.len();
        let mut i: usize = 0;
        while i < n
            invariant
                self.wf(),
                n == self@.buckets.len() == self.dynamic@.len(),
                len == self@.hashes.len(),
                i <= n,
                out@ == self@.entries(i as int),
            decreases n - i,
        {
            let bucket = self.buckets[i];
            proof {
                assert(self@.buckets[i as int].start + self@.buckets[i as int].count
                    <= self@.hashes.len());
                assert(self@.dynamic[i as int] == self.dynamic@[i as int]@);
            }
            let start: usize = bucket.start as usize;
            let a = to_pairs(&self.hashes, start, start + bucket.count as usize);
            let b = list_map(&self.dynamic[i]);
            merge(&a, &b, &mut out);
            i += 1;
        }
        out
    }

    /// Brings both parts together in the fixed part.
    pub fn merge(&mut self)
        requires
            old(self).wf(),
            old(self)@.entries(old(self)@.buckets.len() as int).len() <= u32::MAX,
        ensures
            final(self)@ == old(self)@.merged(),
    {
        let entries = self.entry_pairs();
        let buckets = self.buckets();
        let hashes = to_stored(&entries);
        *self = BucketLookup::from_fixed(buckets, hashes);
    }

    /// Appends the words of the fixed part, behind the number of hashes and of buckets.
    pub fn write_fixed(&self, out: &mut Vec<u32>)
        requires
            self@.hashes.len() <= u32::MAX,
            self@.buckets.len() <= u32::MAX,
        ensures
            final(out)@ == old(out)@ + self@.fixed_words(),
    {
        out.push(self.hashes.len() as u32);
        out.push(self.buckets.len() as u32);
        write_records(&self.buckets, out);
        write_records(&self.hashes, out);
        proof {
            assert(out@ =~= old(out)@ + self@.fixed_words());
        }
    }
}

impl BucketView {
    /// The stored words of the fixed part: how many hashes and buckets there are, the buckets, the
    /// hashes.
    pub open spec fn fixed_words(self) -> Seq<u32> {
        seq![self.hashes.len() as u32, self.buckets.len() as u32] + flat(self.buckets) + flat(
            self.hashes,
        )
    }
}

proof fn lemma_added_monotone(v: BucketView, a: int, b: int)
    requires
        0 <= a <= b,
    ensures
        v.added(a) <= v.added(b),
    decreases b,
{
    if a < b {
        lemma_added_monotone(v, a, b - 1);
    }
}

} // verus!
