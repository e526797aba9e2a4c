//! What a slab of strings tells of the paths that were added to it.

use crate::hash40::{hash40, hash40_str, law_hash40_layout, Hash40};
use crate::hash_interner::{
    bucket_part, extended, extended_by, finalized_from, grown, intern_base, intern_name, intern_names,
    intern_parts, intern_path, interning_ok, is_plain_path, is_tellable, join, law_finalized, law_grown_resolve,
    law_grown_stores, law_intern_names_sound, law_smol_range, law_u24, lemma_add_component,
    lemma_base_sound, lemma_base_stands, lemma_cache_grown, lemma_continued, lemma_entry_range,
    lemma_extended_by_len, lemma_finalized_entry, lemma_finalized_resolve, lemma_grown_entry,
    lemma_index, lemma_joined_extended, lemma_known_grown, lemma_known_hash, lemma_name_added,
    lemma_name_stands, lemma_old_entries, lemma_resolve_push, lemma_rest_tellable, name_added, own_hashes, same_bucket, short_names,
    tellable_names,
    slot_part, stands_for, u24, CacheView, InternPathResult, Interning, SlabView, HASH_BUCKET_SIZE,
    INTERNED_PATH_SLAB_SIZE, IS_INTERNED_COMPONENT,
};
use crate::paths::{is_plain, is_plain_name, joined, law_joined_injective, plain_names};
use crate::strings::lemma_slash_last;
use vstd::prelude::*;
use vstd::utf8::encode_utf8;

verus! {

/// The hash of the path that the first `k` names make.
pub open spec fn prefix_hash(names: Seq<Seq<u8>>, k: int) -> Hash40 {
    hash40(extended_by(Seq::empty(), names, k))
}

/// Names that hashes can tell: they are short, and no two of the paths that they lead over have the same
/// hash.
pub open spec fn tellable(names: Seq<Seq<u8>>) -> bool {
    short_names(names) && own_hashes(Seq::empty(), names, names.len() as int)
}

/// There is a string for each of the first `k` names, and it hashes like the name.
pub open spec fn spells(parts: Seq<Seq<u8>>, names: Seq<Seq<u8>>, k: int) -> bool {
    &&& parts.len() == k
    &&& forall|i: int| 0 <= i < k ==> hash40(#[trigger] parts[i]) == hash40(names[i])
}

impl SlabView {
    /// The strings that the entry with this index comes down to.
    pub open spec fn parts(self, idx: int) -> Seq<Seq<u8>> {
        self.resolve_range(self.entry(idx).range)
    }

    /// Every beginning of these strings has an entry.
    pub open spec fn has_trail(self, parts: Seq<Seq<u8>>) -> bool {
        forall|k: int| 0 < k <= parts.len() ==> self.stores(hash40(join(#[trigger] parts.take(k))))
    }

    /// With every path, the paths in front of it have an entry.
    #[verifier::opaque]
    pub open spec fn rooted(self) -> bool {
        forall|idx: int| #[trigger] self.has_entry(idx) ==> self.has_trail(self.parts(idx))
    }

    /// No other path has the hash of this one, or of a path in front of it.
    #[verifier::opaque]
    pub open spec fn unclashed(self, names: Seq<Seq<u8>>) -> bool {
        forall|idx: int, k: int|
            #[trigger] self.has_entry(idx) && 0 < k <= names.len() && self.entry_hash(idx)
                == #[trigger] prefix_hash(names, k) ==> spells(self.parts(idx), names, k)
    }

    /// The path has an entry, and so have the paths in front of it.
    pub open spec fn holds(self, names: Seq<Seq<u8>>) -> bool {
        forall|k: int| 0 < k <= names.len() ==> self.stores(#[trigger] prefix_hash(names, k))
    }

    /// The path and the paths in front of it can be told from their hashes.
    pub open spec fn tells(self, names: Seq<Seq<u8>>) -> bool {
        self.holds(names) && self.unclashed(names)
    }
}

proof fn lemma_trail_grown(v: SlabView, w: SlabView, parts: Seq<Seq<u8>>)
    requires
        v.within_capacity(),
        grown(v, w),
        v.has_trail(parts),
    ensures
        w.has_trail(parts),
{
    assert forall|k: int| 0 < k <= parts.len() implies w.stores(
        hash40(join(#[trigger] parts.take(k))),
    ) by {
        law_grown_stores(v, w, hash40(join(parts.take(k))));
    }
}

proof fn lemma_parts_grown(v: SlabView, w: SlabView, idx: int)
    requires
        v.wf(),
        grown(v, w),
        v.has_entry(idx),
    ensures
        w.has_entry(idx),
        w.entry_hash(idx) == v.entry_hash(idx),
        w.parts(idx) == v.parts(idx),
{
    lemma_grown_entry(v, w, idx);
    lemma_entry_range(v, idx);
    let r = v.entry(idx).range;
    law_grown_resolve(v, w, r.spec_start() as nat, r.end() as nat);
}

/// What a path continued by a name comes down to.
proof fn lemma_name_parts(s: Interning, t: Interning, start: u32, name: Seq<u8>, x: u32)
    requires
        interning_ok(s, start),
        name_added(s, t, start, name, x),
    ensures
        t.slab.resolve(start as nat, t.slab.components.len()) == s.slab.resolve(
            start as nat,
            s.slab.components.len(),
        ).push(t.slab.string(x as int)),
        hash40(t.slab.string(x as int)) == hash40(name),
        t.slab.has_entry(s.slab.next_index(t.hash)),
        t.slab.entry_hash(s.slab.next_index(t.hash)) == t.hash,
        t.slab.parts(s.slab.next_index(t.hash)) == t.slab.resolve(
            start as nat,
            t.slab.components.len(),
        ),
        grown(s.slab, t.slab),
        t.slab.wf(),
{
    reveal(name_added);
    let n = s.slab.components.len();
    law_u24(x, u24::of(x));
    law_smol_range((s.len + 1) as u8, start);
    law_grown_resolve(s.slab, t.slab, start as nat, n);
    lemma_resolve_push(t.slab, start as nat, n, s.slab.resolve(start as nat, n));
}

proof fn lemma_name_rooted(s: Interning, t: Interning, start: u32, name: Seq<u8>, x: u32)
    requires
        interning_ok(s, start),
        name_added(s, t, start, name, x),
        s.slab.rooted(),
        s.slab.has_trail(s.slab.resolve(start as nat, s.slab.components.len())),
        t.hash == hash40(join(t.slab.resolve(start as nat, t.slab.components.len()))),
    ensures
        t.slab.rooted(),
        t.slab.has_trail(t.slab.resolve(start as nat, t.slab.components.len())),
{
    reveal(SlabView::rooted);
    lemma_name_parts(s, t, start, name, x);
    let w = t.slab;
    let before = s.slab.resolve(start as nat, s.slab.components.len());
    let after = w.resolve(start as nat, w.components.len());
    let new_idx = s.slab.next_index(t.hash);
    lemma_trail_grown(s.slab, w, before);
    assert forall|k: int| 0 < k <= after.len() implies w.stores(
        hash40(join(#[trigger] after.take(k))),
    ) by {
        if k <= before.len() {
            assert(after.take(k) =~= before.take(k));
        } else {
            assert(after.take(k) =~= after);
            assert(w.has_entry(new_idx) && w.entry_hash(new_idx) == t.hash);
        }
    }
    assert forall|idx: int| #[trigger] w.has_entry(idx) implies w.has_trail(w.parts(idx)) by {
        if idx != new_idx {
            lemma_old_entries(s, t, start, name, x, idx);
            lemma_parts_grown(s.slab, w, idx);
            lemma_trail_grown(s.slab, w, s.slab.parts(idx));
        }
    }
}

/// The hashes of two beginnings of a path differ.
proof fn lemma_prefix_hashes(names: Seq<Seq<u8>>, j: int, k: int)
    requires
        tellable(names),
        0 <= j < k <= names.len(),
    ensures
        prefix_hash(names, j) != prefix_hash(names, k),
{
    let a = extended_by(Seq::empty(), names, j);
    let b = extended_by(Seq::empty(), names, k);
    assert(hash40(a) != hash40(b));
}

proof fn lemma_name_unclashed(
    s: Interning,
    t: Interning,
    start: u32,
    name: Seq<u8>,
    x: u32,
    names: Seq<Seq<u8>>,
    k: int,
)
    requires
        interning_ok(s, start),
        name_added(s, t, start, name, x),
        tellable(names),
        0 <= k < names.len(),
        name == names[k],
        t.hash == prefix_hash(names, k + 1),
        s.slab.unclashed(names),
        spells(s.slab.resolve(start as nat, s.slab.components.len()), names, k),
    ensures
        t.slab.unclashed(names),
        spells(t.slab.resolve(start as nat, t.slab.components.len()), names, k + 1),
{
    reveal(SlabView::unclashed);
    lemma_name_parts(s, t, start, name, x);
    let w = t.slab;
    let new_idx = s.slab.next_index(t.hash);
    assert forall|idx: int, j: int|
        #[trigger] w.has_entry(idx) && 0 < j <= names.len() && w.entry_hash(idx) == #[trigger] prefix_hash(
            names,
            j,
        ) implies spells(w.parts(idx), names, j) by {
        if idx == new_idx {
            if j < k + 1 {
                lemma_prefix_hashes(names, j, k + 1);
            } else if j > k + 1 {
                lemma_prefix_hashes(names, k + 1, j);
            }
        } else {
            lemma_old_entries(s, t, start, name, x, idx);
            lemma_parts_grown(s.slab, w, idx);
        }
    }
}

proof fn lemma_extended_skip(names: Seq<Seq<u8>>, m: int, i: int)
    requires
        0 <= m <= m + i <= names.len(),
    ensures
        extended_by(extended_by(Seq::empty(), names, m), names.skip(m), i) == extended_by(
            Seq::empty(),
            names,
            m + i,
        ),
    decreases i,
{
    if i > 0 {
        lemma_extended_skip(names, m, i - 1);
        assert(names.skip(m)[i - 1] == names[m + i - 1]);
    }
}

/// The paths in front of every path have entries, and so have those in front of the path that is added.
#[verifier::opaque]
spec fn trailing(s: Interning, start: u32) -> bool {
    s.slab.rooted() && s.slab.has_trail(s.slab.resolve(start as nat, s.slab.components.len()))
}

/// The path that is added has come to the first `k` names, and no other path has one of its hashes.
#[verifier::opaque]
spec fn spelling(s: Interning, start: u32, names: Seq<Seq<u8>>, k: int) -> bool {
    s.slab.unclashed(names) && spells(
        s.slab.resolve(start as nat, s.slab.components.len()),
        names,
        k,
    )
}

proof fn lemma_name_told(s: Interning, t: Interning, start: u32, names: Seq<Seq<u8>>, k: int)
    requires
        interning_ok(s, start),
        start <= INTERNED_PATH_SLAB_SIZE,
        s.slab.sound(s.cache),
        0 <= k < names.len(),
        intern_name(s, start, names[k]) == Some(t),
        stands_for(s, start, extended_by(Seq::empty(), names, k)),
        tellable(names),
        trailing(s, start),
    ensures
        trailing(t, start),
        spelling(s, start, names, k) ==> spelling(t, start, names, k + 1),
{
    let name = names[k];
    let p = extended_by(Seq::empty(), names, k);
    assert(extended(p, name) == extended_by(Seq::empty(), names, k + 1));
    let x = lemma_name_added(s, start, name);
    lemma_name_stands(s, t, start, name, x, p);
    reveal(trailing);
    reveal(spelling);
    lemma_name_rooted(s, t, start, name, x);
    if spelling(s, start, names, k) {
        lemma_name_unclashed(s, t, start, name, x, names, k);
    }
}

/// Continuing a path by names that lead to no path that was known.
#[verifier::spinoff_prover]
proof fn lemma_names_told(s: Interning, start: u32, names: Seq<Seq<u8>>, m: int, n: int)
    requires
        0 <= m <= m + n <= names.len(),
        interning_ok(s, start),
        start <= INTERNED_PATH_SLAB_SIZE,
        s.slab.sound(s.cache),
        stands_for(s, start, extended_by(Seq::empty(), names, m)),
        tellable(names),
        forall|k: int|
            m < k <= names.len() ==> s.slab.known(s.cache, #[trigger] prefix_hash(names, k)) is None,
        trailing(s, start),
    ensures
        intern_names(s, start, names.skip(m), n) matches Some(t) ==> trailing(t, start) && (spelling(
            s,
            start,
            names,
            m,
        ) ==> spelling(t, start, names, m + n)),
    decreases n,
{
    let rest = names.skip(m);
    if n > 0 && intern_names(s, start, rest, n) is Some {
        let path = extended_by(Seq::empty(), names, m);
        let u = intern_names(s, start, rest, n - 1)->0;
        let t = intern_names(s, start, rest, n)->0;
        assert(rest[n - 1] == names[m + n - 1]);
        lemma_names_told(s, start, names, m, n - 1);
        assert(interning_ok(u, start) && u.slab.sound(u.cache) && stands_for(
            u,
            start,
            extended_by(Seq::empty(), names, m + n - 1),
        )) by {
            lemma_rest(s, names, m, n - 1);
            law_intern_names_sound(s, start, path, rest, n - 1, s.hash);
        }
        lemma_name_told(u, t, start, names, m + n - 1);
    }
}

/// The names behind the first `m` of a path.
proof fn lemma_rest(s: Interning, names: Seq<Seq<u8>>, m: int, n: int)
    requires
        0 <= m <= m + n <= names.len(),
        tellable(names),
        forall|k: int|
            m < k <= names.len() ==> s.slab.known(s.cache, #[trigger] prefix_hash(names, k)) is None,
    ensures
        short_names(names.skip(m)),
        own_hashes(extended_by(Seq::empty(), names, m), names.skip(m), n),
        extended_by(extended_by(Seq::empty(), names, m), names.skip(m), n) == extended_by(
            Seq::empty(),
            names,
            m + n,
        ),
        forall|i: int|
            0 < i <= n ==> s.slab.known(
                s.cache,
                hash40(#[trigger] extended_by(extended_by(Seq::empty(), names, m), names.skip(m), i)),
            ) is None,
{
    let rest = names.skip(m);
    let path = extended_by(Seq::empty(), names, m);
    lemma_extended_skip(names, m, n);
    assert forall|i: int| 0 <= i < rest.len() implies 0 < (#[trigger] rest[i]).len() < 0x100 by {
        assert(rest[i] == names[m + i]);
    }
    assert forall|j: int, k: int| 0 <= j < k <= n implies hash40(#[trigger] extended_by(path, rest, j))
        != hash40(#[trigger] extended_by(path, rest, k)) by {
        lemma_extended_skip(names, m, j);
        lemma_extended_skip(names, m, k);
        lemma_prefix_hashes(names, m + j, m + k);
    }
    assert forall|k: int| 0 < k <= n implies hash40(#[trigger] extended_by(path, rest, k)) != hash40(
        Seq::<u8>::empty(),
    ) by {
        lemma_extended_skip(names, m, k);
        lemma_prefix_hashes(names, 0, m + k);
    }
    assert forall|i: int| 0 < i <= n implies s.slab.known(
        s.cache,
        hash40(#[trigger] extended_by(path, rest, i)),
    ) is None by {
        lemma_extended_skip(names, m, i);
        assert(s.slab.known(s.cache, prefix_hash(names, m + i)) is None);
    }
}

/// A slab that has grown, but by no entry.
proof fn lemma_same_entries(v: SlabView, w: SlabView, names: Seq<Seq<u8>>)
    requires
        v.wf(),
        grown(v, w),
        w.buckets == v.buckets,
        v.rooted(),
    ensures
        w.rooted(),
        v.unclashed(names) ==> w.unclashed(names),
{
    reveal(SlabView::rooted);
    reveal(SlabView::unclashed);
    assert forall|i: int| #[trigger] w.has_entry(i) implies w.has_trail(w.parts(i)) by {
        assert(v.has_entry(i));
        lemma_parts_grown(v, w, i);
        lemma_trail_grown(v, w, v.parts(i));
    }
    if v.unclashed(names) {
        assert forall|i: int, k: int|
            #[trigger] w.has_entry(i) && 0 < k <= names.len() && w.entry_hash(i)
                == #[trigger] prefix_hash(names, k) implies spells(w.parts(i), names, k) by {
            assert(v.has_entry(i));
            lemma_parts_grown(v, w, i);
        }
    }
}

/// A component that stands for the base of the path that is added.
proof fn lemma_base_told(v: SlabView, s: Interning, names: Seq<Seq<u8>>, m: int, idx: int)
    requires
        v.wf(),
        v.rooted(),
        v.has_entry(idx),
        0 < m <= names.len(),
        v.entry_hash(idx) == prefix_hash(names, m),
        grown(v, s.slab),
        s.slab.buckets == v.buckets,
        v.components.len() <= INTERNED_PATH_SLAB_SIZE,
        s.slab.resolve(v.components.len(), s.slab.components.len()) == v.parts(idx),
    ensures
        trailing(s, v.components.len() as u32),
        v.unclashed(names) ==> spelling(s, v.components.len() as u32, names, m),
{
    reveal(SlabView::rooted);
    reveal(SlabView::unclashed);
    let w = s.slab;
    lemma_same_entries(v, w, names);
    assert(w.has_trail(v.parts(idx))) by {
        lemma_trail_grown(v, w, v.parts(idx));
    }
    assert(trailing(s, v.components.len() as u32)) by {
        reveal(trailing);
    }
    if v.unclashed(names) {
        assert(spells(v.parts(idx), names, m));
        reveal(spelling);
    }
}

/// Adding a path that was not known, whose longest known ancestor has the first `m` of its names.
pub(crate) proof fn lemma_parts_told(
    v: SlabView,
    c: CacheView,
    names: Seq<Seq<u8>>,
    m: int,
    base: Option<int>,
)
    requires
        v.wf(),
        v.cache_ok(c),
        v.sound(c),
        v.rooted(),
        0 <= m <= names.len(),
        tellable(names),
        match base {
            Some(idx) => v.has_entry(idx) && v.entry_hash(idx) == prefix_hash(names, m) && m > 0,
            None => m == 0,
        },
        forall|k: int| m < k <= names.len() ==> v.known(c, #[trigger] prefix_hash(names, k)) is None,
    ensures
        intern_parts(v, c, prefix_hash(names, m), base, names.skip(m)) matches Some(t)
            ==> adds_only(v, t.slab, names) && t.slab.rooted() && (v.unclashed(names)
            ==> t.slab.unclashed(names)),
{
    let path = extended_by(Seq::empty(), names, m);
    if let Some(s) = intern_base(v, c, hash40(path), base) {
        let start = v.components.len() as u32;
        law_hash40_layout(path);
        if m > 0 {
            lemma_extended_by_len(Seq::empty(), names, 0, m);
            lemma_prefix_hashes(names, 0, m);
        }
        if let Some(idx) = base {
            let x = (IS_INTERNED_COMPONENT + idx) as u32;
            lemma_add_component(v, x);
            lemma_cache_grown(v, s.slab, c);
            lemma_base_sound(v, c, idx);
            lemma_base_stands(v, idx, path);
            lemma_base_told(v, s, names, m, idx);
        } else {
            let parts = v.resolve(start as nat, v.components.len());
            assert(parts =~= Seq::empty());
            assert(trailing(s, start)) by {
                reveal(trailing);
            }
            assert(v.unclashed(names) ==> spelling(s, start, names, 0)) by {
                reveal(spelling);
            }
        }
        assert forall|k: int| m < k <= names.len() implies s.slab.known(
            s.cache,
            #[trigger] prefix_hash(names, k),
        ) is None by {
            if base is Some {
                lemma_known_grown(v, c, s.slab, c, prefix_hash(names, k));
            }
        }
        lemma_adds_nothing(v, s.slab, names);
        lemma_names_add(v, s, start, names, m, names.len() - m);
        lemma_names_told(s, start, names, m, names.len() - m);
        reveal(trailing);
        reveal(spelling);
    }
}

/// Strings of the slab are short.
proof fn lemma_parts_short(v: SlabView, start: nat, end: nat)
    requires
        v.wf(),
        end <= v.components.len(),
    ensures
        forall|i: int| 0 <= i < v.resolve(start, end).len() ==> (#[trigger] v.resolve(start, end)[i]).len() < 0x100,
    decreases end,
{
    if start < end {
        let c = (end - 1) as nat;
        lemma_parts_short(v, start, c);
        assert(v.component_ok(c as int));
        let x = v.components[c as int].val();
        if x < IS_INTERNED_COMPONENT {
            assert(v.strings[x as int].end() <= v.bytes.len());
            assert(v.string(x as int).len() < 0x100);
            assert(v.resolve(start, end) == v.resolve(start, c).push(v.string(x as int)));
        } else {
            let r = v.entry(x - IS_INTERNED_COMPONENT).range;
            lemma_parts_short(v, r.spec_start() as nat, r.end() as nat);
            let behind = v.resolve(r.spec_start() as nat, r.end() as nat);
            assert(v.resolve(start, end) == v.resolve(start, c) + behind);
        }
    }
}

/// Strings that hash like the first names of a path one by one hash like it when they are joined.
proof fn lemma_spells_hash(parts: Seq<Seq<u8>>, names: Seq<Seq<u8>>, k: int)
    requires
        0 <= k <= names.len(),
        tellable(names),
        spells(parts, names, k),
        forall|i: int| 0 <= i < parts.len() ==> (#[trigger] parts[i]).len() < 0x100,
    ensures
        hash40(join(parts)) == prefix_hash(names, k),
    decreases k,
{
    if k > 0 {
        let front = parts.drop_last();
        let p = extended_by(Seq::empty(), names, k - 1);
        lemma_spells_hash(front, names, k - 1);
        if k > 1 {
            lemma_extended_by_len(Seq::empty(), names, 0, k - 1);
            lemma_prefix_hashes(names, 0, k - 1);
        }
        assert(names[k - 1].len() < 0x100);
        lemma_continued(p, front, parts.last(), names[k - 1]);
        assert(front.push(parts.last()) =~= parts);
    } else {
        assert(join(parts) =~= Seq::empty());
    }
}

/// Where every path has the paths in front of it, and no other path has one of the hashes of a path, a
/// path that has an entry can be told, and so can the paths in front of it.
pub proof fn law_rooted_tells(v: SlabView, names: Seq<Seq<u8>>)
    requires
        v.wf(),
        v.rooted(),
        v.unclashed(names),
        tellable(names),
        names.len() > 0,
        v.stores(prefix_hash(names, names.len() as int)),
    ensures
        v.tells(names),
{
    reveal(SlabView::rooted);
    reveal(SlabView::unclashed);
    let n = names.len() as int;
    let idx = choose|idx: int| #[trigger] v.has_entry(idx) && v.entry_hash(idx) == prefix_hash(names, n);
    let parts = v.parts(idx);
    assert(spells(parts, names, n));
    lemma_entry_range(v, idx);
    lemma_parts_short(v, v.entry(idx).range.spec_start() as nat, v.entry(idx).range.end() as nat);
    assert forall|k: int| 0 < k <= n implies v.stores(#[trigger] prefix_hash(names, k)) by {
        let front = parts.take(k);
        assert forall|i: int| 0 <= i < front.len() implies (#[trigger] front[i]).len() < 0x100 && hash40(
            front[i],
        ) == hash40(names[i]) by {
            assert(front[i] == parts[i]);
        }
        lemma_spells_hash(front, names, k);
        assert(v.has_trail(parts));
    }
}

/// What a slab tells of a path it goes on telling when other paths are added.
pub proof fn law_tells_grown(v: SlabView, w: SlabView, names: Seq<Seq<u8>>)
    requires
        v.wf(),
        w.wf(),
        grown(v, w),
        w.distinct(),
        v.tells(names),
    ensures
        w.tells(names),
{
    reveal(SlabView::unclashed);
    assert forall|k: int| 0 < k <= names.len() implies w.stores(#[trigger] prefix_hash(names, k)) by {
        law_grown_stores(v, w, prefix_hash(names, k));
    }
    assert forall|idx: int, k: int|
        #[trigger] w.has_entry(idx) && 0 < k <= names.len() && w.entry_hash(idx) == #[trigger] prefix_hash(
            names,
            k,
        ) implies spells(w.parts(idx), names, k) by {
        let hash = prefix_hash(names, k);
        assert(v.stores(hash));
        let i = choose|i: int| #[trigger] v.has_entry(i) && v.entry_hash(i) == hash;
        lemma_parts_grown(v, w, i);
        lemma_same_entry(w, i, idx);
    }
}

/// Entries of the same hash are the same.
proof fn lemma_same_entry(v: SlabView, i: int, j: int)
    requires
        v.wf(),
        v.distinct(),
        v.has_entry(i),
        v.has_entry(j),
        v.entry_hash(i) == v.entry_hash(j),
    ensures
        i == j,
{
    let b = bucket_part(i);
    let e = v.entry(i);
    let f = v.entry(j);
    assert((e.shifted_hash * 0x100 + b) as u64 == (f.shifted_hash * 0x100 + bucket_part(j)) as u64);
    assert(b == bucket_part(j) && e.shifted_hash == f.shifted_hash);
    let (x, y) = (slot_part(i), slot_part(j));
    if x < y {
        assert(v.buckets[b][x].shifted_hash != v.buckets[b][y].shifted_hash);
    } else if y < x {
        assert(v.buckets[b][y].shifted_hash != v.buckets[b][x].shifted_hash);
    }
}

/// In the finalized slab, the hash that the first names of a path make stands for as many strings, and
/// each of them hashes like its name.
pub proof fn law_names_read_back(v: SlabView, w: SlabView, names: Seq<Seq<u8>>, k: int)
    requires
        v.wf(),
        finalized_from(v, w),
        v.tells(names),
        0 < k <= names.len(),
    ensures
        w.components_of(prefix_hash(names, k)) matches Some(parts) && spells(parts, names, k),
{
    reveal(SlabView::unclashed);
    let hash = prefix_hash(names, k);
    assert(v.stores(hash));
    let idx = choose|idx: int| #[trigger] v.has_entry(idx) && v.entry_hash(idx) == hash;
    law_finalized(v, w, idx);
}

/// The names of a plain path, as bytes.
pub open spec fn path_names(path: Seq<char>) -> Seq<Seq<u8>> {
    plain_names(path).map_values(|n: Seq<char>| encode_utf8(n))
}

/// Plain names are the names of the path that they make.
pub proof fn law_path_names(names: Seq<Seq<char>>)
    requires
        is_plain(names),
    ensures
        plain_names(joined(names)) == names,
        path_names(joined(names)) == names.map_values(|n: Seq<char>| encode_utf8(n)),
{
    law_joined_injective(plain_names(joined(names)), names);
}

/// The hash that the first `k` names of a plain path make is the hash of the path that they make.
pub proof fn law_prefix_hash(names: Seq<Seq<char>>, k: int)
    requires
        is_plain(names),
        0 <= k <= names.len(),
    ensures
        prefix_hash(names.map_values(|n: Seq<char>| encode_utf8(n)), k) == hash40_str(
            joined(names.take(k)),
        ),
{
    lemma_joined_extended(names, 0, k);
    assert(names.skip(0) =~= names);
    assert(encode_utf8(joined(names.take(0))) =~= Seq::<u8>::empty()) by {
        assert(joined(names.take(0)) =~= Seq::empty());
    }
}

/// The names of a path that hashes can tell, as bytes.
proof fn lemma_tellable(names: Seq<Seq<char>>)
    requires
        tellable_names(names),
    ensures
        tellable(names.map_values(|n: Seq<char>| encode_utf8(n))),
{
    lemma_rest_tellable(names, 0);
    assert(names.skip(0) =~= names);
    assert(encode_utf8(joined(names.take(0))) =~= Seq::<u8>::empty()) by {
        assert(joined(names.take(0)) =~= Seq::empty());
    }
}

/// A plain path of less than 256 bytes can be told by hashes.
pub proof fn law_short_path_tellable(path: Seq<char>)
    requires
        is_plain_path(path),
        encode_utf8(path).len() < 0x100,
    ensures
        is_tellable(path),
{
    let names = plain_names(path);
    assert(is_plain(names) && joined(names) == path);
    let n = names.len() as int;
    let bytes = names.map_values(|m: Seq<char>| encode_utf8(m));
    assert(names.skip(0) =~= names);
    assert(names.take(n) =~= names);
    assert(encode_utf8(joined(names.take(0))) =~= Seq::<u8>::empty()) by {
        assert(joined(names.take(0)) =~= Seq::empty());
    }
    assert forall|i: int| 0 <= i < n implies (#[trigger] bytes[i]).len() > 0 by {
        assert(is_plain_name(names[i]));
        lemma_slash_last(names[i]);
    }
    assert forall|k: int| 0 <= k <= n implies encode_utf8(joined(#[trigger] names.take(k)))
        == extended_by(Seq::empty(), bytes, k) && extended_by(Seq::empty(), bytes, k).len() < 0x100 by {
        lemma_joined_extended(names, 0, k);
        lemma_joined_extended(names, 0, n);
        if k < n {
            lemma_extended_by_len(Seq::empty(), bytes, k, n);
        }
    }
    assert forall|i: int| 0 <= i < n implies encode_utf8(#[trigger] names[i]).len() < 0x100 by {
        let next = names.take(i + 1);
        assert(encode_utf8(joined(next)) == extended_by(Seq::empty(), bytes, i + 1));
        assert(bytes[i] == encode_utf8(names[i]));
    }
    assert forall|j: int, k: int| 0 <= j < k <= n implies hash40_str(joined(#[trigger] names.take(j)))
        != hash40_str(joined(#[trigger] names.take(k))) by {
        lemma_extended_by_len(Seq::empty(), bytes, j, k);
        law_hash40_layout(extended_by(Seq::empty(), bytes, j));
        law_hash40_layout(extended_by(Seq::empty(), bytes, k));
    }
}

/// Adding a plain path that was not known, whose longest known ancestor has the first `m` of its names.
pub(crate) proof fn lemma_plain_told(
    v: SlabView,
    c: CacheView,
    names: Seq<Seq<char>>,
    m: int,
    base: Option<int>,
)
    requires
        v.wf(),
        v.cache_ok(c),
        v.sound(c),
        v.rooted(),
        tellable_names(names),
        0 <= m <= names.len(),
        match base {
            Some(idx) => v.known(c, hash40_str(joined(names.take(m)))) == Some(idx),
            None => m == 0,
        },
        forall|j: int|
            m < j <= names.len() ==> v.known(c, hash40_str(joined(#[trigger] names.take(j)))) is None,
    ensures
        intern_parts(
            v,
            c,
            hash40_str(joined(names.take(m))),
            base,
            names.skip(m).map_values(|n: Seq<char>| encode_utf8(n)),
        ) matches Some(t) ==> adds_only(
            v,
            t.slab,
            names.map_values(|n: Seq<char>| encode_utf8(n)),
        ) && t.slab.rooted() && (v.unclashed(
            names.map_values(|n: Seq<char>| encode_utf8(n)),
        ) ==> t.slab.unclashed(names.map_values(|n: Seq<char>| encode_utf8(n)))),
{
    let bytes = names.map_values(|n: Seq<char>| encode_utf8(n));
    lemma_tellable(names);
    law_prefix_hash(names, m);
    assert(bytes.skip(m) =~= names.skip(m).map_values(|n: Seq<char>| encode_utf8(n)));
    assert forall|k: int| m < k <= bytes.len() implies v.known(
        c,
        #[trigger] prefix_hash(bytes, k),
    ) is None by {
        law_prefix_hash(names, k);
        assert(v.known(c, hash40_str(joined(names.take(k)))) is None);
    }
    if let Some(idx) = base {
        let path = encode_utf8(joined(names.take(m)));
        law_hash40_layout(path);
        lemma_known_hash(v, c, hash40(path));
        assert(v.entry_hash(idx) != hash40(Seq::<u8>::empty()));
        if m == 0 {
            assert(joined(names.take(0)) =~= Seq::empty());
            assert(path =~= Seq::<u8>::empty());
        }
    }
    lemma_parts_told(v, c, bytes, m, base);
}

/// A plain path that has an entry can be told, and so can the paths in front of it.
pub(crate) proof fn lemma_plain_tells(v: SlabView, path: Seq<char>)
    requires
        v.wf(),
        v.rooted(),
        is_tellable(path),
        path.len() > 0,
        v.unclashed(path_names(path)),
        v.stores(hash40_str(path)),
    ensures
        v.tells(path_names(path)),
{
    let names = plain_names(path);
    assert(is_plain(names) && joined(names) == path);
    lemma_tellable(names);
    law_prefix_hash(names, names.len() as int);
    assert(names.take(names.len() as int) =~= names);
    law_rooted_tells(v, path_names(path));
}

/// Adding a path again, or a path in front of it, changes nothing. It comes to the components that the
/// path has, and to no new path.
pub proof fn law_intern_again(v: SlabView, c: CacheView, path: Seq<char>, k: int)
    requires
        v.wf(),
        v.cache_ok(c),
        v.cache_complete(c),
        is_plain_path(path),
        v.holds(path_names(path)),
        0 < k <= plain_names(path).len(),
    ensures
        ({
            let again = joined(plain_names(path).take(k));
            let idx = v.known(c, hash40_str(again))->0;
            &&& v.has_entry(idx) && v.entry_hash(idx) == hash40_str(again)
            &&& intern_path(v, c, again) == Some(
                (v, c, (InternPathResult { range: v.entry(idx).range, is_new: false })),
            )
        }),
{
    let names = plain_names(path);
    assert(is_plain(names) && joined(names) == path);
    law_prefix_hash(names, k);
    let hash = prefix_hash(path_names(path), k);
    assert(v.stores(hash));
    let idx = choose|idx: int| #[trigger] v.has_entry(idx) && v.entry_hash(idx) == hash;
    assert(v.known(c, v.entry_hash(idx)) is Some);
    law_hash40_layout(encode_utf8(joined(names.take(k))));
    lemma_known_hash(v, c, hash);
}

/// In the finalized slab, the hash of a path that the slab tells, or of a path in front of it, stands for
/// as many strings as the path has names, and each of them hashes like its name.
pub proof fn law_path_read_back(v: SlabView, w: SlabView, path: Seq<char>, k: int)
    requires
        v.wf(),
        finalized_from(v, w),
        is_plain_path(path),
        v.tells(path_names(path)),
        0 < k <= plain_names(path).len(),
    ensures
        w.components_of(hash40_str(joined(plain_names(path).take(k)))) matches Some(parts) && spells(
            parts,
            path_names(path),
            k,
        ),
{
    let names = plain_names(path);
    assert(is_plain(names) && joined(names) == path);
    law_prefix_hash(names, k);
    law_names_read_back(v, w, path_names(path), k);
}

/// An empty slab has no path that could be taken for another.
pub proof fn law_empty_told(names: Seq<Seq<u8>>)
    ensures
        SlabView::empty().rooted(),
        SlabView::empty().unclashed(names),
{
    reveal(SlabView::rooted);
    reveal(SlabView::unclashed);
    let v = SlabView::empty();
    assert forall|idx: int| !(#[trigger] v.has_entry(idx)) by {}
}

/// An entry of the finalized slab is one of the slab that was finalized.
proof fn lemma_finalized_parts(v: SlabView, w: SlabView, j: int) -> (idx: int)
    requires
        v.wf(),
        finalized_from(v, w),
        w.has_entry(j),
    ensures
        v.has_entry(idx),
        v.entry_hash(idx) == w.entry_hash(j),
        v.parts(idx) == w.parts(j),
{
    let b = bucket_part(j);
    assert(same_bucket(v.buckets[b], w.buckets[b]));
    let e = w.entry(j);
    assert(w.buckets[b].contains(w.buckets[b][slot_part(j)]));
    assert(v.buckets[b].contains(e));
    let i = choose|i: int| 0 <= i < v.buckets[b].len() && v.buckets[b][i] == e;
    assert(v.buckets[b].len() <= HASH_BUCKET_SIZE);
    lemma_index(b, i);
    let idx = b * HASH_BUCKET_SIZE + i;
    assert(v.has_entry(idx));
    lemma_entry_range(v, idx);
    let r = v.entry(idx).range;
    lemma_finalized_resolve(v, w, r.spec_start() as nat, r.end() as nat);
    idx
}

proof fn lemma_finalized_stores(v: SlabView, w: SlabView, hash: Hash40)
    requires
        v.wf(),
        finalized_from(v, w),
        v.stores(hash),
    ensures
        w.stores(hash),
{
    let idx = choose|idx: int| #[trigger] v.has_entry(idx) && v.entry_hash(idx) == hash;
    lemma_finalized_entry(v, w, idx);
}

/// Finalizing a slab changes nothing of what it tells, so that further paths can be added to it.
pub proof fn law_finalized_told(v: SlabView, w: SlabView, names: Seq<Seq<u8>>)
    requires
        v.wf(),
        finalized_from(v, w),
    ensures
        v.rooted() ==> w.rooted(),
        v.unclashed(names) ==> w.unclashed(names),
        v.tells(names) ==> w.tells(names),
{
    reveal(SlabView::rooted);
    reveal(SlabView::unclashed);
    if v.rooted() {
        assert forall|j: int| #[trigger] w.has_entry(j) implies w.has_trail(w.parts(j)) by {
            let idx = lemma_finalized_parts(v, w, j);
            let parts = w.parts(j);
            assert(v.has_trail(v.parts(idx)));
            assert forall|k: int| 0 < k <= parts.len() implies w.stores(
                hash40(join(#[trigger] parts.take(k))),
            ) by {
                lemma_finalized_stores(v, w, hash40(join(parts.take(k))));
            }
        }
    }
    if v.unclashed(names) {
        assert forall|j: int, k: int|
            #[trigger] w.has_entry(j) && 0 < k <= names.len() && w.entry_hash(j)
                == #[trigger] prefix_hash(names, k) implies spells(w.parts(j), names, k) by {
            let idx = lemma_finalized_parts(v, w, j);
            assert(v.has_entry(idx));
        }
    }
    if v.tells(names) {
        assert forall|k: int| 0 < k <= names.len() implies w.stores(#[trigger] prefix_hash(names, k)) by {
            lemma_finalized_stores(v, w, prefix_hash(names, k));
        }
    }
}

/// The entries of `w` that `v` does not have are of the path or of a path in front of it.
#[verifier::opaque]
pub open spec fn adds_only(v: SlabView, w: SlabView, names: Seq<Seq<u8>>) -> bool {
    forall|idx: int| #[trigger]
        w.has_entry(idx) ==> v.has_entry(idx) || exists|k: int|
            0 < k <= names.len() && w.entry_hash(idx) == #[trigger] prefix_hash(names, k)
}

pub(crate) proof fn lemma_adds_nothing(v: SlabView, w: SlabView, names: Seq<Seq<u8>>)
    requires
        w.buckets == v.buckets,
    ensures
        adds_only(v, w, names),
{
    reveal(adds_only);
    assert forall|idx: int| #[trigger] w.has_entry(idx) implies v.has_entry(idx) by {}
}

proof fn lemma_name_adds(v: SlabView, s: Interning, t: Interning, start: u32, names: Seq<Seq<u8>>, k: int)
    requires
        interning_ok(s, start),
        start <= INTERNED_PATH_SLAB_SIZE,
        s.slab.sound(s.cache),
        0 <= k < names.len(),
        intern_name(s, start, names[k]) == Some(t),
        stands_for(s, start, extended_by(Seq::empty(), names, k)),
        tellable(names),
        adds_only(v, s.slab, names),
    ensures
        adds_only(v, t.slab, names),
{
    let name = names[k];
    let p = extended_by(Seq::empty(), names, k);
    assert(extended(p, name) == extended_by(Seq::empty(), names, k + 1));
    let x = lemma_name_added(s, start, name);
    lemma_name_stands(s, t, start, name, x, p);
    assert(t.hash == prefix_hash(names, k + 1));
    lemma_name_parts(s, t, start, name, x);
    reveal(adds_only);
    let w = t.slab;
    assert forall|idx: int| #[trigger] w.has_entry(idx) implies v.has_entry(idx) || exists|j: int|
        0 < j <= names.len() && w.entry_hash(idx) == #[trigger] prefix_hash(names, j) by {
        if idx == s.slab.next_index(t.hash) {
            assert(w.entry_hash(idx) == prefix_hash(names, k + 1));
        } else {
            lemma_old_entries(s, t, start, name, x, idx);
            assert(s.slab.has_entry(idx));
        }
    }
}

#[verifier::spinoff_prover]
proof fn lemma_names_add(v: SlabView, s: Interning, start: u32, names: Seq<Seq<u8>>, m: int, n: int)
    requires
        0 <= m <= m + n <= names.len(),
        interning_ok(s, start),
        start <= INTERNED_PATH_SLAB_SIZE,
        s.slab.sound(s.cache),
        stands_for(s, start, extended_by(Seq::empty(), names, m)),
        tellable(names),
        forall|k: int|
            m < k <= names.len() ==> s.slab.known(s.cache, #[trigger] prefix_hash(names, k)) is None,
        adds_only(v, s.slab, names),
    ensures
        intern_names(s, start, names.skip(m), n) matches Some(t) ==> adds_only(v, t.slab, names),
    decreases n,
{
    let rest = names.skip(m);
    if n > 0 && intern_names(s, start, rest, n) is Some {
        let path = extended_by(Seq::empty(), names, m);
        let u = intern_names(s, start, rest, n - 1)->0;
        let t = intern_names(s, start, rest, n)->0;
        assert(rest[n - 1] == names[m + n - 1]);
        lemma_names_add(v, s, start, names, m, n - 1);
        assert(interning_ok(u, start) && u.slab.sound(u.cache) && stands_for(
            u,
            start,
            extended_by(Seq::empty(), names, m + n - 1),
        )) by {
            lemma_rest(s, names, m, n - 1);
            law_intern_names_sound(s, start, path, rest, n - 1, s.hash);
        }
        lemma_name_adds(v, u, t, start, names, m + n - 1);
    }
}

/// A hash that some names make is made by them without those behind.
proof fn lemma_take_hash(names: Seq<Seq<u8>>, n: int, k: int)
    requires
        0 <= k <= n <= names.len(),
    ensures
        prefix_hash(names.take(n), k) == prefix_hash(names, k),
{
    lemma_take_extended(names, n, k);
}

proof fn lemma_take_extended(names: Seq<Seq<u8>>, n: int, k: int)
    requires
        0 <= k <= n <= names.len(),
    ensures
        extended_by(Seq::empty(), names.take(n), k) == extended_by(Seq::empty(), names, k),
    decreases k,
{
    if k > 0 {
        lemma_take_extended(names, n, k - 1);
    }
}

/// The paths, one more path, and the paths in front of it.
pub open spec fn with_path(paths: Set<Seq<Seq<u8>>>, names: Seq<Seq<u8>>) -> Set<Seq<Seq<u8>>> {
    Set::new(
        |x: Seq<Seq<u8>>|
            paths.contains(x) || (0 < x.len() <= names.len() && x == names.take(x.len() as int)),
    )
}

/// No two of the paths have the same hash.
pub open spec fn collision_free(paths: Set<Seq<Seq<u8>>>) -> bool {
    forall|x: Seq<Seq<u8>>, y: Seq<Seq<u8>>| #[trigger]
        paths.contains(x) && #[trigger] paths.contains(y) && prefix_hash(x, x.len() as int) == prefix_hash(
            y,
            y.len() as int,
        ) ==> x == y
}

impl SlabView {
    /// The entry with this index is of the path.
    pub open spec fn is_entry_of(self, idx: int, path: Seq<Seq<u8>>) -> bool {
        &&& self.entry_hash(idx) == prefix_hash(path, path.len() as int)
        &&& spells(self.parts(idx), path, path.len() as int)
    }

    /// Every entry is of one of the paths.
    #[verifier::opaque]
    pub open spec fn among(self, paths: Set<Seq<Seq<u8>>>) -> bool {
        forall|idx: int| #[trigger]
            self.has_entry(idx) ==> exists|x: Seq<Seq<u8>>|
                paths.contains(x) && #[trigger] self.is_entry_of(idx, x)
    }
}

/// If no two paths have the same hash, then of those in the slab no other one has the hash of a path.
pub proof fn law_collision_free(v: SlabView, paths: Set<Seq<Seq<u8>>>, names: Seq<Seq<u8>>)
    requires
        v.among(paths),
        collision_free(with_path(paths, names)),
    ensures
        v.unclashed(names),
{
    reveal(SlabView::among);
    reveal(SlabView::unclashed);
    let all = with_path(paths, names);
    assert forall|idx: int, k: int|
        #[trigger] v.has_entry(idx) && 0 < k <= names.len() && v.entry_hash(idx) == #[trigger] prefix_hash(
            names,
            k,
        ) implies spells(v.parts(idx), names, k) by {
        let x = choose|x: Seq<Seq<u8>>| paths.contains(x) && #[trigger] v.is_entry_of(idx, x);
        let y = names.take(k);
        lemma_take_hash(names, k, k);
        assert(all.contains(x) && all.contains(y));
        assert(x == y);
        assert forall|i: int| 0 <= i < k implies hash40(#[trigger] v.parts(idx)[i]) == hash40(names[i]) by {
            assert(y[i] == names[i]);
        }
    }
}

/// Adding a path adds no entries of other paths.
pub proof fn law_among_grown(v: SlabView, w: SlabView, paths: Set<Seq<Seq<u8>>>, names: Seq<Seq<u8>>)
    requires
        v.wf(),
        grown(v, w),
        adds_only(v, w, names),
        v.among(paths),
        w.unclashed(names),
    ensures
        w.among(with_path(paths, names)),
{
    reveal(SlabView::among);
    reveal(SlabView::unclashed);
    reveal(adds_only);
    let all = with_path(paths, names);
    assert forall|idx: int| #[trigger] w.has_entry(idx) implies exists|x: Seq<Seq<u8>>|
        all.contains(x) && #[trigger] w.is_entry_of(idx, x) by {
        if v.has_entry(idx) {
            lemma_parts_grown(v, w, idx);
            let x = choose|x: Seq<Seq<u8>>| paths.contains(x) && #[trigger] v.is_entry_of(idx, x);
            assert(all.contains(x) && w.is_entry_of(idx, x));
        } else {
            let k = choose|k: int|
                0 < k <= names.len() && w.entry_hash(idx) == #[trigger] prefix_hash(names, k);
            let x = names.take(k);
            lemma_take_hash(names, k, k);
            assert(spells(w.parts(idx), names, k));
            assert(all.contains(x) && w.is_entry_of(idx, x));
        }
    }
}

} // verus!
