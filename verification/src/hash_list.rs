//! Filling the slab of strings from a list of paths.

use crate::hash40::{hash40, hash40_str, law_hash40_layout};
use crate::hash_interner::{
    finalized_from, grown, intern_path, is_tellable, join, law_empty_sound, law_grown_stores,
    law_stored_found, lemma_grown_refl, lemma_grown_trans, CacheView, HashMemorySlab, InternerCache, SlabView,
};
use crate::interned_paths::{
    adds_only, collision_free, law_among_grown, law_collision_free, law_empty_told, law_names_read_back,
    law_short_path_tellable, law_tells_grown, path_names, prefix_hash, spells, with_path,
};
use crate::paths::{
    extension, extension_in, file_name, is_plain, is_plain_name, joined, last_dot, path_file_name, plain_names,
    views,
};
use crate::strings::encode_utf8_concat;
use crate::text_lines::{lines_of, split_lines};
use vstd::prelude::*;
use vstd::utf8::encode_utf8;

verus! {

/// The slab and the cache after a string was added, if there is one.
pub open spec fn intern_if(state: Option<(SlabView, CacheView)>, path: Option<Seq<char>>) -> Option<
    (SlabView, CacheView),
> {
    match (state, path) {
        (Some((v, c)), Some(p)) => match intern_path(v, c, p) {
            Some((w, d, _)) => Some((w, d)),
            None => None,
        },
        (s, None) => s,
        (None, _) => None,
    }
}

/// The slab and the cache after a line of the list was added: the extension of the path, the file
/// name, and the path itself, so that the hash of each can be told.
pub open spec fn intern_line(v: SlabView, c: CacheView, line: Seq<char>) -> Option<
    (SlabView, CacheView),
> {
    let name = path_file_name(line);
    intern_if(intern_if(intern_if(Some((v, c)), extension_in(name)), name), Some(line))
}

/// Is the line a path that hashes can tell, with something behind the dot of its file name if there is one?
pub open spec fn is_listable(line: Seq<char>) -> bool {
    &&& line.len() > 0
    &&& is_tellable(line)
    &&& extension_in(path_file_name(line)) matches Some(e) ==> e.len() > 0
}

/// There is no dot behind the last one.
proof fn lemma_last_dot(name: Seq<char>)
    ensures
        0 <= last_dot(name) <= name.len(),
        forall|j: int| last_dot(name) < j < name.len() ==> name[j] != '.',
    decreases name.len(),
{
    if name.len() > 0 {
        let front = name.drop_last();
        lemma_last_dot(front);
        assert forall|j: int| last_dot(name) < j < name.len() implies name[j] != '.' by {
            if j < front.len() {
                assert(front[j] == name[j]);
            }
        }
    }
}

/// Hashes can tell a single name.
proof fn lemma_one_name(name: Seq<char>)
    requires
        is_plain_name(name),
        encode_utf8(name).len() < 0x100,
    ensures
        is_tellable(name),
{
    let names = seq![name];
    assert forall|i: int| 0 <= i < names.len() implies is_plain_name(#[trigger] names[i]) by {}
    assert(is_plain(names) && joined(names) == name);
    law_short_path_tellable(name);
}

/// Hashes can tell the file name of a line, and its extension.
proof fn lemma_listable(line: Seq<char>)
    requires
        is_listable(line),
        path_file_name(line) == Some(plain_names(line).last()),
    ensures
        path_file_name(line) matches Some(name) && name.len() > 0 && is_tellable(name),
        extension_in(path_file_name(line)) matches Some(e) ==> e.len() > 0 && is_tellable(e),
{
    let names = plain_names(line);
    assert(is_plain(names) && joined(names) == line);
    assert(names.len() > 0);
    let name = names.last();
    assert(is_plain_name(names[names.len() - 1]));
    assert(encode_utf8(names[names.len() - 1]).len() < 0x100);
    lemma_one_name(name);
    if let Some(e) = extension_in(Some(name)) {
        let d = last_dot(name);
        lemma_last_dot(name);
        assert(name =~= name.take(d + 1) + e);
        encode_utf8_concat(name.take(d + 1), e);
        assert forall|j: int| 0 <= j < e.len() implies e[j] != '/' && e[j] != '.' by {
            assert(e[j] == name[d + 1 + j]);
            assert(name.contains(name[d + 1 + j]));
        }
        assert(!e.contains('/'));
        if e == seq!['.'] {
            assert(e[0] == '.');
        }
        if e == seq!['.', '.'] {
            assert(e[0] == '.');
        }
        lemma_one_name(e);
    }
}

/// The paths, and one more if there is one.
pub open spec fn with_path_if(paths: Set<Seq<Seq<u8>>>, path: Option<Seq<char>>) -> Set<Seq<Seq<u8>>> {
    match path {
        Some(p) => with_path(paths, path_names(p)),
        None => paths,
    }
}

/// The paths, and those that a line of the list adds.
pub open spec fn with_line(paths: Set<Seq<Seq<u8>>>, line: Seq<char>) -> Set<Seq<Seq<u8>>> {
    let name = path_file_name(line);
    with_path_if(with_path_if(with_path_if(paths, extension_in(name)), name), Some(line))
}

/// The paths that the lines of a list add.
pub open spec fn paths_of(lines: Seq<Seq<char>>) -> Set<Seq<Seq<u8>>>
    decreases lines.len(),
{
    if lines.len() == 0 {
        Set::empty()
    } else {
        with_line(paths_of(lines.drop_last()), lines.last())
    }
}

/// Of paths without collisions, fewer have none.
proof fn lemma_fewer_collide(a: Set<Seq<Seq<u8>>>, b: Set<Seq<Seq<u8>>>)
    requires
        a.subset_of(b),
        collision_free(b),
    ensures
        collision_free(a),
{
    assert forall|x: Seq<Seq<u8>>, y: Seq<Seq<u8>>| #[trigger]
        a.contains(x) && #[trigger] a.contains(y) && prefix_hash(x, x.len() as int) == prefix_hash(
            y,
            y.len() as int,
        ) implies x == y by {
        assert(b.contains(x) && b.contains(y));
    }
}

/// The paths of the first lines are among those of all lines.
proof fn lemma_paths_grow(lines: Seq<Seq<char>>, n: int)
    requires
        0 <= n <= lines.len(),
    ensures
        paths_of(lines.take(n)).subset_of(paths_of(lines)),
    decreases lines.len() - n,
{
    if n == lines.len() {
        assert(lines.take(n) =~= lines);
    } else {
        assert(lines.take(n + 1).drop_last() =~= lines.take(n));
        lemma_paths_grow(lines, n + 1);
    }
}

/// The slab has no paths but these, and the paths in front of each of its paths.
pub open spec fn filled_with(slab: SlabView, paths: Set<Seq<Seq<u8>>>) -> bool {
    slab.rooted() && slab.among(paths)
}

/// An empty slab has no paths.
pub proof fn law_empty_filled()
    ensures
        filled_with(SlabView::empty(), Set::empty()),
{
    reveal(SlabView::among);
    law_empty_told(Seq::empty());
    let v = SlabView::empty();
    assert forall|idx: int| !(#[trigger] v.has_entry(idx)) by {}
}

/// What adding a path does to the slab and the cache, if there is one.
#[verifier::opaque]
spec fn path_added(v: SlabView, c: CacheView, w: SlabView, d: CacheView, path: Option<Seq<char>>) -> bool {
    &&& v.wf()
    &&& w.wf()
    &&& grown(v, w)
    &&& match path {
        Some(p) => {
            let names = path_names(p);
            p.len() > 0 && is_tellable(p) && v.sound(c) ==> w.sound(d) && w.stores(hash40_str(p)) && (
            v.rooted() ==> w.rooted() && adds_only(v, w, names) && (v.unclashed(names) ==> w.tells(
                names,
            )))
        },
        None => w == v && d == c,
    }
}

proof fn lemma_added(v: SlabView, c: CacheView, w: SlabView, d: CacheView, path: Option<Seq<char>>)
    requires
        path_added(v, c, w, d, path),
        path matches Some(p) ==> p.len() > 0 && is_tellable(p),
        v.sound(c),
    ensures
        grown(v, w),
        w.sound(d),
        path matches Some(p) ==> w.stores(hash40_str(p)),
{
    reveal(path_added);
}

/// No two of the paths had the same hash, and a path was added.
proof fn lemma_filled(
    v: SlabView,
    c: CacheView,
    w: SlabView,
    d: CacheView,
    paths: Set<Seq<Seq<u8>>>,
    path: Option<Seq<char>>,
)
    requires
        path_added(v, c, w, d, path),
        path matches Some(p) ==> p.len() > 0 && is_tellable(p),
        v.sound(c),
        filled_with(v, paths),
        collision_free(with_path_if(paths, path)),
    ensures
        filled_with(w, with_path_if(paths, path)),
        path matches Some(p) ==> w.tells(path_names(p)),
{
    reveal(path_added);
    if let Some(p) = path {
        law_collision_free(v, paths, path_names(p));
        law_among_grown(v, w, paths, path_names(p));
    }
}

/// Adds a path, if there is one. Returns whether there was space for it.
fn add_path(slab: &mut HashMemorySlab, cache: &mut InternerCache, path: Option<&str>) -> (r: bool)
    requires
        old(slab).wf(),
        old(slab)@.cache_ok(old(cache)@),
    ensures
        ({
            let p = match path {
                Some(p) => Some(p@),
                None => None,
            };
            let now = intern_if(Some((old(slab)@, old(cache)@)), p);
            if r {
                now == Some((final(slab)@, final(cache)@)) && final(slab).wf() && final(slab)@.cache_ok(
                    final(cache)@,
                ) && path_added(old(slab)@, old(cache)@, final(slab)@, final(cache)@, p)
            } else {
                now is None
            }
        }),
{
    let ghost v = slab@;
    let added: bool = match path {
        Some(p) => slab.intern_path(cache, p).is_some(),
        None => true,
    };
    proof {
        lemma_grown_refl(v);
        if added {
            reveal(path_added);
        }
    }
    added
}

/// A line was added, with the extension and the file name before it.
proof fn lemma_line_filled(
    line: Seq<char>,
    v0: SlabView,
    c0: CacheView,
    v1: SlabView,
    c1: CacheView,
    v2: SlabView,
    c2: CacheView,
    v3: SlabView,
    c3: CacheView,
    paths: Set<Seq<Seq<u8>>>,
)
    requires
        is_listable(line),
        path_file_name(line) == Some(plain_names(line).last()),
        v0.sound(c0),
        path_added(v0, c0, v1, c1, extension_in(path_file_name(line))),
        path_added(v1, c1, v2, c2, path_file_name(line)),
        path_added(v2, c2, v3, c3, Some(line)),
        filled_with(v0, paths),
        collision_free(with_line(paths, line)),
    ensures
        filled_with(v3, with_line(paths, line)),
        v3.tells(path_names(line)),
{
    let ext = extension_in(path_file_name(line));
    let one = with_path_if(paths, ext);
    let two = with_path_if(one, path_file_name(line));
    let three = with_line(paths, line);
    lemma_listable(line);
    assert(one.subset_of(three) && two.subset_of(three));
    lemma_fewer_collide(one, three);
    lemma_fewer_collide(two, three);
    lemma_filled(v0, c0, v1, c1, paths, ext);
    lemma_added(v0, c0, v1, c1, ext);
    lemma_filled(v1, c1, v2, c2, one, path_file_name(line));
    lemma_added(v1, c1, v2, c2, path_file_name(line));
    lemma_filled(v2, c2, v3, c3, two, Some(line));
}

/// Adds a line of a list of paths. Returns whether there was space for it.
pub fn add_line(slab: &mut HashMemorySlab, cache: &mut InternerCache, line: &str) -> (r: bool)
    requires
        old(slab).wf(),
        old(slab)@.cache_ok(old(cache)@),
    ensures
        r == (intern_line(old(slab)@, old(cache)@, line@) is Some),
        r ==> intern_line(old(slab)@, old(cache)@, line@) == Some((final(slab)@, final(cache)@)),
        r ==> final(slab).wf() && final(slab)@.cache_ok(final(cache)@) && grown(
            old(slab)@,
            final(slab)@,
        ),
        r && is_listable(line@) && old(slab)@.sound(old(cache)@) ==> final(slab)@.sound(
            final(cache)@,
        ) && final(slab)@.stores(hash40_str(line@)),
        forall|paths: Set<Seq<Seq<u8>>>|
            r && is_listable(line@) && old(slab)@.sound(old(cache)@) && #[trigger] filled_with(
                old(slab)@,
                paths,
            ) && collision_free(with_line(paths, line@)) ==> filled_with(
                final(slab)@,
                with_line(paths, line@),
            ) && final(slab)@.tells(path_names(line@)),
{
    let ghost (v0, c0) = (slab@, cache@);
    let ext = extension(line);
    let name = file_name(line);
    proof {
        if is_listable(line@) {
            let names = plain_names(line@);
            assert(is_plain(names) && joined(names) == line@);
            assert(path_file_name(line@) == Some(names.last()));
            lemma_listable(line@);
        }
    }
    if !add_path(slab, cache, as_str(&ext)) {
        return false;
    }
    let ghost (v1, c1) = (slab@, cache@);
    if !add_path(slab, cache, as_str(&name)) {
        return false;
    }
    let ghost (v2, c2) = (slab@, cache@);
    if !add_path(slab, cache, Some(line)) {
        return false;
    }
    proof {
        lemma_all_grown(v0, c0, v1, c1, extension_in(path_file_name(line@)));
        lemma_all_grown(v1, c1, v2, c2, path_file_name(line@));
        lemma_all_grown(v2, c2, slab@, cache@, Some(line@));
        lemma_grown_trans(v0, v1, v2);
        lemma_grown_trans(v0, v2, slab@);
        if is_listable(line@) && v0.sound(c0) {
            lemma_added(v0, c0, v1, c1, extension_in(path_file_name(line@)));
            lemma_added(v1, c1, v2, c2, path_file_name(line@));
            lemma_added(v2, c2, slab@, cache@, Some(line@));
            assert forall|paths: Set<Seq<Seq<u8>>>| #[trigger]
                filled_with(v0, paths) && collision_free(with_line(paths, line@)) implies filled_with(
                slab@,
                with_line(paths, line@),
            ) && slab@.tells(path_names(line@)) by {
                lemma_line_filled(line@, v0, c0, v1, c1, v2, c2, slab@, cache@, paths);
            }
        }
    }
    true
}

proof fn lemma_all_grown(v: SlabView, c: CacheView, w: SlabView, d: CacheView, path: Option<Seq<char>>)
    requires
        path_added(v, c, w, d, path),
    ensures
        grown(v, w),
{
    reveal(path_added);
}

fn as_str(s: &Option<String>) -> (r: Option<&str>)
    ensures
        match (r, *s) {
            (Some(a), Some(b)) => a@ == b@,
            (None, None) => true,
            _ => false,
        },
{
    match s {
        Some(x) => Some(x.as_str()),
        None => None,
    }
}

/// The slab and the cache after the lines of a list were added, one after the other.
pub open spec fn intern_lines(lines: Seq<Seq<char>>) -> Option<(SlabView, CacheView)>
    decreases lines.len(),
{
    if lines.len() == 0 {
        Some(
            (
                SlabView::empty(),
                CacheView { components: Map::empty(), paths: Map::empty(), previous: Seq::empty() },
            ),
        )
    } else {
        match intern_lines(lines.drop_last()) {
            Some((v, c)) => intern_line(v, c, lines.last()),
            None => None,
        }
    }
}

proof fn lemma_lines_fail(lines: Seq<Seq<char>>, n: int)
    requires
        0 <= n <= lines.len(),
        intern_lines(lines.take(n)) is None,
    ensures
        intern_lines(lines) is None,
    decreases lines.len() - n,
{
    if n == lines.len() {
        assert(lines.take(n) =~= lines);
    } else {
        assert(lines.take(n + 1).drop_last() =~= lines.take(n));
        lemma_lines_fail(lines, n + 1);
    }
}

/// The slab has strings for the hash of the line, and they hash to it when they are joined.
pub open spec fn names_line(slab: SlabView, line: Seq<char>) -> bool {
    let hash = hash40_str(line);
    slab.components_of(hash) is Some && hash40(join(slab.components_of(hash)->0)) == hash
}

/// The hash of the line stands for a string for each of its names, which hashes like the name. So does
/// the hash of each path in front of it.
pub open spec fn reads_back(slab: SlabView, line: Seq<char>) -> bool {
    forall|k: int|
        0 < k <= path_names(line).len() ==> (slab.components_of(
            #[trigger] prefix_hash(path_names(line), k),
        ) matches Some(parts) && spells(parts, path_names(line), k))
}

/// The first `n` lines can be told from their hashes.
#[verifier::opaque]
spec fn told(slab: SlabView, lines: Seq<Seq<char>>, n: int) -> bool {
    forall|j: int| 0 <= j < n ==> slab.tells(path_names(#[trigger] lines[j]))
}

proof fn lemma_told_grown(v: SlabView, w: SlabView, lines: Seq<Seq<char>>, n: int)
    requires
        v.wf(),
        w.wf(),
        grown(v, w),
        w.distinct(),
        told(v, lines, n),
        w.tells(path_names(lines[n])),
    ensures
        told(w, lines, n + 1),
{
    reveal(told);
    assert forall|j: int| 0 <= j < n + 1 implies w.tells(path_names(#[trigger] lines[j])) by {
        if j < n {
            law_tells_grown(v, w, path_names(lines[j]));
        }
    }
}

proof fn lemma_reads_back(v: SlabView, w: SlabView, lines: Seq<Seq<char>>, j: int)
    requires
        v.wf(),
        finalized_from(v, w),
        told(v, lines, lines.len() as int),
        0 <= j < lines.len(),
    ensures
        reads_back(w, lines[j]),
{
    reveal(told);
    let names = path_names(lines[j]);
    assert(v.tells(names));
    assert forall|k: int| 0 < k <= names.len() implies (w.components_of(
        #[trigger] prefix_hash(names, k),
    ) matches Some(parts) && spells(parts, names, k)) by {
        law_names_read_back(v, w, names, k);
    }
}

/// Makes a slab from the lines of a list of paths. `None` if there is no space for all of them, or if two
/// of their strings have the same hash. For plain lines, the strings that the slab has for the hash of a
/// line hash to it. If no two of their paths have the same hash, they hash like the names of the line, one
/// by one.
pub fn from_lines(lines: &Vec<String>) -> (r: Option<HashMemorySlab>)
    ensures
        match intern_lines(views(lines@)) {
            Some((v, _)) => match r {
                Some(slab) => v.distinct() && finalized_from(v, slab@) && slab.wf() && slab@.sorted(),
                None => !v.distinct(),
            },
            None => r is None,
        },
        r is Some && (forall|i: int| 0 <= i < lines@.len() ==> is_listable((#[trigger] lines@[i])@))
            ==> forall|i: int|
            0 <= i < lines@.len() ==> names_line(r->0@, (#[trigger] lines@[i])@),
        r is Some && (forall|i: int| 0 <= i < lines@.len() ==> is_listable((#[trigger] lines@[i])@))
            && collision_free(paths_of(views(lines@))) ==> forall|i: int|
            0 <= i < lines@.len() ==> reads_back(r->0@, (#[trigger] lines@[i])@),
{
    let mut slab = HashMemorySlab::new();
    let mut cache = slab.create_cache();
    let ghost all = views(lines@);
    let ghost plain = forall|i: int| 0 <= i < lines@.len() ==> is_listable((#[trigger] lines@[i])@);
    let ghost clear = plain && collision_free(paths_of(all));
    proof {
        assert(all.take(0) =~= Seq::empty());
        law_empty_sound(cache@);
        law_empty_filled();
        assert(told(slab@, all, 0)) by {
            reveal(told);
        }
    }
    for i in 0..lines.len()
        invariant
            all == views(lines@),
            slab.wf(),
            slab@.cache_ok(cache@),
            intern_lines(all.take(i as int)) == Some((slab@, cache@)),
            plain ==> forall|j: int| 0 <= j < lines@.len() ==> is_listable((#[trigger] lines@[j])@),
            plain ==> slab@.sound(cache@),
            plain ==> forall|j: int|
                0 <= j < i ==> slab@.stores(hash40_str((#[trigger] lines@[j])@)),
            clear == (plain && collision_free(paths_of(all))),
            clear ==> filled_with(slab@, paths_of(all.take(i as int))),
            clear ==> told(slab@, all, i as int),
    {
        let ghost before = slab@;
        proof {
            assert(all.take(i + 1).drop_last() =~= all.take(i as int));
            assert(all.take(i + 1).last() == lines@[i as int]@);
            if clear {
                lemma_paths_grow(all, i + 1);
                lemma_fewer_collide(paths_of(all.take(i + 1)), paths_of(all));
                assert(is_listable(lines@[i as int]@));
                assert(filled_with(slab@, paths_of(all.take(i as int))));
            }
        }
        if !add_line(&mut slab, &mut cache, lines[i].as_str()) {
            proof {
                lemma_lines_fail(all, i + 1);
            }
            return None;
        }
        proof {
            if plain {
                assert forall|j: int| 0 <= j < i + 1 implies slab@.stores(
                    hash40_str((#[trigger] lines@[j])@),
                ) by {
                    if j < i {
                        law_grown_stores(before, slab@, hash40_str(lines@[j]@));
                    } else {
                        assert(is_listable(lines@[j]@));
                    }
                }
            }
            if clear {
                assert(all[i as int] == lines@[i as int]@);
                lemma_told_grown(before, slab@, all, i as int);
            }
        }
    }
    let ghost v = slab@;
    proof {
        assert(all.take(lines@.len() as int) =~= all);
    }
    if slab.finalize(cache) {
        proof {
            if plain {
                assert forall|j: int| 0 <= j < lines@.len() implies names_line(
                    slab@,
                    (#[trigger] lines@[j])@,
                ) by {
                    law_hash40_layout(encode_utf8(lines@[j]@));
                    law_stored_found(v, slab@, hash40_str(lines@[j]@));
                }
            }
            if clear {
                assert forall|j: int| 0 <= j < lines@.len() implies reads_back(
                    slab@,
                    (#[trigger] lines@[j])@,
                ) by {
                    lemma_reads_back(v, slab@, all, j);
                }
            }
        }
        Some(slab)
    } else {
        None
    }
}

/// Makes a slab from the text of a list of paths, with one path in each line, as [`from_lines`] does.
pub fn from_text(text: &str) -> (r: Option<HashMemorySlab>)
    ensures
        match intern_lines(lines_of(text@)) {
            Some((v, _)) => match r {
                Some(slab) => v.distinct() && finalized_from(v, slab@) && slab.wf() && slab@.sorted(),
                None => !v.distinct(),
            },
            None => r is None,
        },
        r is Some && (forall|i: int|
            0 <= i < lines_of(text@).len() ==> is_listable(#[trigger] lines_of(text@)[i])) ==> forall|i: int|
            0 <= i < lines_of(text@).len() ==> names_line(r->0@, #[trigger] lines_of(text@)[i]),
        r is Some && (forall|i: int|
            0 <= i < lines_of(text@).len() ==> is_listable(#[trigger] lines_of(text@)[i]))
            && collision_free(paths_of(lines_of(text@))) ==> forall|i: int|
            0 <= i < lines_of(text@).len() ==> reads_back(r->0@, #[trigger] lines_of(text@)[i]),
{
    let lines: Vec<String> = split_lines(text);
    proof {
        assert forall|i: int| 0 <= i < lines@.len() implies (#[trigger] lines@[i])@ == lines_of(text@)[i] by {
            assert(views(lines@)[i] == lines@[i]@);
        }
        assert forall|i: int| 0 <= i < lines@.len() implies #[trigger] lines_of(text@)[i] == lines@[i]@ by {}
    }
    from_lines(&lines)
}

/// Where the hashes of paths come from when the program starts.
#[derive(Copy, Clone, Debug, PartialEq, Eq, Structural)]
pub enum HashSource {
    /// They were stored before.
    Blob,
    /// They are made from a list of paths, and then stored.
    HashFile,
    /// There are none.
    Missing,
}

/// Decides where the hashes of paths come from. What was stored is used if both of its files are there.
pub fn hash_source(has_blob: bool, has_meta: bool, has_list: bool) -> (r: HashSource)
    ensures
        r == if has_blob && has_meta {
            HashSource::Blob
        } else if has_list {
            HashSource::HashFile
        } else {
            HashSource::Missing
        },
{
    if has_blob && has_meta {
        HashSource::Blob
    } else if has_list {
        HashSource::HashFile
    } else {
        HashSource::Missing
    }
}

} // verus!
