//! What can be found in the search tree after something was added to it.

use crate::access::{at, count, holds, law_stored, with};
use crate::add_files::{append_child, last_child, register, NewFile, Registering};
use crate::archive::ArchiveView;
use crate::containers::law_lookup_put;
use crate::data::{law_hash_with_data, law_new_search_path, SearchFolder, SearchPath, SearchPathLink};
use crate::hash40::{law_hash40_wf, spec_trim, Hash40};
use crate::lookup::{law_insert_search_folder, law_insert_search_path};
use crate::packages::adopt;
use vstd::prelude::*;
use vstd::utf8::encode_utf8;

verus! {

/// The search path that is reached from `c` by going on to the next one `m` times.
pub open spec fn walk(v: ArchiveView, c: u32, m: nat) -> Option<u32>
    decreases m,
{
    if m == 0 {
        Some(c)
    } else {
        match walk(v, c, (m - 1) as nat) {
            Some(x) => if at::<SearchPath>(v, x).spec_is_end() {
                None
            } else {
                v.follow(at::<SearchPath>(v, x).next_index())
            },
            None => None,
        }
    }
}

/// Is search path `q` the child of folder `f` that comes after `m` others?
pub open spec fn is_nth_child(v: ArchiveView, f: u32, q: u32, m: nat) -> bool {
    v.follow(at::<SearchFolder>(v, f).first_child_index) matches Some(c) && walk(v, c, m) == Some(q)
}

/// Is search path `q` a child of folder `f`?
pub open spec fn is_child(v: ArchiveView, f: u32, q: u32) -> bool {
    holds::<SearchFolder>(v, f) && exists|m: nat| #[trigger] is_nth_child(v, f, q, m)
}

/// All that is found in the search tree of `v` is found in that of `w`, with the same hashes, and children of
/// folders are still their children.
pub open spec fn search_kept(v: ArchiveView, w: ArchiveView) -> bool {
    &&& w.wf()
    &&& count::<SearchPath>(v) <= count::<SearchPath>(w)
    &&& count::<SearchFolder>(v) <= count::<SearchFolder>(w)
    &&& forall|h: Hash40| #[trigger]
        v.find_search_path(h) is Some ==> w.find_search_path(h) == v.find_search_path(h)
    &&& forall|h: Hash40| #[trigger]
        v.find_search_folder(h) is Some ==> w.find_search_folder(h) == v.find_search_folder(h)
    &&& forall|k: u32| #[trigger]
        holds::<SearchPath>(v, k) ==> same_names(at::<SearchPath>(v, k), at::<SearchPath>(w, k))
    &&& forall|k: u32| #[trigger]
        holds::<SearchFolder>(v, k) ==> at::<SearchFolder>(v, k) == (SearchFolder {
            first_child_index: at::<SearchFolder>(v, k).first_child_index,
            ..at::<SearchFolder>(w, k)
        })
    &&& forall|f: u32, q: u32| #[trigger] is_child(v, f, q) ==> is_child(w, f, q)
}

/// Search paths that differ in what comes next at most.
pub open spec fn same_names(a: SearchPath, b: SearchPath) -> bool {
    a.spec_path() == b.spec_path() && a.parent_and_is_folder == b.parent_and_is_folder && a.name == b.name
        && a.extension == b.extension
}

/// Whatever is looked up by hash is there, and has that hash.
pub open spec fn agrees(v: ArchiveView) -> bool {
    &&& forall|h: Hash40|
        v.search.search_path_lookup.get(h.0) is Some ==> #[trigger] v.find_search_path(h) is Some && at::<
            SearchPath,
        >(v, v.find_search_path(h)->0).spec_path() == h
    &&& forall|h: Hash40|
        v.search.search_folder_lookup.get(h.0) is Some ==> #[trigger] v.find_search_folder(h) is Some
            && at::<SearchFolder>(v, v.find_search_folder(h)->0).spec_path() == h
}

pub(crate) proof fn lemma_search_reflexive(v: ArchiveView)
    requires
        v.wf(),
    ensures
        search_kept(v, v),
{
}

pub(crate) proof fn lemma_search_transitive(u: ArchiveView, v: ArchiveView, w: ArchiveView)
    requires
        search_kept(u, v),
        search_kept(v, w),
    ensures
        search_kept(u, w),
{
    assert forall|h: Hash40| #[trigger] u.find_search_path(h) is Some implies w.find_search_path(h)
        == u.find_search_path(h) by {
        assert(v.find_search_path(h) is Some);
    }
    assert forall|h: Hash40| #[trigger] u.find_search_folder(h) is Some implies w.find_search_folder(h)
        == u.find_search_folder(h) by {
        assert(v.find_search_folder(h) is Some);
    }
    assert forall|k: u32| #[trigger] holds::<SearchPath>(u, k) implies same_names(
        at::<SearchPath>(u, k),
        at::<SearchPath>(w, k),
    ) by {
        assert(holds::<SearchPath>(v, k));
    }
    assert forall|k: u32| #[trigger] holds::<SearchFolder>(u, k) implies at::<SearchFolder>(u, k)
        == (SearchFolder {
        first_child_index: at::<SearchFolder>(u, k).first_child_index,
        ..at::<SearchFolder>(w, k)
    }) by {
        assert(holds::<SearchFolder>(v, k));
    }
    assert forall|f: u32, q: u32| #[trigger] is_child(u, f, q) implies is_child(w, f, q) by {
        assert(is_child(v, f, q));
    }
}

pub(crate) proof fn lemma_walk_holds(v: ArchiveView, c: u32, m: nat)
    requires
        holds::<SearchPath>(v, c),
    ensures
        walk(v, c, m) matches Some(x) ==> holds::<SearchPath>(v, x),
    decreases m,
{
    if m > 0 {
        lemma_walk_holds(v, c, (m - 1) as nat);
    }
}

/// Going on from the next one is going on once more.
proof fn lemma_walk_front(v: ArchiveView, c: u32, d: u32, m: nat)
    requires
        !at::<SearchPath>(v, c).spec_is_end(),
        v.follow(at::<SearchPath>(v, c).next_index()) == Some(d),
    ensures
        walk(v, c, m + 1) == walk(v, d, m),
    decreases m,
{
    if m == 0 {
        assert(walk(v, c, 0) == Some(c));
        assert(walk(v, c, 1) == Some(d));
    } else {
        lemma_walk_front(v, c, d, (m - 1) as nat);
        assert(walk(v, c, m) == walk(v, d, (m - 1) as nat));
    }
}

/// The last child is one of those that are reached.
proof fn lemma_last_reached(v: ArchiveView, c: u32, fuel: nat)
    requires
        holds::<SearchPath>(v, c),
    ensures
        last_child(v, c, fuel) matches Some(l) ==> holds::<SearchPath>(v, l) && at::<SearchPath>(
            v,
            l,
        ).spec_is_end() && exists|m: nat| #[trigger] walk(v, c, m) == Some(l),
    decreases fuel,
{
    let path = at::<SearchPath>(v, c);
    if path.spec_is_end() {
        assert(walk(v, c, 0) == Some(c));
    } else if fuel > 0 {
        if let Some(d) = v.follow(path.next_index()) {
            lemma_last_reached(v, d, (fuel - 1) as nat);
            if let Some(l) = last_child(v, d, (fuel - 1) as nat) {
                let m = choose|m: nat| #[trigger] walk(v, d, m) == Some(l);
                lemma_walk_front(v, c, d, m);
                assert(walk(v, c, m + 1) == Some(l));
            }
        }
    }
}

/// What is reached stays so, if only search paths change that end a list, and links stay.
pub(crate) proof fn lemma_walk_kept(v: ArchiveView, w: ArchiveView, c: u32, m: nat)
    requires
        holds::<SearchPath>(v, c),
        count::<SearchPath>(v) <= count::<SearchPath>(w),
        forall|k: u32| #[trigger]
            holds::<SearchPath>(v, k) && !at::<SearchPath>(v, k).spec_is_end() ==> at::<SearchPath>(w, k)
                == at::<SearchPath>(v, k),
        forall|k: u32| #[trigger] v.follow(k) is Some ==> w.follow(k) == v.follow(k),
    ensures
        walk(v, c, m) is Some ==> walk(w, c, m) == walk(v, c, m),
    decreases m,
{
    if m > 0 {
        lemma_walk_kept(v, w, c, (m - 1) as nat);
        lemma_walk_holds(v, c, (m - 1) as nat);
        if let Some(x) = walk(v, c, (m - 1) as nat) {
            assert(holds::<SearchPath>(v, x));
        }
    }
}

pub(crate) proof fn lemma_children_kept(v: ArchiveView, w: ArchiveView)
    requires
        count::<SearchPath>(v) <= count::<SearchPath>(w),
        count::<SearchFolder>(v) <= count::<SearchFolder>(w),
        forall|k: u32| #[trigger]
            holds::<SearchPath>(v, k) && !at::<SearchPath>(v, k).spec_is_end() ==> at::<SearchPath>(w, k)
                == at::<SearchPath>(v, k),
        forall|k: u32| #[trigger] v.follow(k) is Some ==> w.follow(k) == v.follow(k),
        forall|f: u32| #[trigger]
            holds::<SearchFolder>(v, f) && v.follow(at::<SearchFolder>(v, f).first_child_index) is Some
                ==> at::<SearchFolder>(w, f).first_child_index == at::<SearchFolder>(
                v,
                f,
            ).first_child_index,
    ensures
        forall|f: u32, q: u32| #[trigger] is_child(v, f, q) ==> is_child(w, f, q),
{
    assert forall|f: u32, q: u32| #[trigger] is_child(v, f, q) implies is_child(w, f, q) by {
        let m = choose|m: nat| #[trigger] is_nth_child(v, f, q, m);
        let c = v.follow(at::<SearchFolder>(v, f).first_child_index)->0;
        lemma_walk_kept(v, w, c, m);
        assert(is_nth_child(w, f, q, m));
    }
}

pub(crate) proof fn lemma_search_path_inserted(v: ArchiveView, path: SearchPath)
    requires
        v.wf(),
        v.can_insert_search_path(path),
    ensures
        search_kept(v, v.insert_search_path(path)),
        agrees(v) ==> agrees(v.insert_search_path(path)),
        v.insert_search_path(path).follow(count::<SearchPathLink>(v) as u32) == Some(
            count::<SearchPath>(v) as u32,
        ),
        v.insert_search_path(path).find_search_path(path.spec_path()) == Some(
            count::<SearchPath>(v) as u32,
        ),
        at::<SearchPath>(v.insert_search_path(path), count::<SearchPath>(v) as u32) == path,
{
    let w = v.insert_search_path(path);
    law_insert_search_path(v, path, path.spec_path());
    law_stored(v, 0, path);
    law_stored(v, 0, at::<SearchPathLink>(v, 0));
    assert forall|k: u32| #[trigger] v.follow(k) is Some implies w.follow(k) == v.follow(k) by {}
    lemma_children_kept(v, w);
    assert forall|h: Hash40| #[trigger] v.find_search_path(h) is Some implies w.find_search_path(h)
        == v.find_search_path(h) by {
        law_insert_search_path(v, path, h);
    }
    if agrees(v) {
        assert forall|h: Hash40|
            w.search.search_path_lookup.get(h.0) is Some implies #[trigger] w.find_search_path(h) is Some
            && at::<SearchPath>(w, w.find_search_path(h)->0).spec_path() == h by {
            law_insert_search_path(v, path, h);
            law_lookup_put(
                v.search.search_path_lookup,
                path.spec_path().0,
                count::<SearchPathLink>(v) as u32,
                h.0,
            );
            if h != path.spec_path() {
                assert(v.find_search_path(h) is Some);
            }
        }
        assert forall|h: Hash40|
            w.search.search_folder_lookup.get(h.0) is Some implies #[trigger] w.find_search_folder(
            h,
        ) is Some && at::<SearchFolder>(w, w.find_search_folder(h)->0).spec_path() == h by {
            assert(v.find_search_folder(h) is Some);
        }
    }
}

pub(crate) proof fn lemma_search_folder_inserted(v: ArchiveView, folder: SearchFolder)
    requires
        v.wf(),
        v.can_insert_search_folder(folder),
    ensures
        search_kept(v, v.insert_search_folder(folder)),
        agrees(v) ==> agrees(v.insert_search_folder(folder)),
        at::<SearchFolder>(v.insert_search_folder(folder), count::<SearchFolder>(v) as u32) == folder,
{
    let w = v.insert_search_folder(folder);
    law_insert_search_folder(v, folder, folder.spec_path());
    law_stored(v, 0, folder);
    assert forall|k: u32| #[trigger] v.follow(k) is Some implies w.follow(k) == v.follow(k) by {}
    lemma_children_kept(v, w);
    assert forall|h: Hash40| #[trigger] v.find_search_folder(h) is Some implies w.find_search_folder(h)
        == v.find_search_folder(h) by {
        law_insert_search_folder(v, folder, h);
    }
    if agrees(v) {
        assert forall|h: Hash40|
            w.search.search_folder_lookup.get(h.0) is Some implies #[trigger] w.find_search_folder(
            h,
        ) is Some && at::<SearchFolder>(w, w.find_search_folder(h)->0).spec_path() == h by {
            law_insert_search_folder(v, folder, h);
            law_lookup_put(
                v.search.search_folder_lookup,
                folder.spec_path().0,
                count::<SearchFolder>(v) as u32,
                h.0,
            );
            if h != folder.spec_path() {
                assert(v.find_search_folder(h) is Some);
            }
        }
        assert forall|h: Hash40|
            w.search.search_path_lookup.get(h.0) is Some implies #[trigger] w.find_search_path(h) is Some
            && at::<SearchPath>(w, w.find_search_path(h)->0).spec_path() == h by {
            assert(v.find_search_path(h) is Some);
        }
    }
}

/// Putting a link behind the last child of a folder makes what it points to a child of the folder. All that
/// was there stays, and all children stay children. Links are told apart from the end of a list in 24 bits.
pub proof fn law_child_appended(v: ArchiveView, f: u32, link: u32, q: u32)
    requires
        v.wf(),
        holds::<SearchFolder>(v, f),
        v.follow(link) == Some(q),
    ensures
        append_child(v, f, link) matches Some(w) ==> {
            &&& search_kept(v, w)
            &&& w.search.search_folder == v.search.search_folder
            &&& w.search.search_path_link == v.search.search_path_link
            &&& count::<SearchPath>(w) == count::<SearchPath>(v)
            &&& agrees(v) ==> agrees(w)
            &&& link < 0xFF_FFFF ==> is_child(w, f, q)
        },
{
    reveal(append_child);
    if let Some(w) = append_child(v, f, link) {
        let c = v.follow(at::<SearchFolder>(v, f).first_child_index)->0;
        let l = last_child(v, c, count::<SearchPath>(v))->0;
        lemma_last_reached(v, c, count::<SearchPath>(v));
        let old = at::<SearchPath>(v, l);
        let new = old.with_next(link);
        law_stored(v, l, new);
        assert(w == with(v, l, new));
        assert(new.spec_path() == old.spec_path());
        assert forall|k: u32| #[trigger] v.follow(k) is Some implies w.follow(k) == v.follow(k) by {}
        assert forall|k: u32| #[trigger]
            holds::<SearchPath>(v, k) && k != l implies at::<SearchPath>(w, k) == at::<SearchPath>(v, k) by {}
        lemma_children_kept(v, w);
        assert forall|k: u32| #[trigger] holds::<SearchPath>(v, k) implies same_names(
            at::<SearchPath>(v, k),
            at::<SearchPath>(w, k),
        ) by {
            if k == l {
                assert(at::<SearchPath>(w, k) == new);
            }
        }
        assert forall|h: Hash40| w.find_search_path(h) == v.find_search_path(h) by {}
        if agrees(v) {
            assert forall|h: Hash40|
                w.search.search_path_lookup.get(h.0) is Some implies #[trigger] w.find_search_path(
                h,
            ) is Some && at::<SearchPath>(w, w.find_search_path(h)->0).spec_path() == h by {
                assert(v.find_search_path(h) is Some);
                assert(holds::<SearchPath>(v, v.find_search_path(h)->0));
            }
            assert forall|h: Hash40|
                w.search.search_folder_lookup.get(h.0) is Some implies #[trigger] w.find_search_folder(
                h,
            ) is Some && at::<SearchFolder>(w, w.find_search_folder(h)->0).spec_path() == h by {
                assert(v.find_search_folder(h) is Some);
            }
        }
        if link < 0xFF_FFFF {
            let m = choose|m: nat| #[trigger] walk(v, c, m) == Some(l);
            lemma_walk_kept(v, w, c, m);
            assert(walk(w, c, m) == Some(l));
            assert(at::<SearchPath>(w, l) == new);
            assert(new.next_index() == link);
            assert(!new.spec_is_end());
            assert(walk(w, c, m + 1) == Some(q));
            assert(is_nth_child(w, f, q, m + 1));
        }
    }
}

/// As [`law_child_appended`] says, for a folder that may have had no children.
pub proof fn law_child_adopted(v: ArchiveView, f: u32, link: u32, q: u32)
    requires
        v.wf(),
        holds::<SearchFolder>(v, f),
        v.follow(link) == Some(q),
    ensures
        adopt(v, f, link) matches Some(w) ==> {
            &&& search_kept(v, w)
            &&& agrees(v) ==> agrees(w)
            &&& link < 0xFF_FFFF ==> is_child(w, f, q)
        },
{
    reveal(adopt);
    law_child_appended(v, f, link, q);
    let folder = at::<SearchFolder>(v, f);
    if !folder.spec_has_first_child() {
        let new = SearchFolder { first_child_index: link, ..folder };
        law_stored(v, f, new);
        law_stored(v, 0, at::<SearchPathLink>(v, 0));
        let w = with(v, f, new);
        assert(v.follow(folder.first_child_index) is None);
        assert forall|k: u32| #[trigger] v.follow(k) is Some implies w.follow(k) == v.follow(k) by {}
        lemma_children_kept(v, w);
        assert(at::<SearchFolder>(w, f) == new);
        assert(walk(w, q, 0) == Some(q));
        assert(is_nth_child(w, f, q, 0));
        assert forall|h: Hash40| w.find_search_path(h) == v.find_search_path(h) by {}
        assert forall|h: Hash40| w.find_search_folder(h) == v.find_search_folder(h) by {}
        if agrees(v) {
            assert forall|h: Hash40|
                w.search.search_folder_lookup.get(h.0) is Some implies #[trigger] w.find_search_folder(
                h,
            ) is Some && at::<SearchFolder>(w, w.find_search_folder(h)->0).spec_path() == h by {
                assert(v.find_search_folder(h) is Some);
            }
            assert forall|h: Hash40|
                w.search.search_path_lookup.get(h.0) is Some implies #[trigger] w.find_search_path(
                h,
            ) is Some && at::<SearchPath>(w, w.find_search_path(h)->0).spec_path() == h by {
                assert(v.find_search_path(h) is Some);
            }
        }
    }
}

/// A new file whose folder is there is found in the search tree, under its path, as a file that is a child
/// of its folder. All that was in the tree is still found.
pub proof fn law_registered_search(s: Registering, file: NewFile, package: Option<Hash40>)
    requires
        s.archive.wf(),
    ensures
        register(s, file, package) matches Some(t) ==> {
            let v = s.archive;
            let w = t.archive;
            let parent = spec_trim(file.filepath.spec_parent(), encode_utf8("/"@));
            let path = file.filepath.spec_path();
            &&& search_kept(v, w)
            &&& v.find_file_path(path) is None && package is Some ==> {
                let q = w.find_search_path(path)->0;
                let found = at::<SearchPath>(w, q);
                &&& w.find_search_path(path) is Some
                &&& found.spec_path() == path
                &&& found.spec_parent() == parent
                &&& file.filepath.spec_file_name().wf() ==> found.spec_name()
                    == file.filepath.spec_file_name()
                &&& found.extension.spec_hash40() == file.filepath.spec_extension()
                &&& !found.spec_is_folder()
                &&& v.find_search_folder(parent) is Some && count::<SearchPathLink>(v) < 0xFF_FFFF
                    ==> is_child(w, v.find_search_folder(parent)->0, q)
            }
        },
{
    reveal(register);
    let v = s.archive;
    lemma_search_reflexive(v);
    if let Some(t) = register(s, file, package) {
        let path = SearchPath::of_file_path(file.filepath);
        let parent = spec_trim(file.filepath.spec_parent(), encode_utf8("/"@));
        law_hash40_wf(file.filepath.spec_parent(), file.filepath.spec_parent(), encode_utf8("/"@));
        law_hash_with_data(parent, 0);
        law_hash_with_data(file.filepath.spec_extension(), 0);
        law_new_search_path(
            file.filepath.spec_path(),
            parent,
            file.filepath.spec_file_name(),
            file.filepath.spec_extension(),
        );
        if file.filepath.spec_file_name().wf() {
            law_hash_with_data(file.filepath.spec_file_name(), 0);
        }
        if v.find_file_path(file.filepath.spec_path()) is None && package is Some {
            let w = v.insert_search_path(path);
            let link = count::<SearchPathLink>(v) as u32;
            let q = count::<SearchPath>(v) as u32;
            lemma_search_path_inserted(v, path);
            assert(holds::<SearchPath>(w, q));
            law_stored(v, 0, at::<SearchPathLink>(v, 0));
            assert(w.find_search_folder(parent) == v.find_search_folder(parent));
            if let Some(f) = w.find_search_folder(parent) {
                law_child_appended(w, f, link, q);
                lemma_search_transitive(v, w, t.archive);
                assert(w.find_search_path(path.spec_path()) is Some);
            }
        }
    }
}

} // verus!
