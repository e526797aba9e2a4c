//! The paths that files get for a new costume.

use crate::access::{at, count, holds, law_stored, pushed, with};
use crate::archive::ArchiveView;
use crate::copy_laws::{
    appended, lemma_appended_reflexive, lemma_appended_transitive, lemma_below_wf, lemma_child_duplicated,
    lemma_children_replaced, lemma_contents_copied, lemma_copied_parts, lemma_costume_info_appended,
    lemma_costume_infos_appended, lemma_package_inserted,
};
use crate::data::{
    law_hash_with_data, law_new_search_path, FileGroup, FileInfo, FilePackage, FilePackageChild, FilePath,
    SearchFolder, SearchPath, SearchPathLink,
};
use crate::hash40::{
    hash40, law_trim, law_with, law_with_hash, spec_trim, spec_with, Hash40,
};
use crate::hash_interner::SlabView;
use crate::lookup::{law_insert_file_package, law_insert_file_path, law_insert_search_folder};
use crate::package_laws::lemma_with_child;
use crate::packages::{
    below, copied_group, copied_package, copy_contents, costume_folder, costume_info, costume_infos,
    costume_search_path, duplicate_child, duplicate_package, file_in_folder, first_name,
    lemma_costume_search_path_resource, renamed_bank, replace_child, replace_children, sound_bank,
};
use crate::patch_laws::{grows, law_grows_transitive};
use crate::search_laws::{
    agrees, is_child, law_child_adopted, law_child_appended, lemma_children_kept,
    lemma_search_folder_inserted, lemma_search_path_inserted, lemma_search_reflexive,
    lemma_search_transitive, search_kept,
};
use vstd::prelude::*;
use vstd::utf8::encode_utf8;

verus! {

/// The hash of a path below a folder is the hash of both with a `/` between them. The name has to fit the 8
/// bits that its hash keeps of its length.
pub proof fn law_below(folder: Seq<u8>, name: Seq<u8>)
    requires
        name.len() < 256,
    ensures
        below(hash40(folder), hash40(name)) == hash40(folder + encode_utf8("/"@) + name),
{
    law_with(folder, encode_utf8("/"@));
    law_with_hash(folder + encode_utf8("/"@), name);
}

/// A sound bank is named after its costume: the name that ends in the old costume, a dot and the extension
/// becomes one that ends in the new costume, a dot and the extension.
pub proof fn law_renamed_bank(
    stem: Seq<u8>,
    old_name: Seq<u8>,
    costume: Seq<u8>,
    extension: Seq<u8>,
)
    requires
        costume.len() < 256,
        extension.len() < 256,
    ensures
        renamed_bank(
            hash40(stem + old_name + encode_utf8("."@) + extension),
            hash40(extension),
            extension,
            old_name,
            hash40(costume),
        ) == hash40(stem + costume + encode_utf8("."@) + extension),
{
    let dot = encode_utf8("."@);
    law_trim(stem + old_name + dot, extension);
    law_trim(stem + old_name, dot);
    law_trim(stem, old_name);
    law_with_hash(stem, costume);
    law_with(stem + costume, dot);
    law_with_hash(stem + costume + dot, extension);
}

/// The hash of the path that a file gets for a new costume. A file in the folder of the old costume gets
/// one of the same name in the folder of the new one, beside it. Any other file stays in its folder and is
/// renamed.
pub open spec fn costume_hash(
    v: ArchiveView,
    file: FilePath,
    old_costume: Hash40,
    costume: Hash40,
    names: SlabView,
) -> Hash40 {
    let folder = at::<SearchPath>(
        v,
        v.find_search_path(spec_trim(file.spec_parent(), encode_utf8("/"@)))->0,
    );
    if folder.spec_name() == old_costume {
        below(below(folder.spec_parent(), costume), file.spec_file_name())
    } else {
        below(
            folder.spec_path(),
            renamed_bank(
                file.spec_file_name(),
                file.spec_extension(),
                first_name(names, file.spec_extension())->0,
                first_name(names, old_costume)->0,
                costume,
            ),
        )
    }
}

/// A file in the folder of a costume, `folder/old/name`, gets the path `folder/new/name`.
pub proof fn law_costume_hash(
    v: ArchiveView,
    file: FilePath,
    folder: Seq<u8>,
    old_name: Seq<u8>,
    new_name: Seq<u8>,
    name: Seq<u8>,
    names: SlabView,
)
    requires
        new_name.len() < 256,
        name.len() < 256,
        file.spec_parent() == hash40(
            folder + encode_utf8("/"@) + old_name + encode_utf8("/"@),
        ),
        file.spec_file_name() == hash40(name),
        v.find_search_path(hash40(folder + encode_utf8("/"@) + old_name)) matches Some(q) ==> {
            &&& at::<SearchPath>(v, q).spec_name() == hash40(old_name)
            &&& at::<SearchPath>(v, q).spec_parent() == hash40(folder)
        },
        v.find_search_path(hash40(folder + encode_utf8("/"@) + old_name)) is Some,
    ensures
        costume_hash(v, file, hash40(old_name), hash40(new_name), names) == hash40(
            folder + encode_utf8("/"@) + new_name + encode_utf8("/"@) + name,
        ),
{
    law_trim(folder + encode_utf8("/"@) + old_name, encode_utf8("/"@));
    law_below(folder, new_name);
    law_below(folder + encode_utf8("/"@) + new_name, name);
}

/// The same folders give the same path.
proof fn lemma_costume_hash_kept(
    v: ArchiveView,
    w: ArchiveView,
    file: FilePath,
    old_costume: Hash40,
    costume: Hash40,
    names: SlabView,
)
    requires
        search_kept(v, w),
        v.find_search_path(spec_trim(file.spec_parent(), encode_utf8("/"@))) is Some,
    ensures
        costume_hash(w, file, old_costume, costume, names) == costume_hash(
            v,
            file,
            old_costume,
            costume,
            names,
        ),
        w.find_search_path(spec_trim(file.spec_parent(), encode_utf8("/"@))) == v.find_search_path(
            spec_trim(file.spec_parent(), encode_utf8("/"@)),
        ),
{
    let q = v.find_search_path(spec_trim(file.spec_parent(), encode_utf8("/"@)))->0;
    assert(holds::<SearchPath>(v, q));
}

proof fn lemma_same_search_kept(u: ArchiveView, v: ArchiveView, w: ArchiveView)
    requires
        search_kept(u, v),
        w.search == v.search,
        w.wf(),
    ensures
        search_kept(u, w),
        agrees(v) ==> agrees(w),
{
    lemma_children_kept(v, w);
    assert forall|h: Hash40| w.find_search_path(h) == v.find_search_path(h) by {}
    assert forall|h: Hash40| w.find_search_folder(h) == v.find_search_folder(h) by {}
    assert(search_kept(v, w));
    lemma_search_transitive(u, v, w);
    if agrees(v) {
        assert forall|h: Hash40|
            w.search.search_path_lookup.get(h.0) is Some implies #[trigger] w.find_search_path(h) is Some
            && at::<SearchPath>(w, w.find_search_path(h)->0).spec_path() == h by {
            assert(v.find_search_path(h) is Some);
        }
        assert forall|h: Hash40|
            w.search.search_folder_lookup.get(h.0) is Some implies #[trigger] w.find_search_folder(
            h,
        ) is Some && at::<SearchFolder>(w, w.find_search_folder(h)->0).spec_path() == h by {
            assert(v.find_search_folder(h) is Some);
        }
    }
}

/// The folder of the new costume is found afterwards, beside that of the old one.
pub proof fn law_costume_folder(v: ArchiveView, old_folder: SearchPath, costume: Hash40)
    requires
        v.wf(),
        agrees(v),
    ensures
        costume_folder(v, old_folder, costume) matches Some((w, f)) ==> {
            let path = below(old_folder.spec_parent(), costume);
            &&& search_kept(v, w)
            &&& agrees(w)
            &&& holds::<SearchFolder>(w, f)
            &&& w.find_search_folder(path) == Some(f)
            &&& at::<SearchFolder>(w, f).spec_path() == path
            &&& v.find_search_folder(path) is None ==> {
                let q = w.find_search_path(path)->0;
                &&& w.find_search_path(path) is Some
                &&& at::<SearchPath>(w, q).spec_is_folder()
                &&& at::<SearchPath>(w, q).spec_parent() == old_folder.spec_parent()
                &&& w.find_search_folder(old_folder.spec_parent()) is Some
                &&& count::<SearchPathLink>(v) < 0xFF_FFFF ==> is_child(
                    w,
                    w.find_search_folder(old_folder.spec_parent())->0,
                    q,
                )
            }
        },
{
    reveal(costume_folder);
    lemma_search_reflexive(v);
    if let Some((w, f)) = costume_folder(v, old_folder, costume) {
        let parent = old_folder.spec_parent();
        let path = below(parent, costume);
        lemma_below_wf(parent, costume);
        law_hash_with_data(path, 0);
        law_hash_with_data(parent, 0x40_0000);
        law_new_search_path(path, parent, costume, costume);
        let folder = SearchFolder::bare(path, parent, costume);
        let search_path = SearchPath::folder(path, parent, costume);
        if v.find_search_folder(path) is None {
            let x = v.insert_search_folder(folder);
            lemma_search_folder_inserted(v, folder);
            law_insert_search_folder(v, folder, folder.spec_path());
            let y = x.insert_search_path(search_path);
            lemma_search_path_inserted(x, search_path);
            lemma_search_transitive(v, x, y);
            let p = y.find_search_folder(parent)->0;
            let link = count::<SearchPathLink>(x) as u32;
            let q = count::<SearchPath>(x) as u32;
            law_child_appended(y, p, link, q);
            lemma_search_transitive(v, y, w);
            lemma_search_transitive(x, y, w);
            assert(holds::<SearchFolder>(x, f));
            assert(x.find_search_folder(path) is Some);
            assert(y.find_search_path(path) is Some);
            assert(y.find_search_folder(parent) is Some);
            assert(holds::<SearchPath>(y, q));
            law_stored(v, 0, at::<SearchPathLink>(v, 0));
        }
    }
}

/// A file that is put in a folder is found below it, and is a child of the folder if it was not there.
pub proof fn law_file_in_folder(v: ArchiveView, f: u32, file: FilePath)
    requires
        v.wf(),
        agrees(v),
        holds::<SearchFolder>(v, f),
    ensures
        file_in_folder(v, f, file) matches Some((w, s)) ==> {
            let path = below(at::<SearchFolder>(v, f).spec_path(), file.spec_file_name());
            &&& search_kept(v, w)
            &&& agrees(w)
            &&& s.spec_path() == path
            &&& w.find_search_path(path) is Some
            &&& v.find_search_path(path) is None && count::<SearchPathLink>(v) < 0xFF_FFFF ==> is_child(
                w,
                f,
                w.find_search_path(path)->0,
            )
        },
{
    reveal(file_in_folder);
    lemma_search_reflexive(v);
    if let Some((w, s)) = file_in_folder(v, f, file) {
        let folder = at::<SearchFolder>(v, f).spec_path();
        let name = file.spec_file_name();
        lemma_below_wf(folder, name);
        law_new_search_path(below(folder, name), folder, name, file.spec_extension());
        let path = SearchPath::file(below(folder, name), folder, name, file.spec_extension());
        if v.find_search_path(path.spec_path()) is None {
            let x = v.insert_search_path(path);
            lemma_search_path_inserted(v, path);
            let link = count::<SearchPathLink>(v) as u32;
            let q = count::<SearchPath>(v) as u32;
            law_child_adopted(x, f, link, q);
            lemma_search_transitive(v, x, w);
            assert(x.find_search_path(path.spec_path()) is Some);
            law_stored(v, 0, at::<SearchPathLink>(v, 0));
        }
    }
}

proof fn lemma_sound_bank(
    v: ArchiveView,
    folder: Hash40,
    file: FilePath,
    old_costume: Hash40,
    costume: Hash40,
    names: SlabView,
)
    requires
        v.wf(),
        agrees(v),
    ensures
        sound_bank(v, folder, file, old_costume, costume, names) matches Some((w, s)) ==> {
            &&& search_kept(v, w)
            &&& agrees(w)
            &&& s.spec_path() == below(
                folder,
                renamed_bank(
                    file.spec_file_name(),
                    file.spec_extension(),
                    first_name(names, file.spec_extension())->0,
                    first_name(names, old_costume)->0,
                    costume,
                ),
            )
        },
{
    reveal(sound_bank);
    lemma_search_reflexive(v);
    if let Some((w, s)) = sound_bank(v, folder, file, old_costume, costume, names) {
        let name = renamed_bank(
            file.spec_file_name(),
            file.spec_extension(),
            first_name(names, file.spec_extension())->0,
            first_name(names, old_costume)->0,
            costume,
        );
        lemma_below_wf(folder, name);
        law_new_search_path(below(folder, name), folder, name, file.spec_extension());
        let path = SearchPath::file(below(folder, name), folder, name, file.spec_extension());
        if v.find_search_path(path.spec_path()) is None {
            let x = v.insert_search_path(path);
            lemma_search_path_inserted(v, path);
            let link = count::<SearchPathLink>(v) as u32;
            let q = count::<SearchPath>(v) as u32;
            let f = x.find_search_folder(folder)->0;
            law_child_appended(x, f, link, q);
            lemma_search_transitive(v, x, w);
        }
    }
}

proof fn lemma_costume_search_path(
    v: ArchiveView,
    file: FilePath,
    old_costume: Hash40,
    costume: Hash40,
    names: SlabView,
)
    requires
        v.wf(),
        agrees(v),
    ensures
        costume_search_path(v, file, old_costume, costume, names) matches Some((w, s)) ==> {
            &&& search_kept(v, w)
            &&& agrees(w)
            &&& w.resource == v.resource
            &&& v.find_search_path(spec_trim(file.spec_parent(), encode_utf8("/"@))) is Some
            &&& s.spec_path() == costume_hash(v, file, old_costume, costume, names)
        },
{
    lemma_costume_search_path_resource(v, file, old_costume, costume, names);
    reveal(costume_search_path);
    if let Some(q) = v.find_search_path(spec_trim(file.spec_parent(), encode_utf8("/"@))) {
        let folder = at::<SearchPath>(v, q);
        law_costume_folder(v, folder, costume);
        lemma_sound_bank(v, folder.spec_path(), file, old_costume, costume, names);
        if let Some((w, f)) = costume_folder(v, folder, costume) {
            law_file_in_folder(w, f, file);
            if let Some((x, _)) = file_in_folder(w, f, file) {
                lemma_search_transitive(v, w, x);
            }
        }
    }
}

/// A file that gets a path for a new costume has the path that is found by the hash for the new costume. If
/// that path was not there, it leads to the entity that the old one leads to.
pub proof fn law_costume_info(
    v: ArchiveView,
    i: u32,
    old_costume: Hash40,
    costume: Hash40,
    names: SlabView,
)
    requires
        v.wf(),
        agrees(v),
    ensures
        costume_info(v, i, old_costume, costume, names) matches Some(w) ==> {
            let file = at::<FilePath>(v, at::<FileInfo>(v, i).path);
            let p = at::<FileInfo>(w, i).path;
            let hash = costume_hash(v, file, old_costume, costume, names);
            &&& search_kept(v, w)
            &&& agrees(w)
            &&& holds::<FilePath>(v, at::<FileInfo>(v, i).path)
            &&& v.find_search_path(spec_trim(file.spec_parent(), encode_utf8("/"@))) is Some
            &&& w.find_file_path(hash) == Some(p)
            &&& v.find_file_path(hash) is None ==> at::<FilePath>(w, p).spec_path() == hash && at::<
                FilePath,
            >(w, p).spec_entity() == file.spec_entity()
        },
{
    lemma_costume_info_appended(v, i, old_costume, costume, names);
    reveal(costume_info);
    if let Some(w) = costume_info(v, i, old_costume, costume, names) {
        let info = at::<FileInfo>(v, i);
        let file = at::<FilePath>(v, info.path);
        lemma_costume_search_path(v, file, old_costume, costume, names);
        let (x, s) = costume_search_path(v, file, old_costume, costume, names)->0;
        let path = FilePath::of_parts(
            s.spec_path(),
            spec_with(s.spec_parent(), encode_utf8("/"@)),
            s.spec_name(),
            s.extension.spec_hash40(),
            file.spec_entity(),
        );
        law_hash_with_data(s.spec_path(), file.spec_entity());
        assert(path.spec_path() == s.spec_path());
        assert(w.search == x.search);
        lemma_same_search_kept(v, x, w);
        assert(x.find_file_path(path.spec_path()) == v.find_file_path(path.spec_path()));
        if x.find_file_path(path.spec_path()) is None {
            law_insert_file_path(x, path, path.spec_path());
            let y = x.insert_file_path(path);
            law_stored(y, i, FileInfo { path: count::<FilePath>(x) as u32, ..info });
        } else {
            law_stored(x, i, FileInfo { path: x.find_file_path(path.spec_path())->0, ..info });
        }
    }
}

/// Info `i` of `w` has the path for the new costume, if its path of before and the folder of that are there.
pub open spec fn has_costume_path(
    v: ArchiveView,
    w: ArchiveView,
    path: u32,
    i: u32,
    old_costume: Hash40,
    costume: Hash40,
    names: SlabView,
) -> bool {
    let file = at::<FilePath>(v, path);
    holds::<FilePath>(v, path) && v.find_search_path(
        spec_trim(file.spec_parent(), encode_utf8("/"@)),
    ) is Some ==> w.find_file_path(costume_hash(v, file, old_costume, costume, names)) == Some(
        at::<FileInfo>(w, i).path,
    )
}

#[verifier::spinoff_prover]
proof fn lemma_costume_paths(
    v: ArchiveView,
    start: u32,
    end: int,
    old_costume: Hash40,
    costume: Hash40,
    names: SlabView,
)
    requires
        v.wf(),
        agrees(v),
        end <= count::<FileInfo>(v),
    ensures
        costume_infos(v, start, end, old_costume, costume, names) matches Some(w) ==> {
            &&& search_kept(v, w)
            &&& agrees(w)
            &&& forall|i: u32|
                start <= i < end ==> #[trigger] has_costume_path(
                    v,
                    w,
                    at::<FileInfo>(v, i).path,
                    i,
                    old_costume,
                    costume,
                    names,
                )
        },
    decreases end - start,
{
    lemma_search_reflexive(v);
    law_stored(v, 0, at::<FileInfo>(v, 0));
    if end > start {
        lemma_costume_paths(v, start, end - 1, old_costume, costume, names);
        lemma_costume_infos_appended(v, start, end - 1, old_costume, costume, names);
        lemma_costume_infos_frame(v, start, end - 1, old_costume, costume, names);
        if let Some(w) = costume_infos(v, start, end - 1, old_costume, costume, names) {
            let i = (end - 1) as u32;
            law_costume_info(w, i, old_costume, costume, names);
            lemma_costume_info_appended(w, i, old_costume, costume, names);
            if let Some(x) = costume_info(w, i, old_costume, costume, names) {
                lemma_search_transitive(v, w, x);
                assert(holds::<FileInfo>(v, i));
                assert forall|k: u32| start <= k < end implies #[trigger] has_costume_path(
                    v,
                    x,
                    at::<FileInfo>(v, k).path,
                    k,
                    old_costume,
                    costume,
                    names,
                ) by {
                    let p = at::<FileInfo>(v, k).path;
                    let file = at::<FilePath>(v, p);
                    if holds::<FilePath>(v, p) && v.find_search_path(
                        spec_trim(file.spec_parent(), encode_utf8("/"@)),
                    ) is Some {
                        lemma_costume_hash_kept(v, w, file, old_costume, costume, names);
                        if k < i {
                            assert(has_costume_path(v, w, p, k, old_costume, costume, names));
                            assert(holds::<FileInfo>(w, k));
                            assert(w.find_file_path(
                                costume_hash(v, file, old_costume, costume, names),
                            ) is Some);
                        } else {
                            assert(at::<FileInfo>(w, i) == at::<FileInfo>(v, i));
                            assert(at::<FilePath>(w, p) == file);
                        }
                    }
                }
            }
        }
    }
}

/// Infos that are not in the run keep their paths.
proof fn lemma_costume_infos_frame(
    v: ArchiveView,
    start: u32,
    end: int,
    old_costume: Hash40,
    costume: Hash40,
    names: SlabView,
)
    requires
        v.wf(),
        end <= u32::MAX + 1,
    ensures
        costume_infos(v, start, end, old_costume, costume, names) matches Some(w) ==> forall|k: u32|
            #[trigger] holds::<FileInfo>(v, k) && !(start <= k < end) ==> at::<FileInfo>(w, k) == at::<
                FileInfo,
            >(v, k),
    decreases end - start,
{
    if end > start {
        lemma_costume_infos_frame(v, start, end - 1, old_costume, costume, names);
        lemma_costume_infos_appended(v, start, end - 1, old_costume, costume, names);
        if let Some(w) = costume_infos(v, start, end - 1, old_costume, costume, names) {
            let i = (end - 1) as u32;
            lemma_costume_info_appended(w, i, old_costume, costume, names);
            if let Some(x) = costume_info(w, i, old_costume, costume, names) {
                assert forall|k: u32| #[trigger] holds::<FileInfo>(v, k) && !(start <= k
                    < end) implies at::<FileInfo>(x, k) == at::<FileInfo>(v, k) by {
                    assert(holds::<FileInfo>(w, k));
                }
            }
        }
    }
}

proof fn lemma_child_search(
    v: ArchiveView,
    path: Hash40,
    new_parent: Hash40,
    old_costume: Hash40,
    costume: Hash40,
    names: SlabView,
)
    requires
        v.wf(),
        agrees(v),
    ensures
        duplicate_child(v, path, new_parent, old_costume, costume, names) matches Some((w, _)) ==> {
            &&& search_kept(v, w)
            &&& agrees(w)
        },
{
    reveal(duplicate_child);
    if let Some((w, child)) = duplicate_child(v, path, new_parent, old_costume, costume, names) {
        let source = at::<FilePackage>(v, v.find_file_package(path)->0);
        let g = count::<FileGroup>(v) as u32;
        let copy_path = below(new_parent, source.spec_name());
        let bare = copied_package(source, copy_path, source.spec_name(), new_parent, g);
        let clashes = |q: FilePackage| q.spec_parent() == source.spec_parent();
        let group = copied_group(v, source, clashes)->0;
        lemma_contents_copied(v, source, copy_path, source.spec_name(), new_parent, clashes);
        let (x, copy) = copy_contents(pushed(v, group), bare, g, source)->0;
        lemma_search_reflexive(v);
        lemma_same_search_kept(v, v, x);
        let end = copy.info_start + copy.info_count;
        lemma_costume_paths(x, copy.info_start, end, old_costume, costume, names);
        let y = costume_infos(x, copy.info_start, end, old_costume, costume, names)->0;
        lemma_search_transitive(v, x, y);
        lemma_package_inserted(y, copy);
        assert(w.search == y.search);
        lemma_same_search_kept(v, y, w);
    }
}

proof fn lemma_children_search(
    v: ArchiveView,
    start: u32,
    end: int,
    new_parent: Hash40,
    old_costume: Hash40,
    costume: Hash40,
    names: SlabView,
)
    requires
        v.wf(),
        agrees(v),
        end <= u32::MAX,
    ensures
        replace_children(v, start, end, new_parent, old_costume, costume, names) matches Some(w) ==> {
            &&& search_kept(v, w)
            &&& agrees(w)
        },
    decreases end - start,
{
    lemma_search_reflexive(v);
    if end > start {
        lemma_children_search(v, start, end - 1, new_parent, old_costume, costume, names);
        lemma_children_replaced(v, start, end, new_parent, old_costume, costume, names);
        if let Some(w) = replace_children(v, start, end - 1, new_parent, old_costume, costume, names) {
            reveal(replace_child);
            let i = (end - 1) as u32;
            let path = at::<FilePackageChild>(w, i).spec_path();
            lemma_child_search(w, path, new_parent, old_costume, costume, names);
            if let Some(y) = replace_children(v, start, end, new_parent, old_costume, costume, names) {
                let (x, child) = duplicate_child(w, path, new_parent, old_costume, costume, names)->0;
                assert(y == with(x, i, child));
                assert(y.search == x.search);
                lemma_search_transitive(v, w, x);
                lemma_same_search_kept(v, x, y);
            }
        }
    }
}

/// Every file of a copied package is found under the path for the new costume: a file in the folder of the
/// old costume under its name in the folder of the new one, and a sound bank in its folder, under a name
/// with the new costume in it. All that was found in the search tree still is. What is looked up by hash in
/// the search tree has to have that hash.
#[verifier::spinoff_prover]
pub proof fn law_costume_paths(v: ArchiveView, path: Hash40, costume: Hash40, names: SlabView, k: int)
    requires
        v.wf(),
        agrees(v),
        v.find_file_package(path) matches Some(p) ==> {
            let i = (at::<FilePackage>(v, p).info_start + k) as u32;
            let file = at::<FilePath>(v, at::<FileInfo>(v, i).path);
            &&& 0 <= k < at::<FilePackage>(v, p).info_count
            &&& holds::<FilePath>(v, at::<FileInfo>(v, i).path)
            &&& v.find_search_path(spec_trim(file.spec_parent(), encode_utf8("/"@))) is Some
        },
    ensures
        duplicate_package(v, path, costume, names) matches Some(w) ==> {
            let source = at::<FilePackage>(v, v.find_file_package(path)->0);
            let copy = at::<FilePackage>(
                w,
                w.find_file_package(below(source.spec_parent(), costume))->0,
            );
            let a = at::<FileInfo>(v, (source.info_start + k) as u32);
            let b = at::<FileInfo>(w, (copy.info_start + k) as u32);
            let file = at::<FilePath>(v, a.path);
            &&& search_kept(v, w)
            &&& agrees(w)
            &&& w.find_file_path(costume_hash(v, file, source.spec_name(), costume, names)) == Some(b.path)
        },
{
    if let Some(w) = duplicate_package(v, path, costume, names) {
        let source = at::<FilePackage>(v, v.find_file_package(path)->0);
        let old_costume = source.spec_name();
        let parent = source.spec_parent();
        let g = count::<FileGroup>(v) as u32;
        let copy_path = below(parent, costume);
        let bare = copied_package(source, copy_path, costume, parent, g);
        let clashes = |q: FilePackage| q.spec_name() == source.spec_name();
        let group = copied_group(v, source, clashes)->0;
        lemma_contents_copied(v, source, copy_path, costume, parent, clashes);
        lemma_below_wf(parent, costume);
        lemma_copied_parts(source, copy_path, costume, parent, g);
        let (x, copy) = copy_contents(pushed(v, group), bare, g, source)->0;
        assert(copy.spec_path() == copy_path);
        let n = count::<FileInfo>(v) as int;
        let m = count::<FileInfo>(x) as int;
        let max = u32::MAX as int;
        law_stored(v, 0, at::<FileInfo>(v, 0));
        law_stored(x, 0, at::<FileInfo>(x, 0));
        law_stored(x, 0, at::<FilePackageChild>(x, 0));
        lemma_search_reflexive(v);
        lemma_same_search_kept(v, v, x);
        let start = copy.child_start;
        let children = copy.child_start + copy.child_count;
        lemma_children_replaced(x, start, children, copy_path, old_costume, costume, names);
        lemma_children_search(x, start, children, copy_path, old_costume, costume, names);
        let y = replace_children(x, start, children, copy_path, old_costume, costume, names)->0;
        lemma_search_transitive(v, x, y);
        let end = copy.info_start + copy.info_count;
        lemma_costume_infos_appended(y, copy.info_start, end, old_costume, costume, names);
        lemma_costume_paths(y, copy.info_start, end, old_costume, costume, names);
        let z = costume_infos(y, copy.info_start, end, old_costume, costume, names)->0;
        lemma_search_transitive(v, y, z);
        lemma_package_inserted(z, copy);
        law_insert_file_package(z, copy, path);
        assert(w == z.insert_file_package(copy));
        assert(w.search == z.search);
        lemma_same_search_kept(v, z, w);
        let i = (source.info_start + k) as u32;
        let j = (copy.info_start + k) as u32;
        let a = at::<FileInfo>(v, i);
        let file = at::<FilePath>(v, a.path);
        assert(at::<FileInfo>(x, (copy.info_start + k) as u32).path == a.path);
        assert(holds::<FileInfo>(x, j));
        assert(at::<FileInfo>(y, j).path == a.path);
        assert(holds::<FilePath>(x, a.path));
        assert(holds::<FilePath>(y, a.path));
        assert(at::<FilePath>(y, a.path) == file);
        lemma_costume_hash_kept(v, y, file, old_costume, costume, names);
        assert(has_costume_path(y, z, at::<FileInfo>(y, j).path, j, old_costume, costume, names));
        assert(z.find_file_path(costume_hash(v, file, old_costume, costume, names)) is Some);
    }
}

/// Each file of the package that `child` leads to has the path for the new costume of the file that it was
/// copied from, which is a file of the package with hash `path`. The files of the copy lie behind the first
/// `bound` infos.
pub open spec fn child_paths(
    v: ArchiveView,
    w: ArchiveView,
    path: Hash40,
    child: FilePackageChild,
    old_costume: Hash40,
    costume: Hash40,
    names: SlabView,
    bound: int,
) -> bool {
    let source = at::<FilePackage>(w, w.find_file_package(path)->0);
    let copy = at::<FilePackage>(w, w.find_file_package(child.spec_path())->0);
    &&& w.find_file_package(path) is Some
    &&& w.find_file_package(child.spec_path()) is Some
    &&& copy.info_start >= bound
    &&& copy.info_start + source.info_count <= count::<FileInfo>(w)
    &&& forall|k: int|
        0 <= k < source.info_count && source.info_start + k < count::<FileInfo>(v)
            ==> #[trigger] has_costume_path(
            v,
            w,
            at::<FileInfo>(v, (source.info_start + k) as u32).path,
            (copy.info_start + k) as u32,
            old_costume,
            costume,
            names,
        )
}

proof fn lemma_child_paths_kept(
    v: ArchiveView,
    u: ArchiveView,
    w: ArchiveView,
    path: Hash40,
    child: FilePackageChild,
    old_costume: Hash40,
    costume: Hash40,
    names: SlabView,
    bound: int,
)
    requires
        child_paths(v, u, path, child, old_costume, costume, names, bound),
        grows(u, w),
        forall|k: u32| #[trigger]
            holds::<FilePackage>(u, k) ==> at::<FilePackage>(w, k) == at::<FilePackage>(u, k),
        forall|k: u32| #[trigger]
            holds::<FileInfo>(u, k) && k >= bound ==> at::<FileInfo>(w, k) == at::<FileInfo>(u, k),
    ensures
        child_paths(v, w, path, child, old_costume, costume, names, bound),
{
    let p = u.find_file_package(path)->0;
    let q = u.find_file_package(child.spec_path())->0;
    assert(holds::<FilePackage>(u, p));
    assert(holds::<FilePackage>(u, q));
    let source = at::<FilePackage>(u, p);
    let copy = at::<FilePackage>(u, q);
    law_stored(w, 0, at::<FileInfo>(w, 0));
    assert forall|k: int|
        0 <= k < source.info_count && source.info_start + k < count::<FileInfo>(
            v,
        ) implies #[trigger] has_costume_path(
        v,
        w,
        at::<FileInfo>(v, (source.info_start + k) as u32).path,
        (copy.info_start + k) as u32,
        old_costume,
        costume,
        names,
    ) by {
        let i = at::<FileInfo>(v, (source.info_start + k) as u32).path;
        let j = (copy.info_start + k) as u32;
        assert(has_costume_path(v, u, i, j, old_costume, costume, names));
        assert(holds::<FileInfo>(u, j));
        let hash = costume_hash(v, at::<FilePath>(v, i), old_costume, costume, names);
        if u.find_file_path(hash) is Some {
            assert(w.find_file_path(hash) == u.find_file_path(hash));
        }
    }
}

#[verifier::spinoff_prover]
proof fn lemma_child_paths(
    v: ArchiveView,
    u: ArchiveView,
    path: Hash40,
    new_parent: Hash40,
    old_costume: Hash40,
    costume: Hash40,
    names: SlabView,
)
    requires
        u.wf(),
        agrees(u),
        search_kept(v, u),
        appended(v, u, count::<FileInfo>(v) as int),
    ensures
        duplicate_child(u, path, new_parent, old_costume, costume, names) matches Some((w, child))
            ==> child_paths(
            v,
            w,
            path,
            child,
            old_costume,
            costume,
            names,
            count::<FileInfo>(u) as int,
        ),
{
    reveal(duplicate_child);
    lemma_child_duplicated(u, path, new_parent, old_costume, costume, names);
    if let Some((w, child)) = duplicate_child(u, path, new_parent, old_costume, costume, names) {
        let p = u.find_file_package(path)->0;
        let source = at::<FilePackage>(u, p);
        let g = count::<FileGroup>(u) as u32;
        let copy_path = below(new_parent, source.spec_name());
        let bare = copied_package(source, copy_path, source.spec_name(), new_parent, g);
        let clashes = |q: FilePackage| q.spec_parent() == source.spec_parent();
        let group = copied_group(u, source, clashes)->0;
        lemma_contents_copied(u, source, copy_path, source.spec_name(), new_parent, clashes);
        let (x, copy) = copy_contents(pushed(u, group), bare, g, source)->0;
        lemma_search_reflexive(u);
        lemma_same_search_kept(u, u, x);
        lemma_search_transitive(v, u, x);
        law_stored(x, 0, at::<FileInfo>(x, 0));
        let end = copy.info_start + copy.info_count;
        lemma_costume_infos_appended(x, copy.info_start, end, old_costume, costume, names);
        lemma_costume_paths(x, copy.info_start, end, old_costume, costume, names);
        let y = costume_infos(x, copy.info_start, end, old_costume, costume, names)->0;
        lemma_package_inserted(y, copy);
        lemma_below_wf(new_parent, source.spec_name());
        lemma_copied_parts(source, copy_path, source.spec_name(), new_parent, g);
        law_insert_file_package(y, copy, path);
        assert(w == y.insert_file_package(copy));
        assert(holds::<FilePackage>(u, p));
        assert(w.find_file_package(path) == Some(p));
        assert(child.spec_path() == copy_path);
        assert(at::<FilePackage>(w, w.find_file_package(copy_path)->0) == copy);
        assert forall|k: int|
            0 <= k < source.info_count && source.info_start + k < count::<FileInfo>(
                v,
            ) implies #[trigger] has_costume_path(
            v,
            w,
            at::<FileInfo>(v, (source.info_start + k) as u32).path,
            (copy.info_start + k) as u32,
            old_costume,
            costume,
            names,
        ) by {
            let i = (source.info_start + k) as u32;
            let j = (copy.info_start + k) as u32;
            let q = at::<FileInfo>(v, i).path;
            let file = at::<FilePath>(v, q);
            assert(holds::<FileInfo>(v, i));
            assert(at::<FileInfo>(x, (copy.info_start + k) as u32).path == at::<FileInfo>(u, i).path);
            if holds::<FilePath>(v, q) && v.find_search_path(
                spec_trim(file.spec_parent(), encode_utf8("/"@)),
            ) is Some {
                assert(holds::<FilePath>(u, q));
                assert(at::<FilePath>(x, q) == file);
                lemma_costume_hash_kept(v, x, file, old_costume, costume, names);
                assert(has_costume_path(x, y, at::<FileInfo>(x, j).path, j, old_costume, costume, names));
                assert(y.find_file_path(costume_hash(v, file, old_costume, costume, names)) is Some);
            }
        }
    }
}

/// Child `k` of a copied package has paths for the new costume.
pub open spec fn child_has_paths(
    v: ArchiveView,
    u: ArchiveView,
    w: ArchiveView,
    k: u32,
    old_costume: Hash40,
    costume: Hash40,
    names: SlabView,
    bound: int,
) -> bool {
    child_paths(
        v,
        w,
        at::<FilePackageChild>(u, k).spec_path(),
        at::<FilePackageChild>(w, k),
        old_costume,
        costume,
        names,
        bound,
    )
}

#[verifier::spinoff_prover]
proof fn lemma_children_paths(
    v: ArchiveView,
    u: ArchiveView,
    start: u32,
    end: int,
    new_parent: Hash40,
    old_costume: Hash40,
    costume: Hash40,
    names: SlabView,
)
    requires
        u.wf(),
        agrees(u),
        search_kept(v, u),
        appended(v, u, count::<FileInfo>(v) as int),
        end <= u32::MAX,
    ensures
        replace_children(u, start, end, new_parent, old_costume, costume, names) matches Some(w) ==> forall|
            k: u32,
        |
            start <= k < end ==> #[trigger] child_has_paths(
                v,
                u,
                w,
                k,
                old_costume,
                costume,
                names,
                count::<FileInfo>(u) as int,
            ),
    decreases end - start,
{
    let m = count::<FileInfo>(u) as int;
    let n = count::<FileInfo>(v) as int;
    if end > start {
        lemma_children_paths(v, u, start, end - 1, new_parent, old_costume, costume, names);
        lemma_children_search(u, start, end - 1, new_parent, old_costume, costume, names);
        lemma_children_replaced(u, start, end - 1, new_parent, old_costume, costume, names);
        if let Some(w) = replace_children(u, start, end - 1, new_parent, old_costume, costume, names) {
            reveal(replace_child);
            lemma_search_transitive(v, u, w);
            lemma_appended_transitive(v, u, w, n, m, n);
            let i = (end - 1) as u32;
            let path = at::<FilePackageChild>(w, i).spec_path();
            lemma_child_paths(v, w, path, new_parent, old_costume, costume, names);
            lemma_child_duplicated(w, path, new_parent, old_costume, costume, names);
            if let Some(y) = replace_children(u, start, end, new_parent, old_costume, costume, names) {
                let (x, child) = duplicate_child(w, path, new_parent, old_costume, costume, names)->0;
                assert(holds::<FilePackageChild>(u, i));
                law_stored(x, i, child);
                lemma_with_child(x, i, child);
                assert(y == with(x, i, child));
                law_grows_transitive(w, x, y);
                lemma_child_paths_kept(
                    v,
                    x,
                    y,
                    path,
                    child,
                    old_costume,
                    costume,
                    names,
                    count::<FileInfo>(w) as int,
                );
                assert forall|k: u32| start <= k < end implies #[trigger] child_has_paths(
                    v,
                    u,
                    y,
                    k,
                    old_costume,
                    costume,
                    names,
                    m,
                ) by {
                    if k < i {
                        assert(child_has_paths(v, u, w, k, old_costume, costume, names, m));
                        assert(holds::<FilePackageChild>(u, k)) by {
                            lemma_replaced_hold(u, start, end - 1, k, new_parent, old_costume, costume, names);
                        }
                        assert(at::<FilePackageChild>(y, k) == at::<FilePackageChild>(w, k));
                        assert forall|j: u32| #[trigger]
                            holds::<FilePackage>(w, j) implies at::<FilePackage>(y, j) == at::<FilePackage>(
                            w,
                            j,
                        ) by {
                            assert(holds::<FilePackage>(x, j));
                        }
                        assert forall|j: u32| #[trigger]
                            holds::<FileInfo>(w, j) && j >= m implies at::<FileInfo>(y, j) == at::<FileInfo>(
                            w,
                            j,
                        ) by {
                            assert(holds::<FileInfo>(x, j));
                        }
                        lemma_child_paths_kept(
                            v,
                            w,
                            y,
                            at::<FilePackageChild>(u, k).spec_path(),
                            at::<FilePackageChild>(w, k),
                            old_costume,
                            costume,
                            names,
                            m,
                        );
                    } else {
                        assert(k == i);
                        assert(at::<FilePackageChild>(y, i) == child);
                        assert(at::<FilePackageChild>(w, i) == at::<FilePackageChild>(u, i));
                    }
                }
            }
        }
    }
}

/// Children that were replaced are there.
proof fn lemma_replaced_hold(
    v: ArchiveView,
    start: u32,
    end: int,
    k: u32,
    new_parent: Hash40,
    old_costume: Hash40,
    costume: Hash40,
    names: SlabView,
)
    requires
        v.wf(),
        end <= u32::MAX,
        start <= k < end,
        replace_children(v, start, end, new_parent, old_costume, costume, names) is Some,
    ensures
        holds::<FilePackageChild>(v, k),
    decreases end - start,
{
    lemma_children_replaced(v, start, end - 1, new_parent, old_costume, costume, names);
    if k < end - 1 {
        lemma_replaced_hold(v, start, end - 1, k, new_parent, old_costume, costume, names);
    } else {
        reveal(replace_child);
    }
}

/// Every file of every child of a copied package is found under the path for the new costume too, as the files
/// of the package itself are.
#[verifier::spinoff_prover]
pub proof fn law_costume_child_paths(
    v: ArchiveView,
    path: Hash40,
    costume: Hash40,
    names: SlabView,
    c: int,
    k: int,
)
    requires
        v.wf(),
        agrees(v),
        v.find_file_package(path) matches Some(p) ==> 0 <= c < at::<FilePackage>(v, p).child_count,
    ensures
        duplicate_package(v, path, costume, names) matches Some(w) ==> {
            let source = at::<FilePackage>(v, v.find_file_package(path)->0);
            let copy = at::<FilePackage>(
                w,
                w.find_file_package(below(source.spec_parent(), costume))->0,
            );
            let old = at::<FilePackageChild>(v, (source.child_start + c) as u32).spec_path();
            let new = at::<FilePackageChild>(w, (copy.child_start + c) as u32).spec_path();
            let old_package = at::<FilePackage>(w, w.find_file_package(old)->0);
            let new_package = at::<FilePackage>(w, w.find_file_package(new)->0);
            let a = at::<FileInfo>(v, (old_package.info_start + k) as u32);
            let b = at::<FileInfo>(w, (new_package.info_start + k) as u32);
            let file = at::<FilePath>(v, a.path);
            &&& w.find_file_package(old) is Some
            &&& w.find_file_package(new) is Some
            &&& 0 <= k < old_package.info_count && old_package.info_start + k < count::<FileInfo>(v)
                && holds::<FilePath>(v, a.path) && v.find_search_path(
                spec_trim(file.spec_parent(), encode_utf8("/"@)),
            ) is Some ==> w.find_file_path(costume_hash(v, file, source.spec_name(), costume, names)) == Some(
                b.path,
            )
        },
{
    if let Some(w) = duplicate_package(v, path, costume, names) {
        let source = at::<FilePackage>(v, v.find_file_package(path)->0);
        let old_costume = source.spec_name();
        let parent = source.spec_parent();
        let g = count::<FileGroup>(v) as u32;
        let copy_path = below(parent, costume);
        let bare = copied_package(source, copy_path, costume, parent, g);
        let clashes = |q: FilePackage| q.spec_name() == source.spec_name();
        let group = copied_group(v, source, clashes)->0;
        lemma_contents_copied(v, source, copy_path, costume, parent, clashes);
        lemma_below_wf(parent, costume);
        lemma_copied_parts(source, copy_path, costume, parent, g);
        let (x, copy) = copy_contents(pushed(v, group), bare, g, source)->0;
        let n = count::<FileInfo>(v) as int;
        let m = count::<FileInfo>(x) as int;
        let max = u32::MAX as int;
        law_stored(v, 0, at::<FileInfo>(v, 0));
        law_stored(x, 0, at::<FileInfo>(x, 0));
        law_stored(x, 0, at::<FilePackageChild>(x, 0));
        lemma_search_reflexive(v);
        lemma_same_search_kept(v, v, x);
        lemma_appended_reflexive(x, n);
        lemma_appended_transitive(v, x, x, max, n, n);
        let start = copy.child_start;
        let children = copy.child_start + copy.child_count;
        lemma_children_replaced(x, start, children, copy_path, old_costume, costume, names);
        lemma_children_paths(v, x, start, children, copy_path, old_costume, costume, names);
        let y = replace_children(x, start, children, copy_path, old_costume, costume, names)->0;
        let end = copy.info_start + copy.info_count;
        lemma_costume_infos_appended(y, copy.info_start, end, old_costume, costume, names);
        lemma_costume_infos_frame(y, copy.info_start, end, old_costume, costume, names);
        let z = costume_infos(y, copy.info_start, end, old_costume, costume, names)->0;
        lemma_package_inserted(z, copy);
        law_insert_file_package(z, copy, path);
        assert(w == z.insert_file_package(copy));
        lemma_appended_transitive(y, z, w, n, max, n);
        let i = (copy.child_start + c) as u32;
        assert(child_has_paths(v, x, y, i, old_costume, costume, names, m));
        assert(at::<FilePackageChild>(x, (copy.child_start + c) as u32) == at::<FilePackageChild>(
            v,
            (source.child_start + c) as u32,
        ));
        assert(w.resource.file_package_child == y.resource.file_package_child);
        assert forall|j: u32| #[trigger] holds::<FileInfo>(y, j) && j >= m implies at::<FileInfo>(w, j)
            == at::<FileInfo>(y, j) by {
            assert(holds::<FileInfo>(z, j));
        }
        let old = at::<FilePackageChild>(x, i).spec_path();
        let child = at::<FilePackageChild>(y, i);
        lemma_child_paths_kept(v, y, w, old, child, old_costume, costume, names, m);
        let old_package = at::<FilePackage>(w, w.find_file_package(old)->0);
        let new_package = at::<FilePackage>(w, w.find_file_package(child.spec_path())->0);
        if 0 <= k < old_package.info_count && old_package.info_start + k < count::<FileInfo>(v) {
            assert(has_costume_path(
                v,
                w,
                at::<FileInfo>(v, (old_package.info_start + k) as u32).path,
                (new_package.info_start + k) as u32,
                old_costume,
                costume,
                names,
            ));
        }
    }
}

} // verus!
