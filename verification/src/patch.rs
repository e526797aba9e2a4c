//! Patching the archive's tables so that files can be loaded from elsewhere.
//!
//! The steps build on one another: what is shared is found out, the files of groups are given paths of
//! their own, the files that are replaced stop sharing, and new files are added to their packages. In
//! the end the tables are serialized again, for the game to read.

use crate::access::count;
use crate::add_files::{add_files, add_new_files, package_for, package_of, NewFile};
use crate::archive::{Archive, ArchiveView};
use crate::data::FilePackage;
use crate::discover::{chosen, key_listing, FileSystem, FileSystemView};
use crate::hash40::Hash40;
use crate::hash_interner::{strings_of, HashMemorySlab, SlabView};
use crate::locale::LocalePreferences;
use crate::reshare::{reshare_group_files, reshare_groups};
use crate::share::{all_known, build_share_caches, collected, package_infos, runs_fit};
use crate::unshare::{replace_all, replace_files, Patching};
use vstd::prelude::*;

verus! {

/// The archive after the files of groups got paths of their own and the given files were replaced.
/// `files` are the paths to replace and the sizes of their replacements.
pub open spec fn replaced(v: ArchiveView, prefs: LocalePreferences, files: Seq<(Hash40, u32)>) -> Option<
    ArchiveView,
> {
    let n = count::<FilePackage>(v) as int;
    if !runs_fit(v, n) || !all_known(v, package_infos(v, n)) {
        None
    } else {
        match reshare_groups(v, prefs) {
            Some(w) => match replace_all(
                Patching { archive: w, shares: collected(v, package_infos(v, n)) },
                files,
                files.len() as int,
                prefs,
            ) {
                Some(s) => Some(s.archive),
                None => None,
            },
            None => None,
        }
    }
}

/// The archive before it is serialized again. `new_files` are the files to add and the packages that
/// they belong to.
pub open spec fn patched(
    v: ArchiveView,
    prefs: LocalePreferences,
    files: Seq<(Hash40, u32)>,
    new_files: Seq<(NewFile, Option<Hash40>)>,
) -> Option<ArchiveView> {
    match replaced(v, prefs, files) {
        Some(w) => add_files(w, new_files),
        None => None,
    }
}

/// Replaces files. Returns whether that was possible.
fn replace_in_archive(archive: &mut Archive, prefs: LocalePreferences, files: &[(Hash40, u32)]) -> (r:
    bool)
    requires
        old(archive).wf(),
    ensures
        final(archive).wf(),
        r == (replaced(old(archive)@, prefs, files@) is Some),
        r ==> replaced(old(archive)@, prefs, files@) == Some(final(archive)@),
{
    let Some(mut shares) = build_share_caches(archive) else {
        return false;
    };
    reshare_group_files(archive, prefs) && replace_files(archive, &mut shares, files, prefs)
}

/// Adds files and serializes the archive again. Returns whether that was possible.
fn add_and_serialize(archive: &mut Archive, new_files: &Vec<(NewFile, Option<Hash40>)>) -> (r: bool)
    requires
        old(archive).wf(),
    ensures
        match add_files(old(archive)@, new_files@) {
            Some(w) => r == w.serializable() && (r ==> final(archive)@ == w.reserialized()),
            None => !r,
        },
{
    if !add_new_files(archive, new_files) || !archive.is_serializable() {
        return false;
    }
    archive.reserialize();
    true
}

/// Patches the archive and serializes it again. Returns whether that was possible: not if the tables
/// lead to records that are not there, if a table is full, or if a section gets too large.
pub fn patch_archive(
    archive: &mut Archive,
    prefs: LocalePreferences,
    files: &[(Hash40, u32)],
    new_files: &Vec<(NewFile, Option<Hash40>)>,
) -> (r: bool)
    requires
        old(archive).wf(),
    ensures
        match patched(old(archive)@, prefs, files@, new_files@) {
            Some(w) => r == w.serializable() && (r ==> final(archive)@ == w.reserialized()),
            None => !r,
        },
{
    replace_in_archive(archive, prefs, files) && add_and_serialize(archive, new_files)
}

/// The paths that mods replace under the preferences, in the order of their hashes, and the sizes of
/// the replacements.
pub open spec fn replacements(files: FileSystemView, prefs: LocalePreferences) -> Seq<(Hash40, u32)> {
    chosen(files, key_listing(files.files.dom()), prefs).map_values(
        |f: (Hash40, crate::discover::DiscoveredFile)| (f.0, f.1.size),
    )
}

/// The files that mods add, and the packages that they belong to. `None` if the name of a file that
/// the archive does not have is not known.
pub open spec fn additions(v: ArchiveView, names: SlabView, files: Seq<NewFile>) -> Option<
    Seq<(NewFile, Option<Hash40>)>,
>
    decreases files.len(),
{
    if files.len() == 0 {
        Some(Seq::empty())
    } else {
        let file = files.last();
        match (additions(v, names, files.drop_last()), names.components_of(file.filepath.spec_path())) {
            (Some(front), Some(parts)) => Some(front.push((file, package_of(parts, file.filepath)))),
            (Some(front), None) => if v.find_file_path(file.filepath.spec_path()) is Some {
                Some(front.push((file, None)))
            } else {
                None
            },
            (None, _) => None,
        }
    }
}

fn packages_for(archive: &Archive, names: &HashMemorySlab, files: &Vec<NewFile>) -> (r: Option<
    Vec<(NewFile, Option<Hash40>)>,
>)
    requires
        archive.wf(),
        names.wf(),
        names@.sorted(),
    ensures
        match r {
            Some(added) => additions(archive@, names@, files@) == Some(added@),
            None => additions(archive@, names@, files@) is None,
        },
{
    let mut r: Vec<(NewFile, Option<Hash40>)> = Vec::new();
    for i in 0..files.len()
        invariant
            archive.wf(),
            names.wf(),
            names@.sorted(),
            additions(archive@, names@, files@.take(i as int)) == Some(r@),
    {
        let file = files[i];
        proof {
            assert(files@.take(i + 1).drop_last() =~= files@.take(i as int));
            assert(files@.take(i + 1).last() == file);
        }
        match names.components_for(file.filepath.path()) {
            Some(parts) => {
                proof {
                    assert(parts@.map_values(|c: Vec<u8>| c@) =~= strings_of(parts@));
                }
                r.push((file, package_for(&parts, &file.filepath)));
            },
            None => {
                if archive.lookup_file_path(file.filepath.path()).is_none() {
                    proof {
                        lemma_additions_fail(archive@, names@, files@, i + 1);
                    }
                    return None;
                }
                r.push((file, None));
            },
        }
    }
    proof {
        assert(files@.take(files@.len() as int) =~= files@);
    }
    Some(r)
}

proof fn lemma_additions_fail(v: ArchiveView, names: SlabView, files: Seq<NewFile>, n: int)
    requires
        0 <= n <= files.len(),
        additions(v, names, files.take(n)) is None,
    ensures
        additions(v, names, files) is None,
    decreases files.len() - n,
{
    if n == files.len() {
        assert(files.take(n) =~= files);
    } else {
        assert(files.take(n + 1).drop_last() =~= files.take(n));
        lemma_additions_fail(v, names, files, n + 1);
    }
}

/// The archive for mods, before it is serialized again. Files that the archive has once files were
/// replaced are not added.
pub open spec fn patched_for_mods(
    v: ArchiveView,
    prefs: LocalePreferences,
    mods: FileSystemView,
    names: SlabView,
) -> Option<ArchiveView> {
    match replaced(v, prefs, replacements(mods, prefs)) {
        Some(w) => match additions(w, names, mods.new_files) {
            Some(added) => add_files(w, added),
            None => None,
        },
        None => None,
    }
}

/// Patches the archive so that the files of mods are loaded in place of its own, and serializes it
/// again. Returns whether that was possible.
pub fn patch_for_mods(
    archive: &mut Archive,
    prefs: LocalePreferences,
    mods: &FileSystem,
    names: &HashMemorySlab,
) -> (r: bool)
    requires
        old(archive).wf(),
        mods.wf(),
        names.wf(),
        names@.sorted(),
    ensures
        match patched_for_mods(old(archive)@, prefs, mods@, names@) {
            Some(w) => r == w.serializable() && (r ==> final(archive)@ == w.reserialized()),
            None => !r,
        },
{
    let chosen_files = mods.files(prefs);
    let mut files: Vec<(Hash40, u32)> = Vec::new();
    for i in 0..chosen_files.len()
        invariant
            files@.len() == i,
            forall|j: int|
                0 <= j < i ==> #[trigger] files@[j] == (chosen_files@[j].0, chosen_files@[j].1.size),
    {
        let (path, file) = chosen_files[i];
        files.push((path, file.size()));
    }
    proof {
        assert(files@ =~= replacements(mods@, prefs));
    }
    if !replace_in_archive(archive, prefs, files.as_slice()) {
        return false;
    }
    let Some(added) = packages_for(archive, names, mods.new_files()) else {
        return false;
    };
    add_and_serialize(archive, &added)
}

} // verus!
