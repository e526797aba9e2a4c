//! What becomes of each file that a mod brings along.

use crate::access::{at, holds};
use crate::add_files::{package_of, NewFile};
use crate::archive::ArchiveView;
use crate::checksum::crc_continued;
use crate::data::{FileInfo, FilePath};
use crate::discover::{
    chosen, discovered, discovered_in_zip, discovered_on_disk, key_listing, law_files_put,
    law_key_listing, lemma_chosen, root_kind, DiscoveredFile, DiscoverError, Discovering,
    FileSystemView, FilesView, LoadableFile, RootKind,
};
use crate::hash40::{hash40, hash40_str, law_trim, Hash40};
use crate::hash_interner::SlabView;
use crate::locale::{law_numbers, LocalePreferences};
use crate::patch::{additions, replacements};
use crate::paths::{extension_in, path_file_name};
use crate::regional::{cached, detect, Regional};
use crate::res_threads::{law_mod_is_loaded, source, Source, SourceError};
use crate::strings::encode_utf8_concat;
use crate::words::le_bytes;
use vstd::prelude::*;
use vstd::utf8::encode_utf8;

verus! {

/// Of the files that replace a path, the one for the player's locale is loaded before the one for the
/// language, that before the one for the region, and that before the one for all. One that is for another
/// locale, language or region is never loaded.
pub proof fn law_preferred(v: FilesView, prefs: LocalePreferences)
    requires
        v.wf(),
    ensures
        ({
            let by_locale = v.at(Some(Regional::Locale(prefs.locale)));
            let by_language = v.at(Some(Regional::Language(prefs.language)));
            let by_region = v.at(Some(Regional::Region(prefs.region)));
            let has_language = FilesView::has_place(Some(Regional::Language(prefs.language)))
                && by_language is Some;
            &&& by_locale is Some ==> v.preferred(prefs) == by_locale
            &&& by_locale is None && has_language ==> v.preferred(prefs) == by_language
            &&& by_locale is None && !has_language && by_region is Some ==> v.preferred(prefs) == by_region
            &&& by_locale is None && !has_language && by_region is None ==> v.preferred(prefs) == v.at(None)
        }),
{
}

/// A file that was taken up replaces the path that its name stands for, where its code says, and nothing
/// else has changed: every other file is where it was. There was no file at its place before. The checksum
/// goes on with its path and its size. It is a new file if the path was not known, and new files keep their
/// order.
pub proof fn law_discovered(
    s: Discovering,
    root_idx: u32,
    path: Seq<char>,
    size: u32,
    file: LoadableFile,
    other: Hash40,
    place: Option<Regional>,
)
    requires
        s.files.wf(),
        FilesView::has_place(place),
    ensures
        discovered(s, root_idx, path, size, file) matches Ok(t) ==> {
            let (target, regional) = detect(path)->0;
            let hash = hash40_str(target);
            let (_, _, result) = cached(s.slab, s.cache, target)->0;
            let new = t.files.new_files;
            &&& t.files.wf()
            &&& detect(path) is Some
            &&& cached(s.slab, s.cache, target) is Some
            &&& t.files.files_of(hash.0).at(regional) == Some(
                DiscoveredFile { root_idx, size, regional, file },
            )
            &&& s.files.files_of(hash.0).at(regional) is None
            &&& other != hash || place != regional ==> t.files.files_of(other.0).at(place)
                == s.files.files_of(other.0).at(place)
            &&& t.files.roots == s.files.roots
            &&& t.files.checksum == crc_continued(
                crc_continued(s.files.checksum, encode_utf8(path)),
                le_bytes(size),
            )
            &&& result.is_new ==> new.len() == s.files.new_files.len() + 1 && new.last().size == size
                && FilePath::of_path(path) == Some(new.last().filepath) && new.drop_last()
                == s.files.new_files && regional is None
            &&& !result.is_new ==> new == s.files.new_files
        },
{
    if let Ok(t) = discovered(s, root_idx, path, size, file) {
        let (target, regional) = detect(path)->0;
        let hash = hash40_str(target);
        let files = s.files.files_of(hash.0);
        let found = DiscoveredFile { root_idx, size, regional, file };
        law_files_put(files, regional, found, place, arbitrary());
        assert(t.files.files_of(hash.0) == files.put(regional, found));
        assert forall|k: u64| #[trigger] t.files.files.contains_key(k) implies t.files.files[k].wf() by {
            if k != hash.0 {
                assert(s.files.files.contains_key(k));
            }
        }
        let (_, _, result) = cached(s.slab, s.cache, target)->0;
        if result.is_new {
            assert(t.files.new_files.drop_last() =~= s.files.new_files);
        }
    }
}

/// A file is loaded in place of its path as soon as it was taken up: one for all if there is no other for
/// the path, and one for the player's locale in any case.
pub proof fn law_discovered_loads(
    s: Discovering,
    root_idx: u32,
    path: Seq<char>,
    size: u32,
    file: LoadableFile,
    prefs: LocalePreferences,
)
    requires
        s.files.wf(),
    ensures
        discovered(s, root_idx, path, size, file) matches Ok(t) ==> {
            let (target, regional) = detect(path)->0;
            let hash = hash40_str(target);
            let found = DiscoveredFile { root_idx, size, regional, file };
            &&& regional is None && !s.files.files.contains_key(hash.0) ==> t.files.file_for(hash, prefs)
                == Some(found)
            &&& regional == Some(Regional::Locale(prefs.locale)) ==> t.files.file_for(hash, prefs) == Some(
                found,
            )
            &&& s.files.file_for(hash, prefs) is Some ==> t.files.file_for(hash, prefs) is Some
        },
{
    if let Ok(t) = discovered(s, root_idx, path, size, file) {
        let (target, regional) = detect(path)->0;
        let hash = hash40_str(target);
        let files = s.files.files_of(hash.0);
        let found = DiscoveredFile { root_idx, size, regional, file };
        law_files_put(files, regional, found, None, prefs);
        law_numbers(0, prefs.locale, prefs.region, prefs.language);
    }
}

/// Why a file is not taken up: there is something behind its name that is no code, the strings of its path
/// do not fit, it is new to the archive but for one region only or in no folder, there is no place for its
/// language, or there is a file at its place. In all other cases it is.
pub proof fn law_not_discovered(s: Discovering, root_idx: u32, path: Seq<char>, size: u32, file: LoadableFile)
    ensures
        ({
            let r = discovered(s, root_idx, path, size, file);
            let (target, regional) = detect(path)->0;
            let (slab, cache, result) = cached(s.slab, s.cache, target)->0;
            let taken = s.files.files_of(hash40_str(target).0).at(regional) is Some;
            &&& r == Err::<Discovering, DiscoverError>(DiscoverError::InvalidSuffix) <==> detect(path) is None
            &&& detect(path) is Some ==> {
                &&& r == Err::<Discovering, DiscoverError>(DiscoverError::SlabFull) <==> cached(
                    s.slab,
                    s.cache,
                    target,
                ) is None
                &&& cached(s.slab, s.cache, target) is Some ==> (r is Ok <==> (result.is_new ==> regional
                    is None && FilePath::of_path(path) is Some) && FilesView::has_place(regional) && !taken)
                &&& r matches Ok(t) ==> t.slab == slab && t.cache == cache
            }
        }),
{
}

/// Files in folders are loaded from the disk. Their paths have to fit a hash. Files in zip files are loaded
/// from where they lie in the zip file, with the size that they have when they are inflated, but for those
/// that are patches for other files, which are passed over.
pub proof fn law_discovered_sources(
    s: Discovering,
    root_idx: u32,
    path: Seq<char>,
    size: u32,
    compressed_size: u32,
    compressed_start: u32,
)
    requires
        s.files.wf(),
    ensures
        ({
            let (target, regional) = detect(path)->0;
            let k = hash40_str(target).0;
            let extension = extension_in(path_file_name(path));
            let patch = extension == Some("prcxml"@) || extension == Some("xmsbt"@) || extension == Some(
                "prcx"@,
            );
            let zipped = discovered_in_zip(s, root_idx, path, compressed_size, size, compressed_start);
            &&& encode_utf8(path).len() >= 256 ==> discovered_on_disk(s, root_idx, path, size) == Err::<
                Discovering,
                DiscoverError,
            >(DiscoverError::PathTooLong)
            &&& encode_utf8(path).len() < 256 ==> discovered_on_disk(s, root_idx, path, size) == discovered(
                s,
                root_idx,
                path,
                size,
                LoadableFile::UncompressedOnDisk,
            )
            &&& patch ==> zipped == Ok::<Discovering, DiscoverError>(s)
            &&& !patch ==> {
                zipped matches Ok(t) ==> t.files.files_of(k).at(regional) == Some(
                    DiscoveredFile {
                        root_idx,
                        size,
                        regional,
                        file: LoadableFile::ZipFile {
                            compressed_size,
                            decompressed_size: size,
                            compressed_start,
                        },
                    },
                )
            }
            &&& !patch ==> (zipped is Ok <==> discovered(
                s,
                root_idx,
                path,
                size,
                LoadableFile::ZipFile { compressed_size, decompressed_size: size, compressed_start },
            ) is Ok)
        }),
{
    law_discovered(
        s,
        root_idx,
        path,
        size,
        LoadableFile::ZipFile { compressed_size, decompressed_size: size, compressed_start },
        Hash40(0),
        None,
    );
}

/// Of the folder that mods are in, folders and zip files are mods, unless a dot is in front of their names.
pub proof fn law_root_kind(name: Seq<char>, extension: Option<Seq<char>>, is_dir: bool, is_file: bool)
    ensures
        ({
            let kind = root_kind(name, extension, is_dir, is_file);
            let hidden = name.len() > 0 && name[0] == '.';
            &&& kind == RootKind::Folder <==> !hidden && is_dir
            &&& kind == RootKind::Zip <==> !hidden && !is_dir && is_file && extension == Some("zip"@)
        }),
{
}

/// What is replaced: each path for which mods have a file under the preferences, once, with the size of that
/// file, in the order of the hashes.
pub proof fn law_replacements(files: FileSystemView, prefs: LocalePreferences, hash: Hash40)
    requires
        files.files.dom().finite(),
    ensures
        ({
            let r = replacements(files, prefs);
            &&& forall|i: int, j: int| 0 <= i < j < r.len() ==> r[i].0.0 < r[j].0.0
            &&& forall|i: int|
                0 <= i < r.len() ==> files.file_for((#[trigger] r[i]).0, prefs) is Some && files.file_for(
                    r[i].0,
                    prefs,
                )->0.size == r[i].1
            &&& files.file_for(hash, prefs) matches Some(f) ==> r.contains((hash, f.size))
        }),
{
    let keys = key_listing(files.files.dom());
    law_key_listing(files.files.dom());
    lemma_chosen(files, keys, prefs);
    let c = chosen(files, keys, prefs);
    let r = replacements(files, prefs);
    assert forall|i: int| 0 <= i < r.len() implies r[i] == (c[i].0, c[i].1.size) by {}
    if let Some(f) = files.file_for(hash, prefs) {
        assert(files.files.dom().contains(hash.0));
        assert(keys.contains(hash.0));
        let b = keys.index_of(hash.0);
        assert(files.file_for(Hash40(keys[b]), prefs) is Some);
        let i = choose|i: int| 0 <= i < c.len() && (#[trigger] c[i]).0 == Hash40(keys[b]);
        assert(r[i] == (hash, f.size));
    }
}

/// What is added: every new file, in its order, with the package that its path says. A file whose name is
/// not known is one that the archive has.
pub proof fn law_additions(v: ArchiveView, names: SlabView, files: Seq<NewFile>, j: int)
    requires
        0 <= j < files.len(),
    ensures
        additions(v, names, files) matches Some(r) ==> {
            let path = files[j].filepath.spec_path();
            &&& r.len() == files.len()
            &&& r[j].0 == files[j]
            &&& names.components_of(path) matches Some(parts) ==> r[j].1 == package_of(
                parts,
                files[j].filepath,
            )
            &&& names.components_of(path) is None ==> r[j].1 is None && v.find_file_path(path) is Some
        },
        additions(v, names, files) is None ==> exists|k: int|
            0 <= k < files.len() && names.components_of((#[trigger] files[k]).filepath.spec_path()) is None
                && v.find_file_path(files[k].filepath.spec_path()) is None,
    decreases files.len(),
{
    let front = files.drop_last();
    let k = files.len() - 1;
    assert(files[k] == files.last());
    if j < k {
        law_additions(v, names, front, j);
    } else if k > 0 {
        law_additions(v, names, front, 0);
    }
    if additions(v, names, front) is None {
        if k > 0 {
            let m = choose|m: int|
                0 <= m < front.len() && names.components_of(
                    (#[trigger] front[m]).filepath.spec_path(),
                ) is None && v.find_file_path(front[m].filepath.spec_path()) is None;
            assert(files[m] == front[m]);
        }
    }
    if k == 0 {
        assert(front =~= Seq::empty());
    }
}

/// A file of a stage belongs to the package of its folder.
pub proof fn law_stage_package(parts: Seq<Seq<u8>>, path: FilePath, folder: Seq<u8>)
    requires
        parts.len() > 0,
        parts[0] == encode_utf8("stage"@),
        path.spec_parent() == hash40(folder + encode_utf8("/"@)),
    ensures
        package_of(parts, path) == Some(hash40(folder)),
{
    law_trim(folder, encode_utf8("/"@));
    lemma_stage_is_no_fighter();
}

proof fn lemma_stage_is_no_fighter()
    ensures
        encode_utf8("stage"@) != encode_utf8("fighter"@),
{
    reveal_strlit("stage");
    reveal_strlit("fighter");
    vstd::utf8::encode_utf8_decode_utf8("stage"@);
    vstd::utf8::encode_utf8_decode_utf8("fighter"@);
    assert("stage"@.len() != "fighter"@.len());
}

/// A file of a fighter's costume, such as `fighter/mario/model/body/c00/model.numdlb`, belongs to the package
/// of the costume, `fighter/mario/c00`. Other files of fighters belong to no package that is known, and
/// neither do files that are not of fighters or stages.
pub proof fn law_fighter_package(parts: Seq<Seq<u8>>, path: FilePath)
    ensures
        ({
            let fighter = parts.len() > 0 && parts[0] == encode_utf8("fighter"@);
            let costume = parts.len() > 4 && parts[4].len() == 3 && parts[4][0] == 0x63;
            &&& fighter && costume ==> package_of(parts, path) == Some(
                hash40(encode_utf8("fighter/"@) + parts[1] + encode_utf8("/"@) + parts[4]),
            )
            &&& fighter && !costume ==> package_of(parts, path) is None
            &&& parts.len() == 0 ==> package_of(parts, path) is None
            &&& !fighter && parts.len() > 0 && parts[0] != encode_utf8("stage"@) ==> package_of(parts, path)
                is None
        }),
{
    reveal_strlit("fighter/");
    reveal_strlit("fighter");
    reveal_strlit("/");
    assert("fighter/"@ =~= "fighter"@ + "/"@);
    encode_utf8_concat("fighter"@, "/"@);
}

/// A file that a mod brings along is loaded in place of the game's, wherever it lies: once it was taken up as
/// the one file for its path, or as the one for the player's locale, every info that has the path, stands for
/// no earlier data and is neither localized nor regional is loaded from it.
pub proof fn law_discovered_is_loaded(
    s: Discovering,
    root_idx: u32,
    path: Seq<char>,
    size: u32,
    file: LoadableFile,
    v: ArchiveView,
    prefs: LocalePreferences,
    i: u32,
)
    requires
        s.files.wf(),
        holds::<FileInfo>(v, i),
        holds::<FilePath>(v, at::<FileInfo>(v, i).path),
        at::<FileInfo>(v, i).flags.bits & 0x8000_0000 == 0,
        at::<FileInfo>(v, i).flags.bits & 0x1_0000 == 0,
        at::<FileInfo>(v, i).flags.bits & 0x2_0000 == 0,
        detect(path) matches Some((target, regional)) ==> {
            &&& at::<FilePath>(v, at::<FileInfo>(v, i).path).spec_path() == hash40_str(target)
            &&& regional is None && !s.files.files.contains_key(hash40_str(target).0) || regional == Some(
                Regional::Locale(prefs.locale),
            )
        },
    ensures
        discovered(s, root_idx, path, size, file) matches Ok(t) ==> {
            let (target, regional) = detect(path)->0;
            source(v, t.files, prefs, i) == Ok::<Source, SourceError>(
                Source::Mod {
                    path: hash40_str(target),
                    file: DiscoveredFile { root_idx, size, regional, file },
                    alignment: at::<FileInfo>(v, i).flags.bits & 0x7FFF,
                },
            )
        },
{
    if let Ok(t) = discovered(s, root_idx, path, size, file) {
        let (target, regional) = detect(path)->0;
        law_discovered_loads(s, root_idx, path, size, file, prefs);
        law_mod_is_loaded(
            v,
            t.files,
            prefs,
            i,
            DiscoveredFile { root_idx, size, regional, file },
        );
    }
}

} // verus!
