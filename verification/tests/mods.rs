use std::io::Write;
use stratus::archive::Archive;
use stratus::data::{
    FileData, FileDescriptor, FileEntity, FileGroup, FileInfo, FileInfoFlags, FileLoadMethod, FilePackage,
    FilePath, INFO_IS_LOCALIZED, INFO_IS_RESHARED,
};
use stratus::discover::{
    classify_root, DiscoverError, DiscoveredFile, FileSystem, LoadableFile, RootKind,
};
use stratus::filesystem::{
    list_bytes_fit, Discovery, FileIndex, FileSystem as FileList, HashedFile, Regionalized,
};
use stratus::hash40::Hash40;
use stratus::hash_interner::{HashMemorySlab, InternerCache};
use stratus::loading::{
    decompress_loaded_file, into_compressed_ptr, into_real_ptr, join_full_path, load_zip_file, Loaded,
    COMPRESSED_PTR_BIT,
};
use stratus::locale::{preferences_from_save, Language, Locale, LocalePreferences, Region};
use stratus::patch::patch_for_mods;
use stratus::regional::{detect_regional, parse_code, split_suffix, Regional, Suffix};
use stratus::res_threads::{
    absolute_index, arcrop_api_version, arcrop_is_mod_enabled, copy_step, inflate_step, load_mode,
    single_request, source_of, ApiVersion, CopyStep, InflateStep, IoSwap, PatchedPointer, Source,
    SourceError, LARGE_LOAD, NO_LOAD, SMALL_LOAD,
};
use stratus::words::write_words;

fn prefs() -> LocalePreferences {
    LocalePreferences {
        region: Region::NorthAmerica,
        language: Language::English,
        locale: Locale::UsEnglish,
    }
}

#[test]
fn codes_of_locales_languages_and_regions() {
    assert_eq!(Locale::from_str("eu_nl"), Some(Locale::Dutch));
    assert_eq!(Locale::Dutch.as_str(), "eu_nl");
    assert_eq!(Locale::from_str("nl_eu"), None);
    assert_eq!(parse_code("us_fr"), Some(Regional::Locale(Locale::UsFrench)));
    assert_eq!(parse_code("zzz"), None);
    assert_eq!(parse_code("us"), Some(Regional::Region(Region::NorthAmerica)));
    assert_eq!(parse_code(Language::German.as_str()), Some(Regional::Language(Language::German)));
    assert_eq!(Locale::Taiwanese.index(), 13);
}

#[test]
fn preferences_of_the_player() {
    let p = preferences_from_save(Some(2), 1);
    assert_eq!((p.language, p.locale, p.region), (Language::French, Locale::UsFrench, Region::NorthAmerica));
    let p = preferences_from_save(Some(2), 4);
    assert_eq!((p.locale, p.region), (Locale::EuFrench, Region::Europe));
    let p = preferences_from_save(None, 0);
    assert_eq!((p.language, p.locale), (Language::English, Locale::EuEnglish));
    let p = preferences_from_save(Some(200), 15);
    assert_eq!((p.language, p.locale), (Language::English, Locale::UsEnglish));
    assert_eq!(Language::from_u8(0), None);
    assert_eq!(Language::from_u8(10), Some(Language::Korean));
}

#[test]
fn codes_are_taken_off_file_names() {
    assert_eq!(
        detect_regional("ui/message/msg+us_en.msbt"),
        Some((String::from("ui/message/msg.msbt"), Some(Regional::Locale(Locale::UsEnglish))))
    );
    assert_eq!(detect_regional("ui/msg.msbt"), Some((String::from("ui/msg.msbt"), None)));
    assert_eq!(detect_regional("ui/msg+what.msbt"), None);
    assert_eq!(
        detect_regional("msg+eu"),
        Some((String::from("/msg"), Some(Regional::Region(Region::Europe))))
    );
    assert!(matches!(split_suffix("name"), Suffix::Missing));
    assert!(matches!(split_suffix("name+"), Suffix::Invalid));
}

#[test]
fn entries_of_the_folder_with_mods() {
    assert_eq!(classify_root("mod", "sd:/mods/mod", true, false), RootKind::Folder);
    assert_eq!(classify_root(".mod", "sd:/mods/.mod", true, false), RootKind::Ignored);
    assert_eq!(classify_root("mod.zip", "sd:/mods/mod.zip", false, true), RootKind::Zip);
    assert_eq!(classify_root("mod.txt", "sd:/mods/mod.txt", false, true), RootKind::Ignored);
    assert_eq!(classify_root("zip", "sd:/mods/zip", false, true), RootKind::Ignored);
}

fn known_names(names: &[&str]) -> (HashMemorySlab, InternerCache) {
    let mut slab = HashMemorySlab::new();
    let mut cache = slab.create_cache();
    for name in names {
        assert!(slab.intern_path(&mut cache, name).is_some());
    }
    (slab, cache)
}

const A: &str = "stage/x/a.bin";

#[test]
fn files_are_discovered_and_chosen_by_preference() {
    let (mut slab, mut cache) = known_names(&[A]);
    let mut files = FileSystem::new();
    let root = files.add_folder("sd:/mods/one").unwrap();
    assert_eq!(files.discover_on_disk(&mut slab, &mut cache, root, A, 10), Ok(()));
    assert_eq!(
        files.discover_on_disk(&mut slab, &mut cache, root, "stage/x/a+us_en.bin", 20),
        Ok(())
    );
    assert_eq!(files.discover_on_disk(&mut slab, &mut cache, root, "stage/x/a+us.bin", 30), Ok(()));
    assert!(files.new_files().is_empty());
    assert!(slab.finalize(cache));
    let hash = Hash40::const_new(A);
    assert_eq!(files.get_file(hash, prefs()).unwrap().size(), 20);
    let mut other = prefs();
    other.locale = Locale::UsFrench;
    let file = files.get_file(hash, other).unwrap();
    assert_eq!(file.size(), 30);
    assert_eq!(
        files.get_full_file_path(hash, &file, &slab),
        Some(b"sd:/mods/one/stage/x/a+us.bin".to_vec())
    );
    other.region = Region::Japan;
    let file = files.get_file(hash, other).unwrap();
    assert_eq!(file.size(), 10);
    assert_eq!(
        files.get_full_file_path(hash, &file, &slab),
        Some(b"sd:/mods/one/stage/x/a.bin".to_vec())
    );
    assert_eq!(files.files(other).len(), 1);
    assert!(files.get_file(Hash40::const_new("other"), other).is_none());
}

#[test]
fn files_that_cannot_be_taken_up() {
    let (mut slab, mut cache) = known_names(&[A]);
    let mut files = FileSystem::new();
    let root = files.add_folder("sd:/mods/one").unwrap();
    let long: String = "x".repeat(256);
    assert_eq!(
        files.discover_on_disk(&mut slab, &mut cache, root, &long, 1),
        Err(DiscoverError::PathTooLong)
    );
    assert_eq!(
        files.discover_on_disk(&mut slab, &mut cache, root, "stage/x/a+q.bin", 1),
        Err(DiscoverError::InvalidSuffix)
    );
    assert_eq!(
        files.discover_on_disk(&mut slab, &mut cache, root, "stage/x/new+us.bin", 1),
        Err(DiscoverError::NewFileIsRegional)
    );
    assert_eq!(
        files.discover_on_disk(&mut slab, &mut cache, root, "stage/x/a+ko.bin", 1),
        Err(DiscoverError::NoPlace)
    );
    assert_eq!(files.discover_on_disk(&mut slab, &mut cache, root, A, 1), Ok(()));
    assert_eq!(
        files.discover_on_disk(&mut slab, &mut cache, root, A, 1),
        Err(DiscoverError::Duplicate)
    );
}

#[test]
fn new_files_are_noted() {
    let (mut slab, mut cache) = known_names(&[A]);
    let mut files = FileSystem::new();
    let root = files.add_zip("sd:/mods/one.zip").unwrap();
    assert_eq!(
        files.discover_in_zip(&mut slab, &mut cache, root, "stage/x/new.bin", 3, 7, 100),
        Ok(())
    );
    assert_eq!(
        files.discover_in_zip(&mut slab, &mut cache, root, "stage/x/left.prcxml", 3, 7, 100),
        Ok(())
    );
    assert_eq!(files.new_files().len(), 1);
    assert_eq!(files.new_files()[0].size, 7);
    assert_eq!(files.new_files()[0].filepath.path(), Hash40::const_new("stage/x/new.bin"));
    let file = files.get_file(Hash40::const_new("stage/x/new.bin"), prefs()).unwrap();
    assert_eq!(file.compressed_size(), Some(3));
}

#[test]
fn checksums_follow_paths_and_sizes() {
    let (mut slab, mut cache) = known_names(&[A]);
    let mut files = FileSystem::new();
    assert_eq!(files.checksum(), 0);
    let root = files.add_folder("sd:/mods/a").unwrap();
    assert_eq!(files.checksum(), 0xb7d1a363);
    let mut whole: Vec<u8> = b"sd:/mods/a".to_vec();
    files.discover_on_disk(&mut slab, &mut cache, root, A, 0x01020304).unwrap();
    whole.extend(A.as_bytes());
    whole.extend([4, 3, 2, 1]);
    assert_eq!(files.checksum(), Hash40::const_new_bytes(&whole).crc32());
}

#[test]
fn list_of_files_round_trip() {
    let (mut slab, mut cache) = known_names(&[A, "stage/x/b.bin"]);
    let mut found = Discovery::new();
    let one = found.add_root("sd:/mods/one").unwrap();
    let two = found.add_root("sd:/mods/two.zip").unwrap();
    let zipped =
        LoadableFile::ZipFile { compressed_size: 3, decompressed_size: 70, compressed_start: 100 };
    let disk = LoadableFile::UncompressedOnDisk;
    assert_eq!(found.add_file(&mut slab, &mut cache, one, A, 10, disk), Ok(()));
    assert_eq!(found.add_file(&mut slab, &mut cache, one, "stage/x/a+us_en.bin", 20, disk), Ok(()));
    assert_eq!(found.add_file(&mut slab, &mut cache, two, "stage/x/b.bin", 70, zipped), Ok(()));
    let bytes = found.as_slab().unwrap();
    assert!(list_bytes_fit(&bytes));
    let list = FileList::from_bytes(&bytes);
    assert!(list.is_valid());
    assert_eq!(list.raw(), bytes);
    let file = list.lookup_file(Hash40::const_new(A), prefs()).unwrap();
    assert_eq!(list.get_decompressed_size(&file), 20);
    assert_eq!(list.get_root(file.root), b"sd:/mods/one".to_vec());
    let mut other = prefs();
    other.locale = Locale::German;
    let file = list.lookup_file(Hash40::const_new(A), other).unwrap();
    assert_eq!(list.get_decompressed_size(&file), 10);
    let file = list.lookup_file(Hash40::const_new("stage/x/b.bin"), other).unwrap();
    assert_eq!(list.get_root(file.root), b"sd:/mods/two.zip".to_vec());
    assert!(file.index.is_compressed());
    let packed = list.compressed_file(&file).unwrap();
    assert_eq!((packed.compressed_start, packed.compressed_size, packed.decompressed_size), (100, 3, 70));
    assert!(list.lookup_file(Hash40::const_new("stage/x/c.bin"), other).is_none());
    assert_eq!(list.iter_file_paths(other).len(), 2);
    let mut sizes: Vec<u32> = list.iter_file_sizes(other).iter().map(|s| s.1).collect();
    sizes.sort();
    assert_eq!(sizes, vec![10, 70]);
    assert!(!list_bytes_fit(&bytes[..8]));
}

#[test]
fn long_paths_on_disk_are_not_listed() {
    let (mut slab, mut cache) = known_names(&[A]);
    let mut found = Discovery::new();
    let one = found.add_root("sd:/mods/one").unwrap();
    let long: String = format!("stage/{}", "x".repeat(250));
    assert_eq!(long.len(), 256);
    assert_eq!(
        found.add_file(&mut slab, &mut cache, one, &long, 10, LoadableFile::UncompressedOnDisk),
        Err(DiscoverError::PathTooLong)
    );
    let zipped =
        LoadableFile::ZipFile { compressed_size: 3, decompressed_size: 70, compressed_start: 100 };
    assert_eq!(
        found.add_file(&mut slab, &mut cache, one, &long[..255], 10, LoadableFile::UncompressedOnDisk),
        Ok(())
    );
    let result = found.add_file(&mut slab, &mut cache, one, &long, 70, zipped);
    assert_ne!(result, Err(DiscoverError::PathTooLong));
}

#[test]
fn indices_of_files_are_packed() {
    let index = FileIndex::from_parts(Regionalized::Language(3), true, 0x1234);
    assert_eq!(index.get_regionalized(), Regionalized::Language(3));
    assert!(index.is_compressed());
    assert_eq!(index.index(), 0x1234);
    assert_eq!(Regionalized::from_regional(None), Regionalized::Base);
    assert_eq!(
        Regionalized::from_regional(Some(Regional::Locale(Locale::UsFrench))),
        Regionalized::Locale(2)
    );
    let hashed = HashedFile::new(Hash40::const_new("abc"), 77);
    assert_eq!(hashed.path(), Hash40::const_new("abc"));
    assert_eq!(hashed.index(), 77);
}

#[test]
fn marks_of_compressed_buffers() {
    assert_eq!(into_compressed_ptr(0x1000), Some(COMPRESSED_PTR_BIT + 0x1000));
    assert_eq!(into_real_ptr(COMPRESSED_PTR_BIT + 0x1000), Some(0x1000));
    assert_eq!(into_real_ptr(0x1000), None);
    assert_eq!(into_compressed_ptr(COMPRESSED_PTR_BIT), None);
}

#[test]
fn compressed_files_are_inflated() {
    let content: Vec<u8> = (0..1000u32).map(|i| (i % 7) as u8).collect();
    let mut encoder =
        flate2::write::DeflateEncoder::new(Vec::new(), flate2::Compression::default());
    encoder.write_all(&content).unwrap();
    let packed = encoder.finish().unwrap();
    assert_ne!(packed, content);
    let loaded = load_zip_file(packed.clone(), packed.len() as u32, 1000);
    assert!(matches!(loaded, Loaded::Compressed(_)));
    assert_eq!(decompress_loaded_file(loaded, 1000), Some(content.clone()));
    assert_eq!(decompress_loaded_file(Loaded::Compressed(vec![0xFF; 4]), 1000), None);
    let loaded = load_zip_file(content.clone(), 1000, 1000);
    assert!(matches!(loaded, Loaded::Ready(_)));
    assert_eq!(decompress_loaded_file(loaded, 1000), Some(content));
}

#[test]
fn where_files_lie() {
    assert_eq!(join_full_path("sd:/m", b"a/b.bin", None), Some(b"sd:/m/a/b.bin".to_vec()));
    assert_eq!(
        join_full_path("sd:/m", b"a/b.bin", Some(Regional::Locale(Locale::UsFrench))),
        Some(b"sd:/m/a/b+us_fr.bin".to_vec())
    );
    assert_eq!(join_full_path("sd:/m", b"a/b", Some(Regional::Region(Region::Europe))), None);
}

fn small_archive(flags: u32) -> Archive {
    let mut words = vec![0u32; 68];
    words.push(0);
    words.push(4);
    words.extend([0u32; 8]);
    let mut archive = Archive::open(&write_words(&words), &write_words(&[0u32; 5])).unwrap();
    archive.push_file_group(FileGroup::new_for_new_package());
    let mut package = FilePackage::new("stage/x", "x", "stage", 0);
    package.set_info_range(0, 1);
    archive.insert_file_package(package);
    let mut path = FilePath::from_utf8_path(A).unwrap();
    path.path_and_entity.set_data(0);
    archive.insert_file_path(path);
    archive.push_file_entity(FileEntity::new(0, 0));
    archive.push_file_data(FileData::new_for_unsharing(10, 0));
    archive.push_file_desc(FileDescriptor::new(0, 0, FileLoadMethod::Owned(0)));
    archive.push_file_info(FileInfo::new(0, 0, 0, FileInfoFlags::from_bits_retain(flags)));
    archive
}

fn mods_with(names: &[&str], path: &str, size: u32) -> (FileSystem, HashMemorySlab) {
    let (mut slab, mut cache) = known_names(names);
    let mut files = FileSystem::new();
    let root = files.add_folder("sd:/mods/one").unwrap();
    files.discover_on_disk(&mut slab, &mut cache, root, path, size).unwrap();
    assert!(slab.finalize(cache));
    (files, slab)
}

#[test]
fn where_the_data_of_a_file_comes_from() {
    let (mods, _names) = mods_with(&[A], A, 42);
    let source = source_of(&small_archive(0x1000), &mods, prefs(), 0).unwrap();
    match source {
        Source::Mod { path, file, alignment } => {
            assert_eq!(path, Hash40::const_new(A));
            assert_eq!(file.size(), 42);
            assert_eq!(alignment, 0x1000);
        }
        Source::Game => panic!("the file is replaced"),
    }
    assert_eq!(
        source_of(&small_archive(0x10 | INFO_IS_RESHARED), &mods, prefs(), 0),
        Ok(Source::Game)
    );
    assert_eq!(
        source_of(&small_archive(0x10 | INFO_IS_LOCALIZED), &mods, prefs(), 0),
        Ok(Source::Game)
    );
    let archive = small_archive(0x10);
    assert_eq!(source_of(&archive, &FileSystem::new(), prefs(), 0), Ok(Source::Game));
    assert_eq!(source_of(&archive, &mods, prefs(), 1), Err(SourceError::InvalidInfo));
    let mut broken = small_archive(0x10);
    let mut info = broken.read::<FileInfo>(0).unwrap();
    info.set_path(9);
    broken.write(0, info);
    assert_eq!(source_of(&broken, &mods, prefs(), 0), Err(SourceError::MissingPath));
}

#[test]
fn mods_are_patched_in() {
    let (mods, names) = mods_with(&[A], A, 42);
    let mut archive = small_archive(0x10);
    assert!(patch_for_mods(&mut archive, prefs(), &mods, &names));
    let read = Archive::open(&archive.resource_blob(), &archive.search_blob()).unwrap();
    let path = read.lookup_file_path(A).unwrap();
    assert_eq!(path.entity().info().desc().data().get().decompressed_size, 42);
}

#[test]
fn a_new_file_without_a_name_is_refused() {
    let (mods, _names) = mods_with(&[A], "stage/x/new.bin", 42);
    let mut archive = small_archive(0x10);
    let mut other = HashMemorySlab::new();
    let cache = other.create_cache();
    assert!(other.finalize(cache));
    assert!(!patch_for_mods(&mut archive, prefs(), &mods, &other));
}

fn some_file() -> DiscoveredFile {
    DiscoveredFile { root_idx: 0, size: 50, regional: None, file: LoadableFile::UncompressedOnDisk }
}

#[test]
fn what_the_threads_do_for_a_file() {
    let path = Hash40::const_new(A);
    let source = Source::Mod { path, file: some_file(), alignment: 16 };
    assert_eq!(inflate_step(Source::Game, 4), InflateStep::Allocate);
    assert_eq!(inflate_step(source, 4), InflateStep::TakeLoaded);
    assert_eq!(inflate_step(source, 0), InflateStep::Load { path, file: some_file() });
    let game = single_request(Source::Game, 99, 0x1000);
    assert_eq!((game.read, game.to_read, game.size, game.address), (None, Some(99), 99, 0x1000));
    let patched = single_request(source, 99, 0x1000);
    assert_eq!(
        (patched.read, patched.to_read, patched.size, patched.address),
        (Some(50), None, 50, 0x1004)
    );
    assert_eq!(absolute_index(3, 4), Some(7));
    assert_eq!(absolute_index(u32::MAX, 1), None);
}

#[test]
fn what_is_copied() {
    let mut loaded = true;
    assert_eq!(load_mode(&mut loaded, 10, 5), NO_LOAD);
    assert!(!loaded);
    assert_eq!(load_mode(&mut loaded, 5, 5), SMALL_LOAD);
    assert_eq!(load_mode(&mut loaded, 6, 5), LARGE_LOAD);
    assert_eq!(copy_step(SMALL_LOAD), (0, CopyStep::Copy));
    assert_eq!(copy_step(NO_LOAD), (1, CopyStep::Skip));
}

#[test]
fn a_buffer_is_handed_over_once() {
    let mut pointer = PatchedPointer::new();
    assert_eq!(pointer.take(5), 5);
    assert!(pointer.put(9));
    assert!(!pointer.put(10));
    assert_eq!(pointer.take(5), 10);
    assert_eq!(pointer.take(5), 5);
}

#[test]
fn buffers_are_swapped_until_the_file_is_read() {
    assert_eq!(IoSwap::start(100, 50, 50, 1, 200), None);
    let swap = IoSwap::start(80, 50, 50, 1, 200).unwrap();
    assert_eq!((swap.threshold, swap.target), (30, 100));
    assert!(swap.needs_buffer());
    let swap = swap.swap(7, 500).unwrap();
    assert_eq!((swap.offset, swap.left, swap.data, swap.remaining), (80, 20, 7, 170));
    assert_eq!(swap.threshold, 80);
    assert!(!swap.needs_buffer());
    assert_eq!(swap.offset + swap.left, swap.target);
    assert_eq!(swap.swap(7, 500), None);
}

#[test]
fn interface_for_other_plugins() {
    assert_eq!(arcrop_api_version(), ApiVersion { major: 1, minor: 8 });
    assert!(arcrop_is_mod_enabled(0));
}
