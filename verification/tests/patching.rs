use stratus::add_files::{package_for, NewFile};
use stratus::archive::Archive;
use stratus::data::{
    FileData, FileDescriptor, FileEntity, FileGroup, FileInfo, FileInfoFlags, FileLoadMethod, FilePackage,
    FilePath, SearchFolder, SearchPath, INFO_IS_REGIONAL, INFO_IS_RESHARED, PACKAGE_HAS_SUB_PACKAGE,
};
use stratus::hash40::Hash40;
use stratus::locale::{Language, Locale, LocalePreferences, Region};
use stratus::packages::retarget_files;
use stratus::patch::patch_archive;
use stratus::reshare::reshare_group_files;
use stratus::share::build_share_caches;
use stratus::unshare::{replace_file, replace_files};
use stratus::words::write_words;

fn prefs() -> LocalePreferences {
    LocalePreferences {
        region: Region::NorthAmerica,
        language: Language::English,
        locale: Locale::UsEnglish,
    }
}

fn empty_archive() -> Archive {
    let mut words = vec![0u32; 68];
    words.push(0);
    words.push(4);
    words.extend([0u32; 8]);
    let resource = write_words(&words);
    let search = write_words(&[0u32; 5]);
    Archive::open(&resource, &search).unwrap()
}

fn add_package(archive: &mut Archive, path: &str, group: u32, start: u32, count: u32) -> u32 {
    let mut package = FilePackage::new(path, "c00", "", group);
    package.set_info_range(start, count);
    archive.insert_file_package(package)
}

fn add_path(archive: &mut Archive, path: &str, entity: u32) -> u32 {
    let mut record = FilePath::from_utf8_path(path).unwrap();
    record.path_and_entity.set_data(entity);
    archive.insert_file_path(record)
}

const A: &str = "stage/x/a.bin";
const B: &str = "stage/x/b.bin";

/// A package with two files, of which the second shares the data of the first.
fn shared_archive() -> Archive {
    let mut archive = empty_archive();
    let mut group = FileGroup::new_for_new_package();
    group.set_compressed_size(0);
    assert_eq!(archive.push_file_group(group), 0);
    add_package(&mut archive, "stage/x", 0, 0, 2);
    let a = add_path(&mut archive, A, 0);
    let b = add_path(&mut archive, B, 0);
    archive.push_file_entity(FileEntity::new(0, 0));
    archive.push_file_data(FileData::new_for_unsharing(10, 0));
    archive.push_file_desc(FileDescriptor::new(0, 0, FileLoadMethod::Owned(0)));
    archive.push_file_desc(FileDescriptor::new(0, 0, FileLoadMethod::Unowned(0)));
    let flags = FileInfoFlags::from_bits_retain(0x10);
    archive.push_file_info(FileInfo::new(a, 0, 0, flags));
    archive.push_file_info(FileInfo::new(b, 0, 1, flags));
    archive
}

fn size_of(archive: &Archive, path: &str) -> u32 {
    let path = archive.lookup_file_path(path).unwrap();
    path.entity().info().desc().data().get().decompressed_size
}

#[test]
fn sections_that_are_too_short_are_not_opened() {
    assert!(Archive::open(&[], &[]).is_none());
    let search = write_words(&[0u32; 5]);
    assert!(Archive::open(&write_words(&[0u32; 69]), &search).is_none());
    // There has to be a bucket for paths if one is to be looked up.
    assert!(!Archive::open(&write_words(&[0u32; 70]), &search).unwrap().is_sorted());
    let mut words = [0u32; 72];
    words[69] = 1;
    assert!(Archive::open(&write_words(&words), &search).unwrap().is_sorted());
    assert!(Archive::open(&write_words(&words), &search[..16]).is_none());
}

#[test]
fn archive_round_trip() {
    let mut archive = shared_archive();
    assert!(archive.is_serializable());
    archive.reserialize();
    let resource = archive.resource_blob();
    let search = archive.search_blob();
    assert_eq!(resource.len() as u32, u32::from_le_bytes([resource[0], resource[1], resource[2], resource[3]]));
    let read = Archive::open(&resource, &search).unwrap();
    assert_eq!(read.resource_blob(), resource);
    assert_eq!(read.search_blob(), search);
    assert_eq!(read.num_file_path(), 2);
    assert_eq!(read.num_file_info(), 2);
    assert_eq!(size_of(&read, A), 10);
    assert_eq!(read.lookup_file_path(B).unwrap().index(), 1);
    assert!(read.lookup_file_path("stage/x/c.bin").is_none());
}

#[test]
fn sharing_is_found() {
    let archive = shared_archive();
    let mut shares = build_share_caches(&archive).unwrap();
    let list = shares.infos_of(Hash40::const_new(B).raw()).unwrap();
    assert_eq!(*list, vec![(0u32, 1u32)]);
    assert!(shares.infos_of(Hash40::const_new(A).raw()).is_none());
    assert_eq!(shares.take_dependents(0), Some(vec![1]));
    assert_eq!(shares.take_dependents(0), None);
}

#[test]
fn replacing_a_file_that_shares_gives_it_data_of_its_own() {
    let mut archive = shared_archive();
    let mut shares = build_share_caches(&archive).unwrap();
    assert!(replace_file(&mut archive, &mut shares, Hash40::const_new(B), 99, prefs()));
    assert_eq!(size_of(&archive, B), 99);
    assert_eq!(size_of(&archive, A), 10);
    let info = archive.read::<FileInfo>(1).unwrap();
    assert_eq!(info.entity, 1);
    assert_eq!(archive.read::<FileEntity>(1), Some(FileEntity::new(0, 1)));
    assert_eq!(archive.read::<FileGroup>(0).unwrap().compressed_size(), 0x10);
    let desc = archive.read::<FileDescriptor>(info.desc).unwrap();
    assert_eq!(desc.load_method(), FileLoadMethod::Owned(0));
}

#[test]
fn replacing_a_file_that_others_share_with_spares_them() {
    let mut archive = shared_archive();
    let mut shares = build_share_caches(&archive).unwrap();
    assert!(replace_file(&mut archive, &mut shares, Hash40::const_new(A), 77, prefs()));
    assert_eq!(size_of(&archive, A), 77);
    assert_eq!(size_of(&archive, B), 10);
    assert_eq!(archive.num_file_info(), 3);
    assert!(archive.read::<FileInfo>(2).unwrap().flags.intersects(INFO_IS_RESHARED));
    let desc = archive.read::<FileDescriptor>(1).unwrap();
    assert_eq!(desc.load_method(), FileLoadMethod::Unowned(1));
}

#[test]
fn replacing_both_files() {
    let mut archive = shared_archive();
    let mut shares = build_share_caches(&archive).unwrap();
    let files = [(Hash40::const_new(A), 77), (Hash40::const_new(B), 99)];
    assert!(replace_files(&mut archive, &mut shares, &files, prefs()));
    assert_eq!(size_of(&archive, A), 77);
    assert_eq!(size_of(&archive, B), 99);
}

#[test]
fn files_that_the_archive_does_not_have_are_not_replaced() {
    let mut archive = shared_archive();
    let mut shares = build_share_caches(&archive).unwrap();
    assert!(replace_file(&mut archive, &mut shares, Hash40::const_new("c"), 1, prefs()));
    assert_eq!(archive.num_file_data(), 1);
    assert_eq!(size_of(&archive, A), 10);
}

#[test]
fn regional_files_are_not_replaced() {
    let mut archive = shared_archive();
    let mut info = archive.read::<FileInfo>(1).unwrap();
    info.flags.set(INFO_IS_REGIONAL, true);
    archive.write(1, info);
    let mut shares = build_share_caches(&archive).unwrap();
    assert!(replace_file(&mut archive, &mut shares, Hash40::const_new(B), 99, prefs()));
    assert_eq!(archive.num_file_data(), 1);
}

#[test]
fn files_of_groups_get_paths_of_their_own() {
    let mut archive = shared_archive();
    // A second group holds the first file, and the package leads to it.
    let mut files = FileGroup::new_for_new_package();
    files.child_start = 0;
    files.child_count = 1;
    archive.push_file_group(files);
    let mut data_group = archive.read::<FileGroup>(0).unwrap();
    data_group.set_redirection(1);
    archive.write(0, data_group);
    let mut package = archive.read::<FilePackage>(0).unwrap();
    package.flags.bits = PACKAGE_HAS_SUB_PACKAGE;
    archive.write(0, package);
    assert!(reshare_group_files(&mut archive, prefs()));
    let reshared = Hash40::const_new(A).const_with(".reshared");
    let copy = archive.lookup_file_path(reshared).unwrap().index();
    let info = archive.read::<FileInfo>(0).unwrap();
    assert_eq!(info.path, copy);
    assert!(info.flags.intersects(INFO_IS_RESHARED));
    assert_eq!(
        archive.read::<FileDescriptor>(0).unwrap().load_method(),
        FileLoadMethod::PackageSkip(0)
    );
    assert_eq!(archive.lookup_file_path(A).unwrap().index(), 0);
}

fn add_folder(archive: &mut Archive) {
    let child = archive.insert_search_path(SearchPath::new(A, "stage/x", "a.bin", "bin"));
    let mut folder = SearchFolder::new("stage/x", "stage", "x");
    folder.set_first_child_index(child);
    archive.insert_search_folder(folder);
}

#[test]
fn patching_adds_replaces_and_serializes() {
    let mut archive = shared_archive();
    add_folder(&mut archive);
    let filepath = FilePath::from_utf8_path("stage/x/new.bin").unwrap();
    let package = package_for(&vec![b"stage".to_vec(), b"x".to_vec(), b"new.bin".to_vec()], &filepath);
    assert_eq!(package, Some(Hash40::const_new("stage/x")));
    let files = [(Hash40::const_new(B), 99)];
    let new_files = vec![(NewFile { filepath, size: 5 }, package)];
    assert!(patch_archive(&mut archive, prefs(), &files, &new_files));
    let read = Archive::open(&archive.resource_blob(), &archive.search_blob()).unwrap();
    assert_eq!(size_of(&read, A), 10);
    assert_eq!(size_of(&read, B), 99);
    assert_eq!(size_of(&read, "stage/x/new.bin"), 5);
    assert_eq!(read.lookup_file_path(A).unwrap().index(), 0);
    assert_eq!(read.lookup_file_path(B).unwrap().index(), 1);
    let package = read.lookup_file_package("stage/x").unwrap().get();
    assert_eq!((package.info_start, package.info_count), (2, 3));
    let search = read.lookup_search_path("stage/x/new.bin").unwrap();
    let first = read.lookup_search_folder("stage/x").unwrap().first_child();
    assert_eq!(first.next().index(), search.index());
    assert!(search.get().is_end());
}

#[test]
fn packages_of_new_files() {
    let fighter = FilePath::from_utf8_path("fighter/mario/model/body/c00/x.bin").unwrap();
    let parts = |s: &str| -> Vec<Vec<u8>> { s.split('/').map(|p| p.as_bytes().to_vec()).collect() };
    assert_eq!(
        package_for(&parts("fighter/mario/model/body/c00/x.bin"), &fighter),
        Some(Hash40::const_new("fighter/mario/c00"))
    );
    assert_eq!(package_for(&parts("fighter/mario/model/body/c001/x.bin"), &fighter), None);
    assert_eq!(package_for(&parts("fighter/mario"), &fighter), None);
    assert_eq!(package_for(&parts("sound/bank/x"), &fighter), None);
    assert_eq!(package_for(&Vec::new(), &fighter), None);
}

#[test]
fn files_without_a_package_are_not_added() {
    let mut archive = shared_archive();
    let filepath = FilePath::from_utf8_path("sound/new.bin").unwrap();
    assert!(patch_archive(&mut archive, prefs(), &[], &vec![(NewFile { filepath, size: 5 }, None)]));
    assert_eq!(archive.num_file_path(), 2);
}

#[test]
fn retargeting_a_missing_package_is_refused() {
    let mut archive = shared_archive();
    assert!(!retarget_files(&mut archive, "stage/y", "stage/x", "stage/z", prefs()));
}
