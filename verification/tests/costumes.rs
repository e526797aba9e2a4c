use stratus::archive::Archive;
use stratus::data::{
    FileData, FileDescriptor, FileEntity, FileGroup, FileInfo, FileInfoFlags, FileLoadMethod, FilePackage,
    FilePackageChild, FilePackageFlags, FilePath, SearchFolder, SearchPath, PACKAGE_IS_LOCALIZED,
    PACKAGE_IS_REGIONAL, PACKAGE_SYM_LINK_IS_REGIONAL,
};
use stratus::hash40::Hash40;
use stratus::hash_interner::HashMemorySlab;
use stratus::hash_list::from_lines;
use stratus::locale::{Language, Locale, LocalePreferences, Region};
use stratus::packages::{duplicate_fighter_costume_package, retarget_files};
use stratus::words::write_words;

fn prefs() -> LocalePreferences {
    LocalePreferences {
        region: Region::NorthAmerica,
        language: Language::English,
        locale: Locale::UsEnglish,
    }
}

fn names(lines: &[&str]) -> HashMemorySlab {
    let lines: Vec<String> = lines.iter().map(|s| String::from(*s)).collect();
    from_lines(&lines).unwrap()
}

fn empty_archive() -> Archive {
    let mut words = vec![0u32; 68];
    words.push(0);
    words.push(4);
    words.extend([0u32; 8]);
    Archive::open(&write_words(&words), &write_words(&[0u32; 5])).unwrap()
}

/// Adds a file with data of its own, and returns the index of its info.
fn add_file(archive: &mut Archive, path: &str, size: u32) -> u32 {
    let entity = archive.num_file_entity() as u32;
    let info = archive.num_file_info() as u32;
    let mut record = FilePath::from_utf8_path(path).unwrap();
    record.path_and_entity.set_data(entity);
    let path = archive.insert_file_path(record);
    archive.push_file_entity(FileEntity::new(0, info));
    let data = archive.push_file_data(FileData::new_for_unsharing(size, 0));
    let desc = archive.push_file_desc(FileDescriptor::new(0, data, FileLoadMethod::Owned(0)));
    archive.push_file_info(FileInfo::new(path, entity, desc, FileInfoFlags::from_bits_retain(0x10)))
}

fn size_of(archive: &Archive, path: &str) -> u32 {
    let path = archive.lookup_file_path(path).unwrap();
    path.entity().info().desc().data().get().decompressed_size
}

fn costume_archive() -> Archive {
    let mut archive = empty_archive();
    archive.push_file_group(FileGroup::new_for_new_package());
    let first = add_file(&mut archive, "fighter/mario/c00/a.bin", 10);
    let mut package = FilePackage::new("fighter/mario/c00", "c00", "fighter/mario", 0);
    package.set_info_range(first, 1);
    // A package without children still names a place behind a child of some package.
    archive.push_file_package_child(FilePackageChild::new(Hash40::const_new("other"), 0));
    package.set_child_package_range(1, 0);
    archive.insert_file_package(package);
    let link =
        archive.insert_search_path(SearchPath::new_folder("fighter/mario/c00", "fighter/mario", "c00"));
    let mut folder = SearchFolder::new("fighter/mario", "fighter", "mario");
    folder.set_first_child_index(link);
    archive.insert_search_folder(folder);
    archive
}

#[test]
fn a_costume_is_copied() {
    let mut archive = costume_archive();
    let copy = duplicate_fighter_costume_package(
        &mut archive,
        Hash40::const_new("mario"),
        Hash40::const_new("fighter/mario/c00"),
        Hash40::const_new("c08"),
        &names(&["fighter/mario/c00/a.bin"]),
    );
    assert_eq!(copy, Some(1));
    let package = archive.lookup_file_package("fighter/mario/c08").unwrap();
    assert_eq!(package.index(), 1);
    assert_eq!(package.get().name(), Hash40::const_new("c08"));
    assert_eq!(package.get().parent(), Hash40::const_new("fighter/mario"));
    assert_eq!((package.get().info_start, package.get().info_count), (1, 1));
    // The file of the copy has a path of its own and shares the data.
    let path = archive.lookup_file_path("fighter/mario/c08/a.bin").unwrap();
    assert_eq!(archive.read::<FileInfo>(1).unwrap().path, path.index());
    assert_eq!(path.get().parent(), Hash40::const_new("fighter/mario/c08/"));
    assert_eq!(size_of(&archive, "fighter/mario/c08/a.bin"), 10);
    let desc = archive.read::<FileDescriptor>(1).unwrap();
    assert_eq!(desc.load_method(), FileLoadMethod::Unowned(0));
    // The folder of the costume lies beside the old one, with the file in it.
    let folders = archive.lookup_search_folder("fighter/mario").unwrap();
    let second = folders.first_child().next();
    assert_eq!(second.get().path(), Hash40::const_new("fighter/mario/c08"));
    let folder = archive.lookup_search_folder("fighter/mario/c08").unwrap();
    assert_eq!(folder.first_child().get().path(), Hash40::const_new("fighter/mario/c08/a.bin"));
    // What was there is where it was.
    assert_eq!(archive.lookup_file_package("fighter/mario/c00").unwrap().index(), 0);
    assert_eq!(archive.lookup_file_path("fighter/mario/c00/a.bin").unwrap().index(), 0);
}

#[test]
fn a_copied_package_keeps_named_flags_only() {
    let mut archive = costume_archive();
    let mut package = archive.read::<FilePackage>(0).unwrap();
    let flags = PACKAGE_IS_LOCALIZED | PACKAGE_IS_REGIONAL | PACKAGE_SYM_LINK_IS_REGIONAL;
    package.flags = FilePackageFlags { bits: flags | 0x8000_0003 };
    archive.write(0, package);
    let copy = duplicate_fighter_costume_package(
        &mut archive,
        Hash40::const_new("mario"),
        Hash40::const_new("fighter/mario/c00"),
        Hash40::const_new("c08"),
        &names(&["fighter/mario/c00/a.bin"]),
    );
    assert_eq!(copy, Some(1));
    let package = archive.read::<FilePackage>(1).unwrap();
    assert_eq!(package.flags.bits, PACKAGE_IS_LOCALIZED | PACKAGE_SYM_LINK_IS_REGIONAL);
}

#[test]
fn a_costume_is_not_copied_twice() {
    let mut archive = costume_archive();
    let slab = names(&["fighter/mario/c00/a.bin"]);
    let fighter = Hash40::const_new("mario");
    let old = Hash40::const_new("fighter/mario/c00");
    let new = Hash40::const_new("c08");
    assert!(duplicate_fighter_costume_package(&mut archive, fighter, old, new, &slab).is_some());
    assert!(duplicate_fighter_costume_package(&mut archive, fighter, old, new, &slab).is_none());
}

#[test]
fn a_costume_that_is_not_there_is_not_copied() {
    let mut archive = costume_archive();
    let copy = duplicate_fighter_costume_package(
        &mut archive,
        Hash40::const_new("mario"),
        Hash40::const_new("fighter/mario/c01"),
        Hash40::const_new("c08"),
        &names(&[]),
    );
    assert_eq!(copy, None);
}

#[test]
fn sound_banks_are_renamed() {
    let mut archive = empty_archive();
    archive.push_file_group(FileGroup::new_for_new_package());
    let bank = "sound/bank/fighter/se_mario_c00.nus3bank";
    let info = add_file(&mut archive, bank, 10);
    let mut package = FilePackage::new("fighter/mario/c00", "c00", "fighter/mario", 0);
    package.set_info_range(info, 1);
    archive.push_file_package_child(FilePackageChild::new(Hash40::const_new("other"), 0));
    package.set_child_package_range(1, 0);
    archive.insert_file_package(package);
    let parent = "sound/bank/fighter";
    archive.insert_search_path(SearchPath::new_folder(parent, "sound/bank", "fighter"));
    let child = archive.insert_search_path(SearchPath::new(bank, parent, "se_mario_c00.nus3bank", "nus3bank"));
    let mut folder = SearchFolder::new(parent, "sound/bank", "fighter");
    folder.set_first_child_index(child);
    archive.insert_search_folder(folder);
    let slab = names(&[bank, "c00"]);
    let copy = duplicate_fighter_costume_package(
        &mut archive,
        Hash40::const_new("mario"),
        Hash40::const_new("fighter/mario/c00"),
        Hash40::const_new("c08"),
        &slab,
    );
    assert!(copy.is_some());
    let new_bank = "sound/bank/fighter/se_mario_c08.nus3bank";
    assert_eq!(size_of(&archive, new_bank), 10);
    assert!(archive.lookup_search_path(new_bank).is_some());
}

#[test]
fn files_of_a_folder_are_shared_with_another() {
    let mut archive = empty_archive();
    archive.push_file_group(FileGroup::new_for_new_package());
    let a = add_file(&mut archive, "stage/x/a.bin", 10);
    add_file(&mut archive, "stage/x/b.bin", 20);
    add_file(&mut archive, "stage/y/a.bin", 30);
    let mut package = FilePackage::new("stage/x", "x", "stage", 0);
    package.set_info_range(a, 1);
    archive.insert_file_package(package);
    let first = archive.insert_search_path(SearchPath::new("stage/x/a.bin", "stage/x", "a.bin", "bin"));
    let last = archive.insert_search_path(SearchPath::new("stage/x/b.bin", "stage/x", "b.bin", "bin"));
    let mut folder = SearchFolder::new("stage/x", "stage", "x");
    folder.set_first_child_index(first);
    archive.insert_search_folder(folder);
    archive.lookup_search_path_mut("stage/x/a.bin").unwrap().get_mut().set_next_index(last);
    assert!(retarget_files(&mut archive, "stage/x", "stage/x", "stage/y", prefs()));
    assert_eq!(size_of(&archive, "stage/x/a.bin"), 30);
    assert_eq!(size_of(&archive, "stage/x/b.bin"), 20);
    let info = archive.read::<FileInfo>(a).unwrap();
    assert_eq!(info.entity, 2);
    let desc = archive.read::<FileDescriptor>(info.desc).unwrap();
    assert_eq!(desc.load_method(), FileLoadMethod::Unowned(2));
}
