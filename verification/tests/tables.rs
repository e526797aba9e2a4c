use stratus::archive::{ArchiveMetadata, ARCHIVE_MAGIC};
use stratus::containers::{sort_pairs, Bucket, BucketLookup, IndexLookup, Table};
use stratus::data::{
    FileData, FileDescriptor, FileEntity, FileInfo, FileInfoFlags, FileLoadMethod, FilePackage, HashWithData,
    SearchPath, SearchPathLink, INFO_IS_LOCALIZED, INFO_IS_REGIONAL, INFO_IS_RESHARED, INFO_IS_SHARED,
    INFO_LOCALIZED_OR_REGIONAL, PACKAGE_HAS_SUB_PACKAGE, PACKAGE_SUB_PACKAGE_OR_SYM_LINK,
};
use stratus::hash40::Hash40;
use stratus::locale::{Language, Locale, LocalePreferences, Region};
use stratus::words::{le_byte, read_records, read_word_at, read_words, write_records, write_words};

fn prefs() -> LocalePreferences {
    LocalePreferences { region: Region::Europe, language: Language::French, locale: Locale::EuFrench }
}

#[test]
fn words_and_bytes_round_trip() {
    let bytes = [1u8, 2, 3, 4, 0xFF, 0, 0, 0x80];
    let words = read_words(&bytes);
    assert_eq!(words, vec![0x0403_0201, 0x8000_00FF]);
    assert_eq!(write_words(&words), bytes.to_vec());
    assert_eq!(read_word_at(&bytes, 4), 0x8000_00FF);
    assert_eq!(le_byte(0x0403_0201, 2), 3);
}

#[test]
fn bytes_behind_the_last_whole_word_are_left_out() {
    assert_eq!(read_words(&[1, 0, 0, 0, 9, 9]), vec![1]);
}

#[test]
fn records_round_trip() {
    let records = vec![FileEntity::new(1, 2), FileEntity::new(3, 4)];
    let mut words: Vec<u32> = Vec::new();
    write_records(&records, &mut words);
    assert_eq!(words, vec![1, 2, 3, 4]);
    let back: Vec<FileEntity> = read_records(&words, 0, 2);
    assert_eq!(back, records);
}

#[test]
fn table_keeps_what_was_added_behind_what_was_there() {
    let mut table = Table::from_fixed(vec![FileEntity::new(1, 1), FileEntity::new(2, 2)]);
    assert_eq!(table.push(FileEntity::new(3, 3)), 2);
    assert_eq!(table.len(), 3);
    assert_eq!(table.fixed_len(), 2);
    assert_eq!(table.dynamic_len(), 1);
    assert_eq!(*table.get(2).unwrap(), FileEntity::new(3, 3));
    assert!(table.get(3).is_none());
    table.get_mut(0).unwrap().set_info(9);
    assert_eq!(*table.get_unchecked(0), FileEntity::new(1, 9));
    let before: Vec<(u32, FileEntity)> = table.iter();
    table.merge();
    assert_eq!(table.fixed_len(), 3);
    assert!(table.is_dynamic_empty());
    assert_eq!(table.iter(), before);
    let mut words: Vec<u32> = Vec::new();
    table.write_fixed(&mut words);
    assert_eq!(words, vec![1, 9, 2, 2, 3, 3]);
    assert_eq!(table.fixed_byte_len(), 24);
}

#[test]
fn index_lookup_finds_fixed_and_added_entries() {
    let mut hashes = vec![Hash40::const_new("a"), Hash40::const_new("bb"), Hash40::const_new("ccc")];
    hashes.sort_by_key(|h| h.raw());
    let fixed: Vec<HashWithData> =
        hashes.iter().enumerate().map(|(i, h)| HashWithData::new(*h, i as u32)).collect();
    let mut lookup = IndexLookup::from_fixed(fixed);
    assert!(lookup.is_sorted());
    for (i, h) in hashes.iter().enumerate() {
        assert_eq!(lookup.get(*h), Some(i as u32));
    }
    let new = Hash40::const_new("new");
    assert_eq!(lookup.get(new), None);
    assert_eq!(lookup.insert(new, 7), None);
    assert_eq!(lookup.get(new), Some(7));
    assert!(lookup.set(hashes[0], 5));
    assert_eq!(lookup.get(hashes[0]), Some(5));
    assert!(!lookup.set(Hash40::const_new("missing"), 5));
    assert_eq!(lookup.len(), Some(4));
    lookup.merge();
    assert!(lookup.is_sorted());
    assert_eq!(lookup.fixed_len(), 4);
    assert_eq!(lookup.get(new), Some(7));
    assert_eq!(lookup.get(hashes[0]), Some(5));
    assert_eq!(lookup.get(hashes[2]), Some(2));
    assert_eq!(lookup.fixed_byte_len(), 32);
    assert_eq!(lookup.iter().len(), 4);
}

#[test]
fn a_walk_over_an_index_lookup() {
    let hash = |n: u64| Hash40::from_raw(n);
    let fixed: Vec<HashWithData> =
        [10, 20, 30].iter().map(|n| HashWithData::new(hash(*n), *n as u32)).collect();
    // Added hashes that come behind all others are met after them.
    let mut lookup = IndexLookup::from_fixed(fixed);
    lookup.insert(hash(40), 4);
    lookup.insert(hash(50), 5);
    assert_eq!(
        lookup.iter(),
        vec![(hash(10), 10), (hash(20), 20), (hash(30), 30), (hash(40), 4), (hash(50), 5)]
    );
    // One that comes earlier is met again and again, in place of what comes behind it.
    lookup.insert(hash(15), 1);
    assert_eq!(
        lookup.iter(),
        vec![(hash(10), 10), (hash(15), 1), (hash(15), 1), (hash(15), 1), (hash(15), 1)]
    );
    lookup.merge();
    assert_eq!(lookup.fixed_len(), 6);
    assert_eq!(lookup.iter().len(), 6);
}

#[test]
fn bucket_lookup_finds_fixed_and_added_entries() {
    let empty = Bucket { start: 0, count: 0 };
    let mut lookup = BucketLookup::from_fixed(vec![empty, empty, empty], Vec::new());
    let names = ["one", "two", "three", "four", "five", "six"];
    for (i, name) in names.iter().enumerate() {
        assert_eq!(lookup.insert(Hash40::const_new(name), i as u32), None);
    }
    assert_eq!(lookup.len(), names.len());
    assert_eq!(lookup.bucket_count(), 3);
    lookup.merge();
    assert!(lookup.is_sorted());
    assert_eq!(lookup.fixed_len(), names.len());
    for (i, name) in names.iter().enumerate() {
        assert_eq!(lookup.get(Hash40::const_new(name)), Some(i as u32));
        assert!(lookup.contains_key(Hash40::const_new(name)));
    }
    assert_eq!(lookup.insert(Hash40::const_new("one"), 50), Some(0));
    assert_eq!(lookup.get(Hash40::const_new("one")), Some(50));
    assert_eq!(lookup.get(Hash40::const_new("seven")), None);
    let total: u32 = lookup.buckets().iter().map(|b| b.count).sum();
    assert_eq!(total, 6);
}

#[test]
fn pairs_are_sorted_by_hash() {
    let pairs = vec![(5u64, 1u32), (2, 2), (9, 3)];
    assert_eq!(sort_pairs(&pairs, 0, 3), vec![(2, 2), (5, 1), (9, 3)]);
}

#[test]
fn load_methods_round_trip() {
    for method in [
        FileLoadMethod::Unowned(5),
        FileLoadMethod::Owned(0),
        FileLoadMethod::PackageSkip(0xABCDEF),
        FileLoadMethod::Unknown,
        FileLoadMethod::SharedButOwned(1),
        FileLoadMethod::UnsupportedRegionLocale(3),
    ] {
        let raw: u32 = u32::from(method);
        assert_eq!(FileLoadMethod::from_raw(raw), Some(method));
    }
    assert_eq!(u32::from(FileLoadMethod::Owned(7)), 0x0100_0007);
    assert_eq!(FileLoadMethod::from_raw(0x0200_0000), None);
}

#[test]
fn descriptor_of_localized_and_regional_files() {
    let plain = FileInfo::new(0, 0, 10, FileInfoFlags::from_bits_retain(0x10));
    assert_eq!(plain.desc_index(prefs()), Some(10));
    let localized = FileInfo::new(0, 0, 10, FileInfoFlags::from_bits_retain(INFO_IS_LOCALIZED));
    assert_eq!(localized.desc_index(prefs()), Some(10 + 1 + 5));
    let regional = FileInfo::new(0, 0, 10, FileInfoFlags::from_bits_retain(INFO_IS_REGIONAL));
    assert_eq!(regional.desc_index(prefs()), Some(10 + 1 + Region::Europe.index()));
    let mut last = FileInfo::new(0, 0, u32::MAX, FileInfoFlags::from_bits_retain(INFO_IS_REGIONAL));
    assert_eq!(last.desc_index(prefs()), None);
    last.set_non_localized();
    assert_eq!(last.desc_index(prefs()), Some(u32::MAX));
}

#[test]
fn flags_of_files_that_are_made_non_localized() {
    // What is no flag is cleared too.
    for (before, after) in [
        (0x1_0100, 0),
        (0x3_0010, 0x10),
        (0x2_1000, 0x1000),
        (0xC033_9010, 0xC030_1010),
        (u32::MAX, 0xC030_1010),
    ] {
        let mut info = FileInfo::new(1, 2, 3, FileInfoFlags::from_bits_retain(before));
        info.set_non_localized();
        assert_eq!(info.flags().bits(), after);
    }
}

#[test]
fn flags_are_set_one_at_a_time() {
    let mut flags = FileInfoFlags::from_bits_retain(0x10);
    flags.set(INFO_IS_SHARED, true);
    assert!(flags.intersects(INFO_IS_SHARED));
    assert!(!flags.intersects(INFO_LOCALIZED_OR_REGIONAL));
    flags.set(INFO_IS_SHARED, false);
    assert_eq!(flags.bits(), 0x10);
    let mut info = FileInfo::new(1, 2, 3, flags);
    info.set_as_reshared();
    assert!(info.flags().intersects(INFO_IS_RESHARED));
}

#[test]
fn group_or_link_of_a_package() {
    let mut package = FilePackage::new("fighter/mario/c00", "c00", "fighter/mario", 5);
    assert_eq!(package.path(), Hash40::const_new("fighter/mario/c00"));
    assert!(!package.has_file_group() && !package.has_sym_link());
    let mut flags = package.flags();
    flags.bits = PACKAGE_HAS_SUB_PACKAGE;
    package.set_flags(flags);
    assert!(package.has_file_group() && !package.has_sym_link());
    flags.bits = PACKAGE_SUB_PACKAGE_OR_SYM_LINK;
    package.set_flags(flags);
    assert!(!package.has_file_group() && package.has_sym_link());
}

#[test]
fn search_paths_end_until_they_are_given_a_successor() {
    let mut path = SearchPath::new("a/b.bin", "a", "b.bin", "bin");
    assert!(path.is_end() && !path.is_folder());
    assert_eq!(path.extension(), Some(Hash40::const_new("bin")));
    path.set_next_index(4);
    assert!(!path.is_end());
    path.set_end();
    assert!(path.is_end());
    assert!(SearchPath::new_folder("a", "", "a").is_folder());
    assert!(SearchPathLink::invalid().is_invalid());
    assert_eq!(SearchPathLink::new(4).path_index(), 4);
}

#[test]
fn data_that_is_read_from_elsewhere() {
    let mut data = FileData::new_for_unsharing(100, 4);
    assert_eq!(data.compressed_size(), 0);
    assert_eq!(data.group_offset(), 4);
    assert!(!data.is_compressed());
    data.patch(7);
    assert_eq!(data.decompressed_size, 7);
    let desc = FileDescriptor::new(1, 2, FileLoadMethod::Owned(0));
    assert_eq!(desc.group_idx(), 1);
    assert!(desc.load_method().is_owned());
}

#[test]
fn metadata_of_the_archive() {
    let mut words: Vec<u32> = vec![ARCHIVE_MAGIC as u32, (ARCHIVE_MAGIC >> 32) as u32];
    for i in 1..7u32 {
        words.push(i);
        words.push(0);
    }
    let bytes = write_words(&words);
    let metadata = ArchiveMetadata::from_bytes(&bytes).unwrap();
    assert_eq!(metadata.stream_data_offset, 1);
    assert_eq!(metadata.resource_table_offset, 4);
    assert_eq!(metadata.search_table_offset, 5);
    assert!(ArchiveMetadata::from_bytes(&bytes[1..]).is_none());
    let mut wrong = bytes.clone();
    wrong[0] ^= 1;
    assert!(ArchiveMetadata::from_bytes(&wrong).is_none());
}
