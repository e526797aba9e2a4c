use stratus::hash40::Hash40;
use stratus::hash_interner::{u24, ComponentIter, HashMemorySlab, SmolRange};
use stratus::hash_list::{from_lines, from_text, hash_source, HashSource};
use stratus::text_lines::split_lines;

const MODEL: &str = "fighter/mario/model/body/c00/model.numdlb";

fn lines(names: &[&str]) -> Vec<String> {
    names.iter().map(|s| String::from(*s)).collect()
}

#[test]
fn small_numbers_and_ranges() {
    assert_eq!(u24::from_u32(0xABCDEF).to_u32(), 0xABCDEF);
    let range = SmolRange::new(5, u24::from_u32(100));
    assert_eq!((range.len(), range.start().to_u32(), range.range()), (5, 100, (100, 105)));
}

#[test]
fn names_of_paths_are_found_again() {
    let slab = from_lines(&lines(&[MODEL, "fighter/mario/c00/x.bin"])).unwrap();
    assert!(slab.was_finalized());
    let hash = Hash40::const_new(MODEL);
    assert_eq!(slab.hash_text(hash, false), MODEL.as_bytes().to_vec());
    let parts = slab.components_for(hash).unwrap();
    let expected: Vec<Vec<u8>> = MODEL.split('/').map(|p| p.as_bytes().to_vec()).collect();
    assert_eq!(parts, expected);
    // Folders, file names and extensions are known too.
    assert_eq!(slab.hash_text(Hash40::const_new("fighter/mario"), false), b"fighter/mario".to_vec());
    assert_eq!(slab.hash_text(Hash40::const_new("model.numdlb"), false), b"model.numdlb".to_vec());
    assert_eq!(slab.hash_text(Hash40::const_new("numdlb"), false), b"numdlb".to_vec());
}

#[test]
fn unknown_hashes_are_shown_as_numbers() {
    let slab = from_lines(&lines(&[MODEL])).unwrap();
    let hash = Hash40::from_raw(0x291190785e);
    assert!(slab.components_for(hash).is_none());
    assert_eq!(slab.hash_text(hash, false), b"0x291190785e".to_vec());
    assert_eq!(slab.hash_text(hash, true), b"<unknown>".to_vec());
}

#[test]
fn components_are_walked_and_buffered() {
    let slab = from_lines(&lines(&["a/b/c.bin"])).unwrap();
    let hash = Hash40::const_new("a/b/c.bin");
    let mut walk = ComponentIter::new(&slab, hash).unwrap();
    assert_eq!(walk.next(), Some(b"a".to_vec()));
    assert_eq!(walk.next(), Some(b"b".to_vec()));
    assert_eq!(walk.next(), Some(b"c.bin".to_vec()));
    assert_eq!(walk.next(), None);
    let mut buffer = [Hash40::from_raw(0); 2];
    assert_eq!(slab.buffer_components_for(hash, &mut buffer), Some(2));
    assert_eq!(buffer, [Hash40::const_new("a"), Hash40::const_new("b")]);
    let mut wide = [Hash40::from_raw(0); 5];
    assert_eq!(slab.buffer_components_for(hash, &mut wide), Some(3));
    assert_eq!(slab.buffer_str_components_for(hash, 1), Some(vec![b"a".to_vec()]));
    assert_eq!(slab.buffer_str_components_for(Hash40::const_new("z"), 1), None);
}

#[test]
fn a_path_is_new_only_once() {
    let mut slab = HashMemorySlab::new();
    let mut cache = slab.create_cache();
    assert!(slab.intern_path(&mut cache, "a/b").unwrap().is_new);
    assert!(!slab.intern_path(&mut cache, "a/b").unwrap().is_new);
    assert!(!slab.intern_path(&mut cache, "a").unwrap().is_new);
    assert!(slab.intern_path(&mut cache, "a/c").unwrap().is_new);
    assert!(slab.finalize(cache));
    let mut cache = slab.create_cache();
    assert!(!slab.intern_path(&mut cache, "a/b").unwrap().is_new);
    assert!(slab.intern_path(&mut cache, "a/d").unwrap().is_new);
    assert!(slab.finalize(cache));
    assert_eq!(slab.hash_text(Hash40::const_new("a/d"), false), b"a/d".to_vec());
    assert_eq!(slab.hash_text(Hash40::const_new("a/b"), false), b"a/b".to_vec());
}

#[test]
fn adding_a_path_again_takes_no_space() {
    let mut slab = HashMemorySlab::new();
    let mut cache = slab.create_cache();
    let first = slab.intern_path(&mut cache, "a/b/c.bin").unwrap();
    let sizes = (slab.bytes().len(), slab.strings().len(), slab.components().len());
    let total = slab.report().total().numer;
    let again = slab.intern_path(&mut cache, "a/b/c.bin").unwrap();
    assert!(!again.is_new);
    assert_eq!(again.range, first.range);
    assert!(!slab.intern_path(&mut cache, "a/b").unwrap().is_new);
    assert!(!slab.intern_path(&mut cache, "a").unwrap().is_new);
    assert_eq!((slab.bytes().len(), slab.strings().len(), slab.components().len()), sizes);
    assert_eq!(slab.report().total().numer, total);
}

#[test]
fn names_are_read_back_from_the_hash_of_a_path() {
    let mut slab = HashMemorySlab::new();
    let mut cache = slab.create_cache();
    for path in ["a/b/c.bin", "a/b/d/e.bin", "x", "a/b/c.bin/f"] {
        assert!(slab.intern_path(&mut cache, path).is_some());
    }
    assert!(slab.finalize(cache));
    let unset = Hash40::from_raw(1);
    for path in ["a", "a/b", "a/b/c.bin", "a/b/c.bin/f", "a/b/d", "a/b/d/e.bin", "x"] {
        let mut buffer = [unset; 6];
        let expected: Vec<Hash40> = path.split('/').map(Hash40::const_new).collect();
        let n = slab.buffer_components_for(Hash40::const_new(path), &mut buffer).unwrap();
        assert_eq!(buffer[..n].to_vec(), expected);
        assert!(buffer[n..].iter().all(|h| *h == unset));
        let mut short = [unset; 1];
        assert_eq!(slab.buffer_components_for(Hash40::const_new(path), &mut short), Some(1));
        assert_eq!(short[0], expected[0]);
    }
    let mut buffer = [unset; 6];
    assert_eq!(slab.buffer_components_for(Hash40::const_new("b"), &mut buffer), None);
    assert_eq!(buffer, [unset; 6]);
}

#[test]
fn names_of_long_paths_are_read_back() {
    let long = format!("{}/{}/{}", "a".repeat(200), "b".repeat(255), "c".repeat(100));
    let mut slab = HashMemorySlab::new();
    let mut cache = slab.create_cache();
    let first = slab.intern_path(&mut cache, &long).unwrap();
    let again = slab.intern_path(&mut cache, &long).unwrap();
    assert_eq!((again.range, again.is_new), (first.range, false));
    assert!(!slab.intern_path(&mut cache, &long[..456]).unwrap().is_new);
    assert!(slab.finalize(cache));
    let mut buffer = [Hash40::from_raw(1); 4];
    assert_eq!(slab.buffer_components_for(Hash40::const_new(&long), &mut buffer), Some(3));
    for (i, name) in long.split('/').enumerate() {
        assert_eq!(buffer[i], Hash40::const_new(name));
    }
    assert_eq!(slab.hash_text(Hash40::const_new(&long), false), long.as_bytes().to_vec());
}

#[test]
fn texts_are_split_into_lines() {
    for text in ["", "\n", "a", "a\n", "a\nb", "a\r\nb\r", "\r\n\r\n", "\r", "\u{e4}/\u{df}\nb\r\r\n\n", "\n\ra"] {
        let expected: Vec<String> = text.lines().map(String::from).collect();
        assert_eq!(split_lines(text), expected);
    }
    assert_eq!(split_lines("a\r\nb\r"), lines(&["a", "b\r"]));
}

#[test]
fn a_list_of_paths_has_one_in_each_line() {
    let slab = from_text("a/b.bin\r\nc/d.bin\n").unwrap();
    let same = from_lines(&lines(&["a/b.bin", "c/d.bin"])).unwrap();
    assert_eq!(slab.dump_blob(), same.dump_blob());
    assert_eq!(slab.dump_meta(), same.dump_meta());
    assert_eq!(slab.hash_text(Hash40::const_new("c/d.bin"), false), b"c/d.bin".to_vec());
}

#[test]
fn a_broken_slab_is_read_but_not_valid() {
    let slab = from_lines(&lines(&[MODEL])).unwrap();
    let mut blob = slab.dump_blob();
    let meta = slab.dump_meta();
    assert!(HashMemorySlab::from_blob(&blob, &meta).unwrap().is_valid());
    // Strings that reach behind the bytes that are in use.
    for byte in blob[3 * 1024 * 1024..][..400].iter_mut() {
        *byte = 0xFF;
    }
    assert!(!HashMemorySlab::from_blob(&blob, &meta).unwrap().is_valid());
}

#[test]
fn a_slab_that_tells_of_too_much_is_kept_as_it_is() {
    let slab = from_lines(&lines(&[MODEL])).unwrap();
    let mut blob = slab.dump_blob();
    let mut meta = slab.dump_meta();
    // More bytes than there is space for.
    meta[0..8].copy_from_slice(&0x1234_5678_9ABCu64.to_le_bytes());
    let read = HashMemorySlab::from_blob(&blob, &meta).unwrap();
    assert!(!read.is_valid() && read.was_finalized());
    assert_eq!(read.report().bytes.numer, 0x1234_5678_9ABC);
    assert_eq!(read.report().strings.numer, slab.report().strings.numer);
    assert_eq!(read.report().hashes.numer, slab.report().hashes.numer);
    assert_eq!(read.dump_blob(), blob);
    assert_eq!(read.dump_meta(), meta);
    // A bucket that is longer than there is space for.
    let last = blob.len() - 4;
    blob[last..].copy_from_slice(&0xC01u32.to_le_bytes());
    let read = HashMemorySlab::from_blob(&blob, &slab.dump_meta()).unwrap();
    assert!(!read.is_valid());
    assert_eq!(read.dump_blob(), blob);
    assert_eq!(read.dump_meta(), slab.dump_meta());
}

#[test]
fn memory_that_is_not_in_use_is_kept() {
    let slab = from_lines(&lines(&["a/b.bin"])).unwrap();
    let mut blob = slab.dump_blob();
    let meta = slab.dump_meta();
    for at in [100, 3 * 1024 * 1024 - 1, 3_500_000, 7_740_031, 7_740_032 + 0x5FFF] {
        blob[at] = 0x77;
    }
    let mut read = HashMemorySlab::from_blob(&blob, &meta).unwrap();
    assert!(read.is_valid());
    assert_eq!(read.dump_blob(), blob);
    assert_eq!(read.dump_meta(), meta);
    let mut cache = read.create_cache();
    assert!(read.intern_path(&mut cache, "a/c.bin").unwrap().is_new);
    assert!(read.finalize(cache));
    let more = read.dump_blob();
    assert_eq!((more[100], more[7_740_031]), (0x77, 0x77));
    assert_eq!(read.hash_text(Hash40::const_new("a/c.bin"), false), b"a/c.bin".to_vec());
}

#[test]
fn slab_round_trip() {
    let slab = from_lines(&lines(&[MODEL])).unwrap();
    let blob = slab.dump_blob();
    let meta = slab.dump_meta();
    let report = slab.report();
    assert_eq!(report.total_blob_size, blob.len());
    assert_eq!(report.bytes.numer, slab.bytes().len());
    let read = HashMemorySlab::from_blob(&blob, &meta).unwrap();
    assert!(read.is_valid());
    assert_eq!(read.hash_text(Hash40::const_new(MODEL), false), MODEL.as_bytes().to_vec());
    assert_eq!(read.dump_blob(), blob);
    assert_eq!(read.dump_meta(), meta);
}

#[test]
fn a_slab_that_is_cut_short_is_not_read() {
    let slab = from_lines(&lines(&[MODEL])).unwrap();
    let blob = slab.dump_blob();
    let meta = slab.dump_meta();
    assert!(HashMemorySlab::from_blob(&blob[1..], &meta).is_none());
    assert!(HashMemorySlab::from_blob(&blob, &meta[1..]).is_none());
}

#[test]
fn where_hashes_come_from() {
    assert_eq!(hash_source(true, true, true), HashSource::Blob);
    assert_eq!(hash_source(true, false, true), HashSource::HashFile);
    assert_eq!(hash_source(false, true, false), HashSource::Missing);
}

#[test]
fn report_of_what_is_in_use() {
    let report = HashMemorySlab::new().report();
    assert_eq!(report.total().numer, report.hashes.numer);
    assert_eq!(report.bytes.text(), format!("0 / {}", 3 * 1024 * 1024));
    let text = report.text();
    let lines: Vec<&str> = text.split('\n').collect();
    assert_eq!(lines.len(), 7);
    assert_eq!(lines[0], "Memory Usage Report:");
    assert_eq!(lines[1], format!("\tTOTAL SIZE:      {}b", report.total_blob_size));
    assert_eq!(lines[2], "\tTEXT:            0 / 3145728");
    assert_eq!(lines[6], format!("\tTOTAL CONSUMED:  {}", report.total().text()));
}
