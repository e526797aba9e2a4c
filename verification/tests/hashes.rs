use stratus::data::{FilePath, HashWithData, IntoHash};
use stratus::hash40::Hash40;

const MODEL: &str = "fighter/mario/model/body/c00/model.numdlb";

#[test]
fn hash_of_a_path() {
    assert_eq!(Hash40::const_new(MODEL).raw(), 0x291190785f);
    assert_eq!(Hash40::const_new(MODEL).length(), 0x29);
    assert_eq!(Hash40::const_new(MODEL).crc32(), 0x1190785f);
}

#[test]
fn hash_of_nothing_is_zero() {
    assert_eq!(Hash40::const_new("").raw(), 0);
}

#[test]
fn hash_of_short_strings() {
    assert_eq!(Hash40::const_new("a").raw(), 0x1e8b7be43);
    assert_eq!(Hash40::const_new("abc").raw(), 0x3352441c2);
    assert_eq!(Hash40::const_new_bytes(b"abc"), Hash40::const_new("abc"));
}

#[test]
fn appending_to_a_hash_is_hashing_the_longer_string() {
    let whole = Hash40::const_new(MODEL);
    let start = Hash40::const_new("fighter/mario");
    assert_eq!(start.const_with("/model/body/c00/model.numdlb"), whole);
    assert_eq!(start.const_with_hash(Hash40::const_new("/model/body/c00/model.numdlb")), whole);
    assert_eq!(start.const_with(""), start);
}

#[test]
fn trimming_undoes_appending() {
    let start = Hash40::const_new("fighter/mario/c00");
    assert_eq!(start.const_with("/").const_trim_trailing("/"), start);
    assert_eq!(start.const_with(".reshared").const_trim_trailing(".reshared"), start);
}

#[test]
fn parts_of_a_hash() {
    let h = Hash40::from_parts(0x1190785f, 0x29);
    assert_eq!(h.raw(), 0x291190785f);
    assert_eq!(Hash40::from_raw(0x291190785f), h);
    assert_eq!(stratus::data::Hash::from_hash40(h).hash40(), h);
}

#[test]
fn hash_and_data_are_packed_together() {
    let h = Hash40::const_new(MODEL);
    let mut packed = HashWithData::new(h, 0xABCDEF);
    assert_eq!(packed.hash40(), h);
    assert_eq!(packed.data(), 0xABCDEF);
    assert_eq!(packed.length(), 0x29);
    packed.set_data(7);
    assert_eq!(packed.hash40(), h);
    assert_eq!(packed.data(), 7);
    let other = Hash40::const_new("abc");
    packed.set_hash40(other);
    assert_eq!(packed.hash40(), other);
    assert_eq!(packed.data(), 7);
}

#[test]
fn only_24_bits_of_data_are_kept() {
    let packed = HashWithData::new(Hash40::const_new("abc"), 0x1FFFFFF);
    assert_eq!(packed.data(), 0xFFFFFF);
    assert_eq!(packed.hash40(), Hash40::const_new("abc"));
}

#[test]
fn many_things_name_a_hash() {
    let h = Hash40::const_new("abc");
    assert_eq!("abc".into_hash(), h);
    assert_eq!(String::from("abc").into_hash(), h);
    assert_eq!(h.into_hash(), h);
    assert_eq!(h.raw().into_hash(), h);
    assert_eq!(HashWithData::new(h, 3).into_hash(), h);
    assert_eq!(stratus::data::Hash::from_hash40(h).into_hash(), h);
}

#[test]
fn path_record_of_a_path() {
    let path = FilePath::from_utf8_path(MODEL).unwrap();
    assert_eq!(path.path(), Hash40::const_new(MODEL));
    assert_eq!(path.parent(), Hash40::const_new("fighter/mario/model/body/c00/"));
    assert_eq!(path.file_name(), Hash40::const_new("model.numdlb"));
    assert_eq!(path.extension(), Hash40::const_new("numdlb"));
}

#[test]
fn a_path_without_parent_has_no_record() {
    assert!(FilePath::from_utf8_path("").is_none());
}
