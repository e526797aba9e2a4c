//! The records that the archive's tables are made of.

use crate::hash40::{
    hash40, hash40_str, law_hash40_wf, law_with, law_with_hash, pack40, spec_trim, spec_with_hash, Hash40,
};
use crate::locale::LocalePreferences;
use crate::paths::{
    extension, extension_in, file_name, is_plain, joined, lemma_joined_last, parent, path_file_name,
    path_parent,
};
use crate::strings::{encode_utf8_concat, lemma_slash_last};
use vstd::prelude::*;
use vstd::utf8::encode_utf8;

verus! {

/// Anything that names a path: a string or a hash of one.
pub trait IntoHash: Sized {
    /// The hash that the value names.
    spec fn hash_of(self) -> Hash40;

    fn into_hash(self) -> (r: Hash40)
        ensures
            r == self.hash_of(),
    ;
}

impl IntoHash for &str {
    open spec fn hash_of(self) -> Hash40 {
        hash40_str(self@)
    }

    fn into_hash(self) -> (r: Hash40) {
        Hash40::const_new(self)
    }
}

impl IntoHash for String {
    open spec fn hash_of(self) -> Hash40 {
        hash40_str(self@)
    }

    fn into_hash(self) -> (r: Hash40) {
        Hash40::const_new(self.as_str())
    }
}

impl IntoHash for Hash40 {
    open spec fn hash_of(self) -> Hash40 {
        self
    }

    fn into_hash(self) -> (r: Hash40) {
        self
    }
}

impl IntoHash for Hash {
    open spec fn hash_of(self) -> Hash40 {
        self.spec_hash40()
    }

    fn into_hash(self) -> (r: Hash40) {
        self.hash40()
    }
}

impl IntoHash for HashWithData {
    open spec fn hash_of(self) -> Hash40 {
        self.spec_hash40()
    }

    fn into_hash(self) -> (r: Hash40) {
        self.hash40()
    }
}

impl IntoHash for u64 {
    open spec fn hash_of(self) -> Hash40 {
        Hash40(self)
    }

    fn into_hash(self) -> (r: Hash40) {
        Hash40::from_raw(self)
    }
}

/// A hash that is stored as two words.
#[derive(Copy, Clone, Debug, PartialEq, Eq, Structural)]
pub struct Hash {
    pub crc: u32,
    pub len: u32,
}

impl Hash {
    pub open spec fn spec_hash40(self) -> Hash40 {
        Hash40((self.len * 0x1_0000_0000 + self.crc) as u64)
    }

    pub open spec fn of(hash: Hash40) -> Hash {
        Hash { crc: hash.spec_crc32(), len: hash.spec_length() as u32 }
    }

    pub fn from_hash40(hash: Hash40) -> (r: Hash)
        ensures
            r == Hash::of(hash),
    {
        Hash { crc: hash.crc32(), len: hash.length() as u32 }
    }

    pub fn hash40(self) -> (r: Hash40)
        ensures
            r == self.spec_hash40(),
    {
        Hash40::from_raw(self.len as u64 * 0x1_0000_0000 + self.crc as u64)
    }
}

/// A hash that shares its two words with 24 bits of other data.
#[derive(Copy, Clone, Debug, PartialEq, Eq, Structural)]
pub struct HashWithData {
    pub crc: u32,
    pub len_and_data: u32,
}

impl HashWithData {
    pub open spec fn spec_hash40(self) -> Hash40 {
        Hash40(pack40(self.crc, (self.len_and_data % 0x100) as u8))
    }

    pub open spec fn spec_data(self) -> u32 {
        self.len_and_data / 0x100
    }

    /// The pair of a hash and the low 24 bits of `data`.
    pub open spec fn of(hash: Hash40, data: u32) -> HashWithData {
        HashWithData {
            crc: hash.spec_crc32(),
            len_and_data: (hash.spec_length() + data % 0x100_0000 * 0x100) as u32,
        }
    }

    /// The same hash with other data.
    pub open spec fn with_data(self, data: u32) -> HashWithData {
        HashWithData {
            len_and_data: (self.len_and_data % 0x100 + data % 0x100_0000 * 0x100) as u32,
            ..self
        }
    }

    pub fn new(hash: Hash40, data: u32) -> (r: HashWithData)
        ensures
            r == HashWithData::of(hash, data),
    {
        HashWithData {
            crc: hash.crc32(),
            len_and_data: hash.length() as u32 + data % 0x100_0000 * 0x100,
        }
    }

    pub fn hash40(self) -> (r: Hash40)
        ensures
            r == self.spec_hash40(),
    {
        Hash { crc: self.crc, len: self.len_and_data % 0x100 }.hash40()
    }

    pub fn length(self) -> (r: usize)
        ensures
            r == self.len_and_data % 0x100,
            r == self.spec_hash40().spec_length(),
    {
        self.hash40().length() as usize
    }

    pub fn data(self) -> (r: u32)
        ensures
            r == self.spec_data(),
    {
        self.len_and_data / 0x100
    }

    pub fn set_hash40(&mut self, hash: Hash40)
        ensures
            *final(self) == HashWithData::of(hash, old(self).spec_data()),
    {
        self.crc = hash.crc32();
        self.len_and_data = self.len_and_data / 0x100 * 0x100 + hash.length() as u32;
    }

    pub fn set_data(&mut self, data: u32)
        ensures
            *final(self) == old(self).with_data(data),
    {
        self.len_and_data = self.len_and_data % 0x100 + data % 0x100_0000 * 0x100;
    }
}

/// A hash and 24 bits of data survive being packed together.
pub proof fn law_hash_with_data(hash: Hash40, data: u32)
    requires
        hash.wf(),
        data < 0x100_0000,
    ensures
        HashWithData::of(hash, data).spec_hash40() == hash,
        HashWithData::of(hash, data).spec_data() == data,
        Hash::of(hash).spec_hash40() == hash,
{
}

/// Changing the data leaves the hash, and changing the hash leaves the data.
pub proof fn law_hash_with_data_independent(h: HashWithData, hash: Hash40, data: u32)
    requires
        hash.wf(),
        data < 0x100_0000,
    ensures
        h.with_data(data).spec_hash40() == h.spec_hash40(),
        h.with_data(data).spec_data() == data,
        HashWithData::of(hash, h.spec_data()).spec_data() == h.spec_data(),
        HashWithData::of(hash, h.spec_data()).spec_hash40() == hash,
        h.spec_hash40().wf(),
{
}

/// Flags of a [`FileData`].
#[derive(Copy, Clone, Debug, PartialEq, Eq, Structural)]
pub struct FileFlags {
    pub bits: u32,
}

/// The file is compressed with ZSTD.
pub const FILE_IS_ZSTD_COMPRESSION: u32 = 0x1;

/// The file is compressed.
pub const FILE_IS_COMPRESSED: u32 = 0x2;

pub const FILE_IS_REGIONAL_VERSIONED_DATA: u32 = 0x4;

pub const FILE_IS_LOCALIZED_VERSIONED_DATA: u32 = 0x8;

/// Flags of a [`FileInfo`]. The lowest 15 bits hold the alignment of the file's buffer.
#[derive(Copy, Clone, Debug, PartialEq, Eq, Structural)]
pub struct FileInfoFlags {
    pub bits: u32,
}

/// Buffers of the file are aligned to `0x10` bytes.
pub const INFO_IS_REGULAR_FILE: u32 = 0x10;

/// Buffers of the file are aligned to `0x1000` bytes.
pub const INFO_IS_GRAPHICS_ARCHIVE: u32 = 0x1000;

/// The file has a descriptor for every locale.
pub const INFO_IS_LOCALIZED: u32 = 0x1_0000;

/// The file has a descriptor for every region.
pub const INFO_IS_REGIONAL: u32 = 0x2_0000;

/// The file shares its data with another one.
pub const INFO_IS_SHARED: u32 = 0x10_0000;

/// Only ever set together with [`INFO_IS_SHARED`].
pub const INFO_IS_UNKNOWN_FLAG: u32 = 0x20_0000;

pub const INFO_IS_GROUP_FIXED: u32 = 0x4000_0000;

/// The file stands for the data that a path had before it was replaced.
pub const INFO_IS_RESHARED: u32 = 0x8000_0000;

/// Either of [`INFO_IS_LOCALIZED`] and [`INFO_IS_REGIONAL`].
pub const INFO_LOCALIZED_OR_REGIONAL: u32 = 0x3_0000;

/// All flags of an info but [`INFO_IS_LOCALIZED`] and [`INFO_IS_REGIONAL`].
pub const INFO_ALL_BUT_LOCALIZED: u32 = 0xC030_1010;

/// Both of [`INFO_IS_SHARED`] and [`INFO_IS_UNKNOWN_FLAG`].
pub const INFO_SHARED_AND_UNKNOWN: u32 = 0x30_0000;

/// Flags of a [`FilePackage`].
#[derive(Copy, Clone, Debug, PartialEq, Eq, Structural)]
pub struct FilePackageFlags {
    pub bits: u32,
}

pub const PACKAGE_IS_LOCALIZED: u32 = 0x100_0000;

pub const PACKAGE_IS_REGIONAL: u32 = 0x200_0000;

pub const PACKAGE_HAS_SUB_PACKAGE: u32 = 0x400_0000;

pub const PACKAGE_SYM_LINK_IS_REGIONAL: u32 = 0x800_0000;

pub const PACKAGE_IS_SYM_LINK: u32 = 0x1000_0000;

/// Both of [`PACKAGE_HAS_SUB_PACKAGE`] and [`PACKAGE_IS_SYM_LINK`].
pub const PACKAGE_SUB_PACKAGE_OR_SYM_LINK: u32 = 0x1400_0000;

/// All flags of a package but [`PACKAGE_IS_REGIONAL`].
pub const PACKAGE_ALL_BUT_REGIONAL: u32 = 0x1D00_0000;

/// Flags of a [`StreamPath`].
#[derive(Copy, Clone, Debug, PartialEq, Eq, Structural)]
pub struct StreamFileFlags {
    pub bits: u32,
}

pub const STREAM_IS_LOCALIZED: u32 = 0x1;

pub const STREAM_IS_REGIONAL: u32 = 0x2;

impl FileFlags {
    pub fn empty() -> (r: FileFlags)
        ensures
            r.bits == 0,
    {
        FileFlags { bits: 0 }
    }

    /// Are all bits of `mask` set?
    pub fn contains(&self, mask: u32) -> (r: bool)
        ensures
            r == (self.bits & mask == mask),
    {
        self.bits & mask == mask
    }
}

impl FileInfoFlags {
    /// Is any bit of `mask` set?
    pub open spec fn has(self, mask: u32) -> bool {
        self.bits & mask != 0
    }

    /// The flags with the bits of `mask` set.
    pub open spec fn plus(self, mask: u32) -> FileInfoFlags {
        FileInfoFlags { bits: self.bits | mask }
    }

    /// The flags with the bits of `mask` cleared.
    pub open spec fn minus(self, mask: u32) -> FileInfoFlags {
        FileInfoFlags { bits: self.bits & !mask }
    }

    /// The flags of a file with one descriptor for all regions and locales. Of the alignment, the two
    /// values that files have stay, and bits that mean nothing are cleared.
    pub open spec fn non_localized(self) -> FileInfoFlags {
        FileInfoFlags { bits: self.bits & INFO_ALL_BUT_LOCALIZED }
    }

    pub fn from_bits_retain(bits: u32) -> (r: FileInfoFlags)
        ensures
            r.bits == bits,
    {
        FileInfoFlags { bits }
    }

    pub fn bits(&self) -> (r: u32)
        ensures
            r == self.bits,
    {
        self.bits
    }

    pub fn intersects(&self, mask: u32) -> (r: bool)
        ensures
            r == self.has(mask),
    {
        self.bits & mask != 0
    }

    pub fn set(&mut self, mask: u32, value: bool)
        ensures
            *final(self) == if value {
                old(self).plus(mask)
            } else {
                old(self).minus(mask)
            },
    {
        if value {
            self.bits = self.bits | mask;
        } else {
            self.bits = self.bits & !mask;
        }
    }

    /// Alignment that a buffer for the file needs.
    pub fn alignment(&self) -> (r: u32)
        ensures
            r == self.bits & 0x7FFF,
    {
        self.bits & 0x7FFF
    }
}

/// A bit that was set is there, one that was cleared is not, and bits outside the mask stay.
pub proof fn law_info_flags(flags: FileInfoFlags, mask: u32, other: u32)
    requires
        mask != 0,
        mask & other == 0,
    ensures
        flags.plus(mask).has(mask),
        !flags.minus(mask).has(mask),
        flags.plus(mask).has(other) == flags.has(other),
        flags.minus(mask).has(other) == flags.has(other),
{
    let b = flags.bits;
    assert((b | mask) & mask != 0 && (b & !mask) & mask == 0 && (b | mask) & other == b & other && (b
        & !mask) & other == b & other) by (bit_vector)
        requires
            mask != 0,
            mask & other == 0,
    ;
}

impl FilePackageFlags {
    pub open spec fn has(self, mask: u32) -> bool {
        self.bits & mask != 0
    }

    pub fn empty() -> (r: FilePackageFlags)
        ensures
            r.bits == 0,
    {
        FilePackageFlags { bits: 0 }
    }

    pub fn intersects(&self, mask: u32) -> (r: bool)
        ensures
            r == self.has(mask),
    {
        self.bits & mask != 0
    }
}

/// Where in its group a file's bytes are, and how large they are.
#[derive(Copy, Clone, Debug, PartialEq, Eq, Structural)]
pub struct FileData {
    pub in_group_offset: u32,
    pub compressed_size: u32,
    pub decompressed_size: u32,
    pub flags: FileFlags,
}

impl FileData {
    /// Data of a file that is read from elsewhere: no bytes of the group belong to it.
    pub open spec fn unshared(size: u32, offset: u32) -> FileData {
        FileData {
            in_group_offset: offset,
            compressed_size: 0,
            decompressed_size: size,
            flags: FileFlags { bits: 0 },
        }
    }

    pub fn new_for_unsharing(size: u32, offset: u32) -> (r: FileData)
        ensures
            r == FileData::unshared(size, offset),
    {
        FileData {
            in_group_offset: offset,
            compressed_size: 0,
            decompressed_size: size,
            flags: FileFlags::empty(),
        }
    }

    pub fn group_offset(&self) -> (r: u32)
        ensures
            r == self.in_group_offset,
    {
        self.in_group_offset
    }

    pub fn is_compressed(&self) -> (r: bool)
        ensures
            r == (self.flags.bits & FILE_IS_COMPRESSED == FILE_IS_COMPRESSED),
    {
        self.flags.contains(FILE_IS_COMPRESSED)
    }

    pub fn compressed_size(&self) -> (r: u32)
        ensures
            r == self.compressed_size,
    {
        self.compressed_size
    }

    pub fn set_compressed_size(&mut self, new_size: u32)
        ensures
            *final(self) == (FileData { compressed_size: new_size, ..*old(self) }),
    {
        self.compressed_size = new_size;
    }

    /// Makes the file as large as its replacement.
    pub fn patch(&mut self, new_size: u32)
        ensures
            *final(self) == (FileData { decompressed_size: new_size, ..*old(self) }),
    {
        self.decompressed_size = new_size;
    }
}

/// How a descriptor's data is to be loaded.
#[derive(Copy, Clone, Debug, PartialEq, Eq, Structural)]
pub enum FileLoadMethod {
    /// The data belongs to the [`FileEntity`] with this index.
    Unowned(u32),
    /// The data is the descriptor's own. The index is for the versioned patch section.
    Owned(u32),
    /// Skipped in packages. The index is for a [`FileInfo`].
    PackageSkip(u32),
    Unknown,
    /// The index is for a [`FileEntity`].
    SharedButOwned(u32),
    /// The index is the locale or the region to use instead.
    UnsupportedRegionLocale(u32),
}

impl FileLoadMethod {
    /// What the top byte of a stored load method says.
    pub open spec fn kind(self) -> u32 {
        match self {
            FileLoadMethod::Unowned(_) => 0x00,
            FileLoadMethod::Owned(_) => 0x01,
            FileLoadMethod::PackageSkip(_) => 0x03,
            FileLoadMethod::Unknown => 0x05,
            FileLoadMethod::SharedButOwned(_) => 0x09,
            FileLoadMethod::UnsupportedRegionLocale(_) => 0x10,
        }
    }

    /// What the other bytes say.
    pub open spec fn index(self) -> u32 {
        match self {
            FileLoadMethod::Unowned(v) => v,
            FileLoadMethod::Owned(v) => v,
            FileLoadMethod::PackageSkip(v) => v,
            FileLoadMethod::Unknown => 0,
            FileLoadMethod::SharedButOwned(v) => v,
            FileLoadMethod::UnsupportedRegionLocale(v) => v,
        }
    }

    /// The stored form.
    pub open spec fn raw(self) -> u32 {
        (self.kind() << 24) | self.index()
    }

    /// Is the top byte one of those in use?
    pub open spec fn is_known(raw: u32) -> bool {
        let kind = raw / 0x100_0000;
        kind == 0x00 || kind == 0x01 || kind == 0x03 || kind == 0x05 || kind == 0x09 || kind == 0x10
    }

    /// The load method that a stored word means.
    pub open spec fn of_raw(raw: u32) -> FileLoadMethod {
        let kind = raw / 0x100_0000;
        let index = raw % 0x100_0000;
        if kind == 0x00 {
            FileLoadMethod::Unowned(index)
        } else if kind == 0x01 {
            FileLoadMethod::Owned(index)
        } else if kind == 0x03 {
            FileLoadMethod::PackageSkip(index)
        } else if kind == 0x05 {
            FileLoadMethod::Unknown
        } else if kind == 0x09 {
            FileLoadMethod::SharedButOwned(index)
        } else {
            FileLoadMethod::UnsupportedRegionLocale(index)
        }
    }

    pub fn is_owned(&self) -> (r: bool)
        ensures
            r == (self is Owned),
    {
        matches!(self, FileLoadMethod::Owned(_))
    }

    pub fn is_skip(&self) -> (r: bool)
        ensures
            r == (self is PackageSkip),
    {
        matches!(self, FileLoadMethod::PackageSkip(_))
    }

    /// The load method that a stored word means, unless its top byte is not in use.
    pub fn from_raw(raw: u32) -> (r: Option<FileLoadMethod>)
        ensures
            r == if FileLoadMethod::is_known(raw) {
                Some(FileLoadMethod::of_raw(raw))
            } else {
                None
            },
    {
        let index: u32 = raw % 0x100_0000;
        match raw / 0x100_0000 {
            0x00 => Some(FileLoadMethod::Unowned(index)),
            0x01 => Some(FileLoadMethod::Owned(index)),
            0x03 => Some(FileLoadMethod::PackageSkip(index)),
            0x05 => Some(FileLoadMethod::Unknown),
            0x09 => Some(FileLoadMethod::SharedButOwned(index)),
            0x10 => Some(FileLoadMethod::UnsupportedRegionLocale(index)),
            _ => None,
        }
    }
}

impl From<FileLoadMethod> for u32 {
    fn from(value: FileLoadMethod) -> (r: u32) {
        let (kind, index): (u32, u32) = match value {
            FileLoadMethod::Unowned(v) => (0x00, v),
            FileLoadMethod::Owned(v) => (0x01, v),
            FileLoadMethod::PackageSkip(v) => (0x03, v),
            FileLoadMethod::Unknown => (0x05, 0),
            FileLoadMethod::SharedButOwned(v) => (0x09, v),
            FileLoadMethod::UnsupportedRegionLocale(v) => (0x10, v),
        };
        (kind << 24) | index
    }
}

impl vstd::std_specs::convert::FromSpecImpl<FileLoadMethod> for u32 {
    open spec fn obeys_from_spec() -> bool {
        true
    }

    open spec fn from_spec(value: FileLoadMethod) -> u32 {
        value.raw()
    }
}

/// A load method with a 24-bit index reads back as it was stored.
pub proof fn law_load_method(method: FileLoadMethod)
    requires
        method.index() < 0x100_0000,
    ensures
        FileLoadMethod::is_known(method.raw()),
        FileLoadMethod::of_raw(method.raw()) == method,
{
    let k = method.kind();
    let i = method.index();
    assert((k << 24) | i == k * 0x100_0000 + i) by (bit_vector)
        requires
            k <= 0x10,
            i < 0x100_0000,
    ;
}

/// Which data a file is loaded from, and how.
#[derive(Copy, Clone, Debug, PartialEq, Eq, Structural)]
pub struct FileDescriptor {
    pub group: u32,
    pub file_data: u32,
    pub load_method: u32,
}

impl FileDescriptor {
    pub fn new(group: u32, file_data: u32, load_method: FileLoadMethod) -> (r: FileDescriptor)
        ensures
            r == (FileDescriptor { group, file_data, load_method: load_method.raw() }),
    {
        FileDescriptor { group, file_data, load_method: u32::from(load_method) }
    }

    pub fn set_data(&mut self, data: u32)
        ensures
            *final(self) == (FileDescriptor { file_data: data, ..*old(self) }),
    {
        self.file_data = data;
    }

    pub fn load_method(&self) -> (r: FileLoadMethod)
        requires
            FileLoadMethod::is_known(self.load_method),
        ensures
            r == FileLoadMethod::of_raw(self.load_method),
    {
        match FileLoadMethod::from_raw(self.load_method) {
            Some(method) => method,
            None => FileLoadMethod::Unknown,
        }
    }

    pub fn set_load_method(&mut self, method: FileLoadMethod)
        ensures
            *final(self) == (FileDescriptor { load_method: method.raw(), ..*old(self) }),
    {
        self.load_method = u32::from(method);
    }

    pub fn group_idx(&self) -> (r: u32)
        ensures
            r == self.group,
    {
        self.group
    }

    pub fn set_group(&mut self, group: u32)
        ensures
            *final(self) == (FileDescriptor { group, ..*old(self) }),
    {
        self.group = group;
    }
}

/// An entry of a package or a group: a path together with the data to load for it.
#[derive(Copy, Clone, Debug, PartialEq, Eq, Structural)]
pub struct FileInfo {
    pub path: u32,
    pub entity: u32,
    pub desc: u32,
    pub flags: FileInfoFlags,
}

impl FileInfo {
    /// Index of the descriptor that is in force under the preferences. Regional and localized
    /// files have one descriptor for each region or locale, behind an unused one.
    pub open spec fn spec_desc_index(self, prefs: LocalePreferences) -> int {
        if self.flags.has(INFO_IS_REGIONAL) {
            self.desc + prefs.region.number() + 1
        } else if self.flags.has(INFO_IS_LOCALIZED) {
            self.desc + prefs.locale.number() + 1
        } else {
            self.desc as int
        }
    }

    pub fn new(path: u32, entity: u32, desc: u32, flags: FileInfoFlags) -> (r: FileInfo)
        ensures
            r == (FileInfo { path, entity, desc, flags }),
    {
        FileInfo { path, entity, desc, flags }
    }

    pub fn is_regional(&self) -> (r: bool)
        ensures
            r == self.flags.has(INFO_IS_REGIONAL),
    {
        self.flags.intersects(INFO_IS_REGIONAL)
    }

    pub fn is_localized(&self) -> (r: bool)
        ensures
            r == self.flags.has(INFO_IS_LOCALIZED),
    {
        self.flags.intersects(INFO_IS_LOCALIZED)
    }

    /// Index of the descriptor that is in force, unless it is past what 32 bits can count.
    pub fn desc_index(&self, prefs: LocalePreferences) -> (r: Option<u32>)
        ensures
            r is Some <==> self.spec_desc_index(prefs) <= u32::MAX,
            r matches Some(i) ==> i == self.spec_desc_index(prefs),
    {
        if self.is_regional() {
            self.desc.checked_add(prefs.region.index() + 1)
        } else if self.is_localized() {
            self.desc.checked_add(prefs.locale.index() + 1)
        } else {
            Some(self.desc)
        }
    }

    pub fn flags(&self) -> (r: FileInfoFlags)
        ensures
            r == self.flags,
    {
        self.flags
    }

    pub fn set_flags(&mut self, flags: FileInfoFlags)
        ensures
            *final(self) == (FileInfo { flags, ..*old(self) }),
    {
        self.flags = flags;
    }

    /// Gives the file one descriptor for all regions and locales. Bits that are no flag are cleared too.
    pub fn set_non_localized(&mut self)
        ensures
            *final(self) == (FileInfo { flags: old(self).flags.non_localized(), ..*old(self) }),
    {
        self.flags = FileInfoFlags { bits: self.flags.bits & INFO_ALL_BUT_LOCALIZED };
    }

    pub fn set_as_reshared(&mut self)
        requires
            !old(self).flags.has(INFO_IS_RESHARED),
        ensures
            *final(self) == (FileInfo {
                flags: old(self).flags.plus(INFO_IS_RESHARED),
                ..*old(self)
            }),
    {
        self.flags.set(INFO_IS_RESHARED, true);
    }

    pub fn set_as_group_fixed(&mut self)
        requires
            !old(self).flags.has(INFO_IS_GROUP_FIXED),
        ensures
            *final(self) == (FileInfo {
                flags: old(self).flags.plus(INFO_IS_GROUP_FIXED),
                ..*old(self)
            }),
    {
        self.flags.set(INFO_IS_GROUP_FIXED, true);
    }

    pub fn set_path(&mut self, path: u32)
        ensures
            *final(self) == (FileInfo { path, ..*old(self) }),
    {
        self.path = path;
    }

    pub fn set_entity(&mut self, entity: u32)
        ensures
            *final(self) == (FileInfo { entity, ..*old(self) }),
    {
        self.entity = entity;
    }

    /// Points the file at another descriptor. A regional or localized file has several of them and
    /// has to be made non-localized first.
    pub fn set_desc(&mut self, desc: u32)
        requires
            !old(self).flags.has(INFO_LOCALIZED_OR_REGIONAL),
        ensures
            *final(self) == (FileInfo { desc, ..*old(self) }),
    {
        self.desc = desc;
    }
}

/// A file that was made non-localized is neither localized nor regional, and has every other flag as it
/// had it.
pub proof fn law_non_localized_flags(flags: FileInfoFlags, other: u32)
    requires
        other & INFO_ALL_BUT_LOCALIZED == other,
    ensures
        !flags.non_localized().has(INFO_LOCALIZED_OR_REGIONAL),
        flags.non_localized().has(other) == flags.has(other),
{
    let b = flags.bits;
    assert((b & 0xC030_1010) & 0x3_0000 == 0 && (b & 0xC030_1010) & other == b & other) by (bit_vector)
        requires
            other & 0xC030_1010 == other,
    ;
}

/// A file without the localized and the regional flag has its one descriptor in force under all
/// preferences.
pub proof fn law_non_localized_desc(info: FileInfo, prefs: LocalePreferences)
    ensures
        (FileInfo { flags: info.flags.non_localized(), ..info }).spec_desc_index(prefs) == info.desc,
        !info.flags.has(INFO_LOCALIZED_OR_REGIONAL) ==> info.spec_desc_index(prefs) == info.desc,
{
    let b = info.flags.bits;
    assert((b & 0xC030_1010) & 0x2_0000 == 0 && (b & 0xC030_1010) & 0x1_0000 == 0 && (b & 0x3_0000 == 0
        ==> b & 0x2_0000 == 0 && b & 0x1_0000 == 0)) by (bit_vector);
}

/// Unique file data: which info it is loaded by, and the package or group of that info.
#[derive(Copy, Clone, Debug, PartialEq, Eq, Structural)]
pub struct FileEntity {
    pub package_or_group: u32,
    pub info: u32,
}

impl FileEntity {
    pub fn new(package_or_group: u32, info: u32) -> (r: FileEntity)
        ensures
            r == (FileEntity { package_or_group, info }),
    {
        FileEntity { package_or_group, info }
    }

    pub fn package_or_group(&self) -> (r: u32)
        ensures
            r == self.package_or_group,
    {
        self.package_or_group
    }

    pub fn set_info(&mut self, index: u32)
        ensures
            *final(self) == (FileEntity { info: index, ..*old(self) }),
    {
        self.info = index;
    }
}

/// A path of the archive.
#[derive(Copy, Clone, Debug, PartialEq, Eq, Structural)]
pub struct FilePath {
    pub path_and_entity: HashWithData,
    pub ext_and_version: HashWithData,
    pub parent: Hash,
    pub file_name: Hash,
}

impl FilePath {
    /// The path with the given hashes and entity. It has no earlier version.
    pub open spec fn of_parts(
        path: Hash40,
        parent: Hash40,
        file_name: Hash40,
        extension: Hash40,
        entity: u32,
    ) -> FilePath {
        FilePath {
            path_and_entity: HashWithData::of(path, entity),
            ext_and_version: HashWithData::of(extension, 0xFF_FFFF),
            parent: Hash::of(parent),
            file_name: Hash::of(file_name),
        }
    }

    pub open spec fn spec_path(self) -> Hash40 {
        self.path_and_entity.spec_hash40()
    }

    pub open spec fn spec_parent(self) -> Hash40 {
        self.parent.spec_hash40()
    }

    pub open spec fn spec_file_name(self) -> Hash40 {
        self.file_name.spec_hash40()
    }

    pub open spec fn spec_extension(self) -> Hash40 {
        self.ext_and_version.spec_hash40()
    }

    pub open spec fn spec_entity(self) -> u32 {
        self.path_and_entity.spec_data()
    }

    /// The record of a path that has a parent. Its entity is not known yet.
    pub open spec fn of_path(path: Seq<char>) -> Option<FilePath> {
        match path_parent(path) {
            Some(p) => Some(
                FilePath::of_parts(
                    hash40_str(path),
                    folder_hash(p),
                    hash_or_zero(path_file_name(path)),
                    hash_or_zero(extension_in(path_file_name(path))),
                    0xFF_FFFF,
                ),
            ),
            None => None,
        }
    }

    /// The record of a path, unless it has no parent.
    pub fn from_utf8_path(path: &str) -> (r: Option<FilePath>)
        ensures
            r == FilePath::of_path(path@),
    {
        let Some(folder) = parent(path) else {
            return None;
        };
        let mut parent_hash = Hash40::const_new(folder.as_str());
        if !ends_with_slash(folder.as_str()) {
            proof {
                law_with(encode_utf8(folder@), encode_utf8("/"@));
            }
            parent_hash = parent_hash.const_with("/");
        }
        let name_hash = match file_name(path) {
            Some(name) => Hash40::const_new(name.as_str()),
            None => Hash40::from_raw(0),
        };
        let extension_hash = match extension(path) {
            Some(name) => Hash40::const_new(name.as_str()),
            None => Hash40::from_raw(0),
        };
        Some(
            FilePath::from_parts(
                Hash40::const_new(path),
                parent_hash,
                name_hash,
                extension_hash,
                0xFF_FFFF,
            ),
        )
    }

    pub fn from_parts(
        path: Hash40,
        parent: Hash40,
        file_name: Hash40,
        extension: Hash40,
        entity: u32,
    ) -> (r: FilePath)
        ensures
            r == FilePath::of_parts(path, parent, file_name, extension, entity),
    {
        FilePath {
            path_and_entity: HashWithData::new(path, entity),
            ext_and_version: HashWithData::new(extension, 0xFF_FFFF),
            parent: Hash::from_hash40(parent),
            file_name: Hash::from_hash40(file_name),
        }
    }

    pub fn path(&self) -> (r: Hash40)
        ensures
            r == self.spec_path(),
    {
        self.path_and_entity.hash40()
    }

    /// Hash of the parent folder, with a `/` at its end.
    pub fn parent(&self) -> (r: Hash40)
        ensures
            r == self.spec_parent(),
    {
        self.parent.hash40()
    }

    pub fn file_name(&self) -> (r: Hash40)
        ensures
            r == self.spec_file_name(),
    {
        self.file_name.hash40()
    }

    pub fn extension(&self) -> (r: Hash40)
        ensures
            r == self.spec_extension(),
    {
        self.ext_and_version.hash40()
    }
}

/// Is the last byte a slash?
pub open spec fn slash_last(s: Seq<u8>) -> bool {
    s.len() > 0 && s.last() == 0x2F
}

/// Hash of a folder with a slash at its end.
pub open spec fn folder_hash(folder: Seq<char>) -> Hash40 {
    let b = encode_utf8(folder);
    if slash_last(b) {
        hash40(b)
    } else {
        hash40(b + encode_utf8("/"@))
    }
}

/// Hash of a string, or zero if there is none.
pub open spec fn hash_or_zero(s: Option<Seq<char>>) -> Hash40 {
    match s {
        Some(x) => hash40_str(x),
        None => Hash40(0),
    }
}

fn ends_with_slash(s: &str) -> (r: bool)
    ensures
        r == slash_last(encode_utf8(s@)),
{
    let b = s.as_bytes();
    b.len() > 0 && b[b.len() - 1] == 0x2F
}

/// The folder and the name of a plain path make up the path: joining their hashes gives its hash. The
/// name has to fit the 8 bits that a hash keeps of its length.
pub proof fn law_path_from_parts(names: Seq<Seq<char>>)
    requires
        is_plain(names),
        names.len() > 1,
        encode_utf8(names.last()).len() < 256,
    ensures
        spec_with_hash(folder_hash(joined(names.drop_last())), hash40_str(names.last()))
            == hash40_str(joined(names)),
{
    let p = joined(names.drop_last());
    let n = names.last();
    lemma_joined_last(names.drop_last());
    lemma_slash_last(p);
    encode_utf8_concat(p, seq!['/']);
    encode_utf8_concat(p + seq!['/'], n);
    reveal_strlit("/");
    assert("/"@ =~= seq!['/']);
    law_with_hash(encode_utf8(p) + encode_utf8("/"@), encode_utf8(n));
}

/// A set of files that are loaded together.
#[derive(Copy, Clone, Debug, PartialEq, Eq, Structural)]
pub struct FilePackage {
    pub path_and_group: HashWithData,
    pub name: Hash,
    pub parent: Hash,
    pub lifetime: Hash,
    pub info_start: u32,
    pub info_count: u32,
    pub child_start: u32,
    pub child_count: u32,
    pub flags: FilePackageFlags,
}

impl FilePackage {
    /// A package without files, children or flags.
    pub open spec fn bare(path: Hash40, name: Hash40, parent: Hash40, group: u32) -> FilePackage {
        FilePackage {
            path_and_group: HashWithData::of(path, group),
            name: Hash::of(name),
            parent: Hash::of(parent),
            lifetime: Hash::of(hash40_str(""@)),
            info_start: 0,
            info_count: 0,
            child_start: 0,
            child_count: 0,
            flags: FilePackageFlags { bits: 0 },
        }
    }

    pub open spec fn spec_path(self) -> Hash40 {
        self.path_and_group.spec_hash40()
    }

    pub open spec fn spec_name(self) -> Hash40 {
        self.name.spec_hash40()
    }

    pub open spec fn spec_parent(self) -> Hash40 {
        self.parent.spec_hash40()
    }

    pub open spec fn spec_data_group(self) -> u32 {
        self.path_and_group.spec_data()
    }

    pub open spec fn spec_has_file_group(self) -> bool {
        self.flags.bits & PACKAGE_SUB_PACKAGE_OR_SYM_LINK == PACKAGE_HAS_SUB_PACKAGE
    }

    pub open spec fn spec_has_sym_link(self) -> bool {
        self.flags.bits & PACKAGE_SUB_PACKAGE_OR_SYM_LINK == PACKAGE_SUB_PACKAGE_OR_SYM_LINK
    }

    pub fn new<P: IntoHash, N: IntoHash, Q: IntoHash>(path: P, name: N, parent: Q, group: u32) -> (r:
        FilePackage)
        ensures
            r == FilePackage::bare(path.hash_of(), name.hash_of(), parent.hash_of(), group),
    {
        FilePackage {
            path_and_group: HashWithData::new(path.into_hash(), group),
            name: Hash::from_hash40(name.into_hash()),
            parent: Hash::from_hash40(parent.into_hash()),
            lifetime: Hash::from_hash40(Hash40::const_new("")),
            info_start: 0,
            info_count: 0,
            child_start: 0,
            child_count: 0,
            flags: FilePackageFlags::empty(),
        }
    }

    pub fn path(&self) -> (r: Hash40)
        ensures
            r == self.spec_path(),
    {
        self.path_and_group.hash40()
    }

    pub fn name(&self) -> (r: Hash40)
        ensures
            r == self.spec_name(),
    {
        self.name.hash40()
    }

    pub fn parent(&self) -> (r: Hash40)
        ensures
            r == self.spec_parent(),
    {
        self.parent.hash40()
    }

    pub fn set_data_group(&mut self, group: u32)
        ensures
            *final(self) == (FilePackage {
                path_and_group: old(self).path_and_group.with_data(group),
                ..*old(self)
            }),
    {
        self.path_and_group.set_data(group);
    }

    pub fn set_child_package_range(&mut self, start: u32, count: u32)
        ensures
            *final(self) == (FilePackage { child_start: start, child_count: count, ..*old(self) }),
    {
        self.child_start = start;
        self.child_count = count;
    }

    pub fn has_file_group(&self) -> (r: bool)
        ensures
            r == self.spec_has_file_group(),
    {
        self.flags.bits & PACKAGE_SUB_PACKAGE_OR_SYM_LINK == PACKAGE_HAS_SUB_PACKAGE
    }

    pub fn has_sym_link(&self) -> (r: bool)
        ensures
            r == self.spec_has_sym_link(),
    {
        self.flags.bits & PACKAGE_SUB_PACKAGE_OR_SYM_LINK == PACKAGE_SUB_PACKAGE_OR_SYM_LINK
    }

    pub fn set_info_range(&mut self, start: u32, count: u32)
        ensures
            *final(self) == (FilePackage { info_start: start, info_count: count, ..*old(self) }),
    {
        self.info_start = start;
        self.info_count = count;
    }

    pub fn flags(&self) -> (r: FilePackageFlags)
        ensures
            r == self.flags,
    {
        self.flags
    }

    pub fn set_flags(&mut self, flags: FilePackageFlags)
        ensures
            *final(self) == (FilePackage { flags, ..*old(self) }),
    {
        self.flags = flags;
    }
}

/// No package has a file group and a symbolic link both.
pub proof fn law_group_or_link(package: FilePackage)
    ensures
        !(package.spec_has_file_group() && package.spec_has_sym_link()),
{
}

/// A package below another one.
#[derive(Copy, Clone, Debug, PartialEq, Eq, Structural)]
pub struct FilePackageChild {
    pub path_and_package: HashWithData,
}

impl FilePackageChild {
    pub open spec fn spec_path(self) -> Hash40 {
        self.path_and_package.spec_hash40()
    }

    pub fn new(path: Hash40, index: u32) -> (r: FilePackageChild)
        ensures
            r == (FilePackageChild { path_and_package: HashWithData::of(path, index) }),
    {
        FilePackageChild { path_and_package: HashWithData::new(path, index) }
    }

    pub fn path(&self) -> (r: Hash40)
        ensures
            r == self.spec_path(),
    {
        self.path_and_package.hash40()
    }
}

/// A run of bytes of the archive that is loaded as a whole.
#[derive(Copy, Clone, Debug, PartialEq, Eq, Structural)]
pub struct FileGroup {
    pub archive_offset: u64,
    pub decompressed_size: u32,
    pub compressed_size: u32,
    pub child_start: u32,
    pub child_count: u32,
    pub redirection: u32,
}

impl FileGroup {
    /// The group of a package that was added. It pretends to have data, so that it is loaded.
    pub open spec fn fresh() -> FileGroup {
        FileGroup {
            archive_offset: 0,
            decompressed_size: 0x10,
            compressed_size: 0x10,
            child_start: 0,
            child_count: 0,
            redirection: 0xFF_FFFF,
        }
    }

    pub fn new_for_new_package() -> (r: FileGroup)
        ensures
            r == FileGroup::fresh(),
    {
        FileGroup {
            archive_offset: 0,
            decompressed_size: 0x10,
            compressed_size: 0x10,
            child_start: 0,
            child_count: 0,
            redirection: 0xFF_FFFF,
        }
    }

    pub fn redirection(&self) -> (r: u32)
        ensures
            r == self.redirection,
    {
        self.redirection
    }

    pub fn set_redirection(&mut self, redirection: u32)
        ensures
            *final(self) == (FileGroup { redirection, ..*old(self) }),
    {
        self.redirection = redirection;
    }

    pub fn compressed_size(&self) -> (r: u32)
        ensures
            r == self.compressed_size,
    {
        self.compressed_size
    }

    pub fn set_compressed_size(&mut self, new_size: u32)
        ensures
            *final(self) == (FileGroup { compressed_size: new_size, ..*old(self) }),
    {
        self.compressed_size = new_size;
    }
}

/// Where in the archive a streamed file's bytes are.
#[derive(Copy, Clone, Debug, PartialEq, Eq, Structural)]
pub struct StreamData {
    pub size: u64,
    pub offset: u64,
}

#[derive(Copy, Clone, Debug, PartialEq, Eq, Structural)]
pub struct StreamEntity {
    pub stream_data: u32,
}

#[derive(Copy, Clone, Debug, PartialEq, Eq, Structural)]
pub struct StreamFolder {
    pub name_and_child_count: HashWithData,
    pub child_start_index: u32,
}

#[derive(Copy, Clone, Debug, PartialEq, Eq, Structural)]
pub struct StreamPath {
    pub path_and_desc: HashWithData,
    pub flags: StreamFileFlags,
}

/// A folder of the search tree. Its children form a linked list.
#[derive(Copy, Clone, Debug, PartialEq, Eq, Structural)]
pub struct SearchFolder {
    pub path_and_folder_count: HashWithData,
    pub parent_and_file_count: HashWithData,
    pub name: Hash,
    pub first_child_index: u32,
    pub padding: u32,
}

impl SearchFolder {
    /// A folder without children.
    pub open spec fn bare(path: Hash40, parent: Hash40, name: Hash40) -> SearchFolder {
        SearchFolder {
            path_and_folder_count: HashWithData::of(path, 0),
            parent_and_file_count: HashWithData::of(parent, 0),
            name: Hash::of(name),
            first_child_index: u32::MAX,
            padding: 0,
        }
    }

    pub open spec fn spec_path(self) -> Hash40 {
        self.path_and_folder_count.spec_hash40()
    }

    pub open spec fn spec_has_first_child(self) -> bool {
        self.first_child_index != u32::MAX
    }

    pub fn new<P: IntoHash, Q: IntoHash, N: IntoHash>(path: P, parent: Q, name: N) -> (r:
        SearchFolder)
        ensures
            r == SearchFolder::bare(path.hash_of(), parent.hash_of(), name.hash_of()),
    {
        SearchFolder {
            path_and_folder_count: HashWithData::new(path.into_hash(), 0),
            parent_and_file_count: HashWithData::new(parent.into_hash(), 0),
            name: Hash::from_hash40(name.into_hash()),
            first_child_index: u32::MAX,
            padding: 0,
        }
    }

    pub fn path(&self) -> (r: Hash40)
        ensures
            r == self.spec_path(),
    {
        self.path_and_folder_count.hash40()
    }

    pub fn folder_count(&self) -> (r: u32)
        ensures
            r == self.path_and_folder_count.spec_data(),
    {
        self.path_and_folder_count.data()
    }

    pub fn set_folder_count(&mut self, count: u32)
        ensures
            *final(self) == (SearchFolder {
                path_and_folder_count: old(self).path_and_folder_count.with_data(count),
                ..*old(self)
            }),
    {
        self.path_and_folder_count.set_data(count);
    }

    pub fn name(&self) -> (r: Hash40)
        ensures
            r == self.name.spec_hash40(),
    {
        self.name.hash40()
    }

    pub fn parent(&self) -> (r: Hash40)
        ensures
            r == self.parent_and_file_count.spec_hash40(),
    {
        self.parent_and_file_count.hash40()
    }

    pub fn file_count(&self) -> (r: u32)
        ensures
            r == self.parent_and_file_count.spec_data(),
    {
        self.parent_and_file_count.data()
    }

    pub fn set_file_count(&mut self, count: u32)
        ensures
            *final(self) == (SearchFolder {
                parent_and_file_count: old(self).parent_and_file_count.with_data(count),
                ..*old(self)
            }),
    {
        self.parent_and_file_count.set_data(count);
    }

    pub fn set_first_child_index(&mut self, index: u32)
        ensures
            *final(self) == (SearchFolder { first_child_index: index, ..*old(self) }),
    {
        self.first_child_index = index;
    }

    pub fn has_first_child(&self) -> (r: bool)
        ensures
            r == self.spec_has_first_child(),
    {
        self.first_child_index != u32::MAX
    }
}

/// Marks folders among the search paths.
pub const SEARCH_IS_FOLDER_BIT: u32 = 0x40_0000;

/// The next index of the last child of a folder.
pub const SEARCH_END: u32 = 0xFF_FFFF;

/// A file or a folder of the search tree.
#[derive(Copy, Clone, Debug, PartialEq, Eq, Structural)]
pub struct SearchPath {
    pub path_and_next_index: HashWithData,
    pub parent_and_is_folder: HashWithData,
    pub name: Hash,
    pub extension: Hash,
}

impl SearchPath {
    /// A folder that is the last child of its parent.
    pub open spec fn folder(path: Hash40, parent: Hash40, name: Hash40) -> SearchPath {
        SearchPath {
            path_and_next_index: HashWithData::of(path, SEARCH_END),
            parent_and_is_folder: HashWithData::of(parent, SEARCH_IS_FOLDER_BIT),
            name: Hash::of(name),
            extension: Hash::of(hash40_str(""@)),
        }
    }

    /// A file that is the last child of its parent.
    pub open spec fn file(path: Hash40, parent: Hash40, name: Hash40, extension: Hash40) -> SearchPath {
        SearchPath {
            path_and_next_index: HashWithData::of(path, SEARCH_END),
            parent_and_is_folder: HashWithData::of(parent, 0),
            name: Hash::of(name),
            extension: Hash::of(extension),
        }
    }

    /// The search path of a file of the archive. Parents have no `/` at their end here.
    pub open spec fn of_file_path(path: FilePath) -> SearchPath {
        SearchPath::file(
            path.spec_path(),
            spec_trim(path.spec_parent(), encode_utf8("/"@)),
            path.spec_file_name(),
            path.spec_extension(),
        )
    }

    pub open spec fn spec_path(self) -> Hash40 {
        self.path_and_next_index.spec_hash40()
    }

    pub open spec fn spec_parent(self) -> Hash40 {
        self.parent_and_is_folder.spec_hash40()
    }

    pub open spec fn spec_name(self) -> Hash40 {
        self.name.spec_hash40()
    }

    pub open spec fn next_index(self) -> u32 {
        self.path_and_next_index.spec_data()
    }

    pub open spec fn spec_is_folder(self) -> bool {
        self.parent_and_is_folder.spec_data() & SEARCH_IS_FOLDER_BIT != 0
    }

    pub open spec fn spec_is_end(self) -> bool {
        self.next_index() == SEARCH_END
    }

    /// The path with another successor.
    pub open spec fn with_next(self, index: u32) -> SearchPath {
        SearchPath { path_and_next_index: self.path_and_next_index.with_data(index), ..self }
    }

    pub fn new_folder<P: IntoHash, Q: IntoHash, N: IntoHash>(path: P, parent: Q, name: N) -> (r:
        SearchPath)
        ensures
            r == SearchPath::folder(path.hash_of(), parent.hash_of(), name.hash_of()),
    {
        SearchPath {
            path_and_next_index: HashWithData::new(path.into_hash(), SEARCH_END),
            parent_and_is_folder: HashWithData::new(parent.into_hash(), SEARCH_IS_FOLDER_BIT),
            name: Hash::from_hash40(name.into_hash()),
            extension: Hash::from_hash40(Hash40::const_new("")),
        }
    }

    pub fn new<P: IntoHash, Q: IntoHash, N: IntoHash, E: IntoHash>(
        path: P,
        parent: Q,
        name: N,
        extension: E,
    ) -> (r: SearchPath)
        ensures
            r == SearchPath::file(
                path.hash_of(),
                parent.hash_of(),
                name.hash_of(),
                extension.hash_of(),
            ),
    {
        SearchPath {
            path_and_next_index: HashWithData::new(path.into_hash(), SEARCH_END),
            parent_and_is_folder: HashWithData::new(parent.into_hash(), 0),
            name: Hash::from_hash40(name.into_hash()),
            extension: Hash::from_hash40(extension.into_hash()),
        }
    }

    pub fn from_file_path(path: &FilePath) -> (r: SearchPath)
        ensures
            r == SearchPath::of_file_path(*path),
    {
        SearchPath::new(
            path.path(),
            path.parent().const_trim_trailing("/"),
            path.file_name(),
            path.extension(),
        )
    }

    pub fn path(&self) -> (r: Hash40)
        ensures
            r == self.spec_path(),
    {
        self.path_and_next_index.hash40()
    }

    pub fn parent(&self) -> (r: Hash40)
        ensures
            r == self.spec_parent(),
    {
        self.parent_and_is_folder.hash40()
    }

    pub fn name(&self) -> (r: Hash40)
        ensures
            r == self.spec_name(),
    {
        self.name.hash40()
    }

    /// Hash of the extension. Folders have none.
    pub fn extension(&self) -> (r: Option<Hash40>)
        ensures
            r == if self.spec_is_folder() {
                None
            } else {
                Some(self.extension.spec_hash40())
            },
    {
        if self.is_folder() {
            None
        } else {
            Some(self.extension.hash40())
        }
    }

    pub fn is_folder(&self) -> (r: bool)
        ensures
            r == self.spec_is_folder(),
    {
        self.parent_and_is_folder.data() & SEARCH_IS_FOLDER_BIT != 0
    }

    pub fn is_end(&self) -> (r: bool)
        ensures
            r == self.spec_is_end(),
    {
        self.path_and_next_index.data() == SEARCH_END
    }

    pub fn set_end(&mut self)
        ensures
            *final(self) == old(self).with_next(SEARCH_END),
            final(self).spec_is_end(),
    {
        self.set_next_index(SEARCH_END);
    }

    pub fn set_next_index(&mut self, index: u32)
        ensures
            *final(self) == old(self).with_next(index),
    {
        self.path_and_next_index.set_data(index);
    }
}

/// New folders are folders, new files are not, and both end the list of their parent's children.
pub proof fn law_new_search_path(path: Hash40, parent: Hash40, name: Hash40, extension: Hash40)
    ensures
        SearchPath::folder(path, parent, name).spec_is_folder(),
        !SearchPath::file(path, parent, name, extension).spec_is_folder(),
        SearchPath::folder(path, parent, name).spec_is_end(),
        SearchPath::file(path, parent, name, extension).spec_is_end(),
        path.wf() ==> SearchPath::file(path, parent, name, extension).spec_path() == path,
        path.wf() ==> SearchPath::folder(path, parent, name).spec_path() == path,
{
    assert(0x40_0000u32 & 0x40_0000 != 0 && 0u32 & 0x40_0000 == 0) by (bit_vector);
    assert(HashWithData::of(parent, SEARCH_IS_FOLDER_BIT).spec_data() == 0x40_0000);
    assert(HashWithData::of(parent, 0).spec_data() == 0);
}

/// Points lookups at search paths, so that a path can be replaced without touching the lookup.
#[derive(Copy, Clone, Debug, PartialEq, Eq, Structural)]
pub struct SearchPathLink {
    pub index: u32,
}

impl SearchPathLink {
    pub open spec fn spec_is_invalid(self) -> bool {
        self.index == u32::MAX
    }

    pub fn new(path_index: u32) -> (r: SearchPathLink)
        ensures
            r == (SearchPathLink { index: path_index }),
    {
        SearchPathLink { index: path_index }
    }

    pub fn path_index(&self) -> (r: u32)
        ensures
            r == self.index,
    {
        self.index
    }

    pub fn invalid() -> (r: SearchPathLink)
        ensures
            r.spec_is_invalid(),
    {
        SearchPathLink { index: u32::MAX }
    }

    pub fn is_invalid(&self) -> (r: bool)
        ensures
            r == self.spec_is_invalid(),
    {
        self.index == u32::MAX
    }
}

/// The record of a path has the hashes of the path, of its folder with a slash at the end, of its file name
/// and of its extension. It leads to no entity yet.
pub proof fn law_path_record(path: Seq<char>, folder: Seq<char>, name: Seq<char>, extension: Seq<char>)
    requires
        path_parent(path) == Some(folder),
        path_file_name(path) == Some(name),
        extension_in(Some(name)) == Some(extension),
        folder.len() > 0,
        folder.last() != '/',
    ensures
        FilePath::of_path(path) matches Some(r) && {
            &&& r.spec_path() == hash40_str(path)
            &&& r.spec_parent() == hash40_str(folder + "/"@)
            &&& r.spec_file_name() == hash40_str(name)
            &&& r.spec_extension() == hash40_str(extension)
            &&& r.spec_entity() == 0xFF_FFFF
        },
{
    lemma_slash_last(folder);
    encode_utf8_concat(folder, "/"@);
    law_hash40_wf(Hash40(0), Hash40(0), encode_utf8(path));
    law_hash40_wf(Hash40(0), Hash40(0), encode_utf8(folder + "/"@));
    law_hash40_wf(Hash40(0), Hash40(0), encode_utf8(name));
    law_hash40_wf(Hash40(0), Hash40(0), encode_utf8(extension));
    law_hash_with_data(hash40_str(path), 0xFF_FFFF);
    law_hash_with_data(hash40_str(folder + "/"@), 0);
    law_hash_with_data(hash40_str(name), 0);
    law_hash_with_data(hash40_str(extension), 0xFF_FFFF);
}

/// The descriptor in force of a regional file is that of the player's region, and that of a file that is only
/// localized is that of the locale. Both kinds have them in order, behind one that is not used. Any other file
/// has one descriptor.
pub proof fn law_desc_in_force(info: FileInfo, prefs: LocalePreferences)
    ensures
        info.flags.bits & 0x2_0000 != 0 ==> info.spec_desc_index(prefs) == info.desc + 1
            + prefs.region.number(),
        info.flags.bits & 0x2_0000 == 0 && info.flags.bits & 0x1_0000 != 0 ==> info.spec_desc_index(prefs)
            == info.desc + 1 + prefs.locale.number(),
        info.flags.bits & 0x2_0000 == 0 && info.flags.bits & 0x1_0000 == 0 ==> info.spec_desc_index(prefs)
            == info.desc,
{
}

/// A package leads to a group of files if it has a package below it and is no link, and to another package if
/// it is a link too.
pub proof fn law_package_kind(package: FilePackage)
    ensures
        package.spec_has_file_group() <==> package.flags.has(0x400_0000) && !package.flags.has(0x1000_0000),
        package.spec_has_sym_link() <==> package.flags.has(0x400_0000) && package.flags.has(0x1000_0000),
{
    let b = package.flags.bits;
    assert((b & 0x1400_0000 == 0x400_0000 <==> b & 0x400_0000 != 0 && b & 0x1000_0000 == 0) && (b & 0x1400_0000
        == 0x1400_0000 <==> b & 0x400_0000 != 0 && b & 0x1000_0000 != 0)) by (bit_vector);
}

} // verus!
