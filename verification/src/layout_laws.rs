//! How records and headers are laid out in words.

use crate::archive::{ResourceView, SearchView};
use crate::data::{
    FileData, FileDescriptor, FileEntity, FileGroup, FileInfo, FileLoadMethod, FilePackage,
    FilePackageChild, FilePath, HashWithData, SearchFolder, SearchPath, SearchPathLink, StreamData,
    StreamEntity, StreamFolder, StreamPath, FILE_IS_COMPRESSED, FILE_IS_LOCALIZED_VERSIONED_DATA,
    FILE_IS_REGIONAL_VERSIONED_DATA, FILE_IS_ZSTD_COMPRESSION, INFO_ALL_BUT_LOCALIZED,
    INFO_IS_GRAPHICS_ARCHIVE, INFO_IS_GROUP_FIXED, INFO_IS_LOCALIZED, INFO_IS_REGIONAL,
    INFO_IS_REGULAR_FILE, INFO_IS_RESHARED, INFO_IS_SHARED, INFO_IS_UNKNOWN_FLAG,
    INFO_LOCALIZED_OR_REGIONAL, INFO_SHARED_AND_UNKNOWN, PACKAGE_ALL_BUT_REGIONAL,
    PACKAGE_HAS_SUB_PACKAGE, PACKAGE_IS_LOCALIZED, PACKAGE_IS_REGIONAL, PACKAGE_IS_SYM_LINK,
    PACKAGE_SUB_PACKAGE_OR_SYM_LINK, PACKAGE_SYM_LINK_IS_REGIONAL, SEARCH_END, SEARCH_IS_FOLDER_BIT,
    STREAM_IS_LOCALIZED, STREAM_IS_REGIONAL,
};
use crate::words::Record;
use vstd::prelude::*;

verus! {

/// A hash is its checksum and its length. Where a record keeps an index with a hash, the index stands above
/// the 8 bits of the length.
pub proof fn law_hash_layout(h: crate::data::Hash, d: HashWithData)
    ensures
        h.words() == seq![h.crc, h.len],
        d.words() == seq![d.crc, d.len_and_data],
        d.len_and_data == 0x100 * d.spec_data() + d.spec_hash40().spec_length(),
        d.spec_hash40().spec_crc32() == d.crc,
        h.spec_hash40().0 == 0x1_0000_0000 * h.len + h.crc,
{
    assert(h.words() =~= seq![h.crc, h.len]);
    assert(d.words() =~= seq![d.crc, d.len_and_data]);
}

/// The words of infos, descriptors, data and entities.
pub proof fn law_file_layout(info: FileInfo, desc: FileDescriptor, data: FileData, entity: FileEntity)
    ensures
        info.words() == seq![info.path, info.entity, info.desc, info.flags.bits],
        desc.words() == seq![desc.group, desc.file_data, desc.load_method],
        data.words() == seq![
            data.in_group_offset,
            data.compressed_size,
            data.decompressed_size,
            data.flags.bits,
        ],
        entity.words() == seq![entity.package_or_group, entity.info],
{
    assert(info.words() =~= seq![info.path, info.entity, info.desc, info.flags.bits]);
    assert(desc.words() =~= seq![desc.group, desc.file_data, desc.load_method]);
    assert(data.words() =~= seq![
        data.in_group_offset,
        data.compressed_size,
        data.decompressed_size,
        data.flags.bits,
    ]);
    assert(entity.words() =~= seq![entity.package_or_group, entity.info]);
}

/// The words of a path: its hash and entity, its extension and version, its folder and its name.
pub proof fn law_path_layout(path: FilePath)
    ensures
        path.words() == path.path_and_entity.words() + path.ext_and_version.words() + path.parent.words()
            + path.file_name.words(),
{
    assert(path.words() =~= path.path_and_entity.words() + path.ext_and_version.words()
        + path.parent.words() + path.file_name.words());
}

/// The words of a package, of a child of one, and of a group.
pub proof fn law_package_layout(package: FilePackage, child: FilePackageChild, group: FileGroup)
    ensures
        package.words() == package.path_and_group.words() + package.name.words() + package.parent.words()
            + package.lifetime.words() + seq![
            package.info_start,
            package.info_count,
            package.child_start,
            package.child_count,
            package.flags.bits,
        ],
        child.words() == child.path_and_package.words(),
        group.words().len() == 7,
        group.archive_offset == group.words()[0] + 0x1_0000_0000 * group.words()[1],
        group.words().skip(2) == seq![
            group.decompressed_size,
            group.compressed_size,
            group.child_start,
            group.child_count,
            group.redirection,
        ],
{
    assert(package.words() =~= package.path_and_group.words() + package.name.words()
        + package.parent.words() + package.lifetime.words() + seq![
        package.info_start,
        package.info_count,
        package.child_start,
        package.child_count,
        package.flags.bits,
    ]);
    assert(child.words() =~= child.path_and_package.words());
    assert(group.words().skip(2) =~= seq![
        group.decompressed_size,
        group.compressed_size,
        group.child_start,
        group.child_count,
        group.redirection,
    ]);
}

/// The words of folders and paths of the search tree.
pub proof fn law_search_layout(folder: SearchFolder, path: SearchPath, link: SearchPathLink)
    ensures
        folder.words() == folder.path_and_folder_count.words() + folder.parent_and_file_count.words()
            + folder.name.words() + seq![folder.first_child_index, folder.padding],
        path.words() == path.path_and_next_index.words() + path.parent_and_is_folder.words()
            + path.name.words() + path.extension.words(),
        link.words() == seq![link.index],
{
    assert(folder.words() =~= folder.path_and_folder_count.words() + folder.parent_and_file_count.words()
        + folder.name.words() + seq![folder.first_child_index, folder.padding]);
    assert(path.words() =~= path.path_and_next_index.words() + path.parent_and_is_folder.words()
        + path.name.words() + path.extension.words());
    assert(link.words() =~= seq![link.index]);
}

/// The words of streams.
pub proof fn law_stream_layout(folder: StreamFolder, path: StreamPath, entity: StreamEntity, data: StreamData)
    ensures
        folder.words() == folder.name_and_child_count.words() + seq![folder.child_start_index],
        path.words() == path.path_and_desc.words() + seq![path.flags.bits],
        entity.words() == seq![entity.stream_data],
        data.words().len() == 4,
        data.size == data.words()[0] + 0x1_0000_0000 * data.words()[1],
        data.offset == data.words()[2] + 0x1_0000_0000 * data.words()[3],
{
    assert(folder.words() =~= folder.name_and_child_count.words() + seq![folder.child_start_index]);
    assert(path.words() =~= path.path_and_desc.words() + seq![path.flags.bits]);
    assert(entity.words() =~= seq![entity.stream_data]);
}

/// The kind of a load method stands in the top byte of its word, above the index.
pub proof fn law_load_method_word(index: u32)
    requires
        index < 0x100_0000,
    ensures
        FileLoadMethod::Unowned(index).raw() == index,
        FileLoadMethod::Owned(index).raw() == 0x100_0000 + index,
        FileLoadMethod::PackageSkip(index).raw() == 0x300_0000 + index,
        FileLoadMethod::Unknown.raw() == 0x500_0000,
        FileLoadMethod::SharedButOwned(index).raw() == 0x900_0000 + index,
        FileLoadMethod::UnsupportedRegionLocale(index).raw() == 0x1000_0000 + index,
{
    assert((0u32 << 24) | index == index && (1u32 << 24) | index == 0x100_0000 + index && (3u32 << 24)
        | index == 0x300_0000 + index && (5u32 << 24) | 0 == 0x500_0000 && (9u32 << 24) | index
        == 0x900_0000 + index && (16u32 << 24) | index == 0x1000_0000 + index) by (bit_vector)
        requires
            index < 0x100_0000,
    ;
}

/// The header that serializing writes counts what the tables hold. Where tables have parts that do not grow,
/// the header counts the rest. Nothing else of the header changes.
pub proof fn law_resource_header(v: ResourceView, i: int)
    requires
        v.wf(),
        v.serializable(),
    ensures
        ({
            let old = v.header;
            let new = v.reserialized().header;
            &&& new.len() == old.len()
            &&& new[0] == 4 * v.total_words()
            &&& new[1] == v.file_path.len()
            &&& new[2] == v.file_entity.len()
            &&& new[3] == v.file_package.len()
            &&& new[4] + new[9] + new[16] == v.file_group.len()
            &&& new[5] == v.file_package_child.len()
            &&& new[6] + new[10] + new[19] == v.file_info.len()
            &&& new[7] + new[10] + new[20] == v.file_desc.len()
            &&& new[8] + new[10] + new[21] == v.file_data.len()
            &&& 9 <= i < old.len() ==> new[i] == old[i]
        }),
{
}

/// The header of the search section counts folders, links and paths. Nothing else of it changes but the size.
pub proof fn law_search_header(v: SearchView, i: int)
    requires
        v.wf(),
        v.serializable(),
    ensures
        ({
            let old = v.header;
            let new = v.reserialized().header;
            &&& new.len() == old.len()
            &&& new[0] == 4 * v.total_words()
            &&& new[2] == v.search_folder.len()
            &&& new[3] == v.search_path_link.len()
            &&& new[4] == v.search_path.len()
            &&& i == 1 || 5 <= i < old.len() ==> new[i] == old[i]
        }),
{
}

/// The bits of the flags of infos. The two that make a file localized or regional, and the two that are only
/// ever set together, have names of their own.
pub proof fn law_info_bits()
    ensures
        INFO_IS_REGULAR_FILE == 0x10,
        INFO_IS_GRAPHICS_ARCHIVE == 0x1000,
        INFO_IS_LOCALIZED == 0x1_0000,
        INFO_IS_REGIONAL == 0x2_0000,
        INFO_IS_SHARED == 0x10_0000,
        INFO_IS_UNKNOWN_FLAG == 0x20_0000,
        INFO_IS_GROUP_FIXED == 0x4000_0000,
        INFO_IS_RESHARED == 0x8000_0000,
        INFO_LOCALIZED_OR_REGIONAL == INFO_IS_LOCALIZED + INFO_IS_REGIONAL,
        INFO_SHARED_AND_UNKNOWN == INFO_IS_SHARED + INFO_IS_UNKNOWN_FLAG,
        INFO_ALL_BUT_LOCALIZED == INFO_IS_REGULAR_FILE + INFO_IS_GRAPHICS_ARCHIVE + INFO_IS_SHARED
            + INFO_IS_UNKNOWN_FLAG + INFO_IS_GROUP_FIXED + INFO_IS_RESHARED,
{
}

/// The bits of the flags of packages, data and streams.
pub proof fn law_other_bits()
    ensures
        PACKAGE_IS_LOCALIZED == 0x100_0000,
        PACKAGE_IS_REGIONAL == 0x200_0000,
        PACKAGE_HAS_SUB_PACKAGE == 0x400_0000,
        PACKAGE_SYM_LINK_IS_REGIONAL == 0x800_0000,
        PACKAGE_IS_SYM_LINK == 0x1000_0000,
        PACKAGE_SUB_PACKAGE_OR_SYM_LINK == PACKAGE_HAS_SUB_PACKAGE + PACKAGE_IS_SYM_LINK,
        PACKAGE_ALL_BUT_REGIONAL == PACKAGE_IS_LOCALIZED + PACKAGE_HAS_SUB_PACKAGE
            + PACKAGE_SYM_LINK_IS_REGIONAL + PACKAGE_IS_SYM_LINK,
        FILE_IS_ZSTD_COMPRESSION == 1,
        FILE_IS_COMPRESSED == 2,
        FILE_IS_REGIONAL_VERSIONED_DATA == 4,
        FILE_IS_LOCALIZED_VERSIONED_DATA == 8,
        STREAM_IS_LOCALIZED == 1,
        STREAM_IS_REGIONAL == 2,
        SEARCH_IS_FOLDER_BIT == 0x40_0000,
        SEARCH_END == 0xFF_FFFF,
{
}

} // verus!
