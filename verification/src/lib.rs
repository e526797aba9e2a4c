//! Virtual file system patching for the `data.arc` resource archive.

pub mod access;
pub mod add_files;
pub mod add_laws;
pub mod archive;
pub mod checksum;
pub mod containers;
pub mod copy_laws;
pub mod costume_laws;
pub mod data;
pub mod discover;
pub mod discover_laws;
pub mod file_records;
pub mod filesystem;
pub mod fixes;
pub mod fonts;
pub mod gpu_memory;
pub mod hash40;
pub mod hash_interner;
pub mod hash_list;
pub mod images;
pub mod interned_paths;
pub mod kirby_copy;
pub mod layout_laws;
pub mod list_laws;
pub mod load_laws;
pub mod loading;
pub mod locale;
pub mod logger;
pub mod lookup;
pub mod menu;
pub mod mods_list;
pub mod navigate;
pub mod nvn;
pub mod package_laws;
pub mod packages;
pub mod patch;
pub mod patch_laws;
pub mod paths;
pub mod records;
pub mod regional;
pub mod res_threads;
pub mod reshare;
pub mod reshare_laws;
pub mod retarget_laws;
pub mod route_laws;
pub mod search_laws;
pub mod shaders;
pub mod share;
pub mod slab_blob;
pub mod strings;
pub mod success_laws;
pub mod text_lines;
pub mod uniforms;
pub mod unshare;
pub mod unshare_laws;
pub mod usage;
pub mod words;
