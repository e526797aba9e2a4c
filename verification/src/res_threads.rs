//! What the game's loading threads are told.
//!
//! One thread reads files and another one inflates them. Both ask here whether a file is replaced, and
//! go on with the game's own work if it is not.

use crate::access::{at, holds};
use crate::archive::{Archive, ArchiveView};
use crate::data::{FileInfo, FilePath, INFO_IS_RESHARED, INFO_LOCALIZED_OR_REGIONAL};
use crate::discover::{DiscoveredFile, FileSystem, FileSystemView};
use crate::hash40::Hash40;
use crate::locale::LocalePreferences;
use vstd::prelude::*;

verus! {

/// Bits of an info's flags that hold the alignment of the buffer for the file.
pub const ALIGNMENT_MASK: u32 = 0x7FFF;

/// The load method of a request for a single file.
pub const SINGLE_FILE: u32 = 4;

/// Where the data of a file comes from.
#[derive(Copy, Clone, Debug, PartialEq, Eq, Structural)]
pub enum Source {
    /// The archive.
    Game,
    /// A mod. The buffer for it needs the given alignment.
    Mod { path: Hash40, file: DiscoveredFile, alignment: u32 },
}

/// Why it cannot be told where the data of a file comes from.
#[derive(Copy, Clone, Debug, PartialEq, Eq, Structural)]
pub enum SourceError {
    /// There is no such info.
    InvalidInfo,
    /// The info has no path.
    MissingPath,
}

/// Where the data of the file with info `i` comes from. Paths that stand for data that was there before
/// are not replaced, and neither are localized and regional files.
pub open spec fn source(v: ArchiveView, mods: FileSystemView, prefs: LocalePreferences, i: u32) -> Result<
    Source,
    SourceError,
> {
    let info = at::<FileInfo>(v, i);
    let path = at::<FilePath>(v, info.path).spec_path();
    if !holds::<FileInfo>(v, i) {
        Err(SourceError::InvalidInfo)
    } else if !holds::<FilePath>(v, info.path) {
        Err(SourceError::MissingPath)
    } else if info.flags.has(INFO_IS_RESHARED) || info.flags.has(INFO_LOCALIZED_OR_REGIONAL) {
        Ok(Source::Game)
    } else {
        match mods.file_for(path, prefs) {
            Some(file) => Ok(
                Source::Mod { path, file, alignment: info.flags.bits & ALIGNMENT_MASK },
            ),
            None => Ok(Source::Game),
        }
    }
}

/// Finds out where the data of a file comes from.
pub fn source_of(archive: &Archive, mods: &FileSystem, prefs: LocalePreferences, info_index: u32) -> (r:
    Result<Source, SourceError>)
    requires
        archive.wf(),
        mods.wf(),
    ensures
        r == source(archive@, mods@, prefs, info_index),
{
    let Some(info) = archive.read::<FileInfo>(info_index) else {
        return Err(SourceError::InvalidInfo);
    };
    let Some(path) = archive.read::<FilePath>(info.path) else {
        return Err(SourceError::MissingPath);
    };
    if info.flags.intersects(INFO_IS_RESHARED) || info.flags.intersects(INFO_LOCALIZED_OR_REGIONAL) {
        return Ok(Source::Game);
    }
    match mods.get_file(path.path(), prefs) {
        Some(file) => Ok(
            Source::Mod { path: path.path(), file, alignment: info.flags.bits & ALIGNMENT_MASK },
        ),
        None => Ok(Source::Game),
    }
}

/// A file that a mod brings is loaded from the mod: whenever the info and its path are there, the info
/// stands for no earlier data and is neither localized nor regional, and some mod has a file for the path
/// under the preferences, that very file is handed out, wherever it lies, together with the path and the
/// alignment that the info asks for.
pub proof fn law_mod_is_loaded(
    v: ArchiveView,
    mods: FileSystemView,
    prefs: LocalePreferences,
    i: u32,
    file: DiscoveredFile,
)
    requires
        holds::<FileInfo>(v, i),
        holds::<FilePath>(v, at::<FileInfo>(v, i).path),
        at::<FileInfo>(v, i).flags.bits & 0x8000_0000 == 0,
        at::<FileInfo>(v, i).flags.bits & 0x1_0000 == 0,
        at::<FileInfo>(v, i).flags.bits & 0x2_0000 == 0,
        mods.file_for(at::<FilePath>(v, at::<FileInfo>(v, i).path).spec_path(), prefs) == Some(file),
    ensures
        source(v, mods, prefs, i) == Ok::<Source, SourceError>(
            Source::Mod {
                path: at::<FilePath>(v, at::<FileInfo>(v, i).path).spec_path(),
                file,
                alignment: at::<FileInfo>(v, i).flags.bits & 0x7FFF,
            },
        ),
{
    let b = at::<FileInfo>(v, i).flags.bits;
    assert(b & 0x3_0000 == 0) by (bit_vector)
        requires
            b & 0x1_0000 == 0,
            b & 0x2_0000 == 0,
    ;
}

/// The game's own data is used for nothing but what no mod replaces: an info that stands for earlier data,
/// a localized or regional one, and one whose path no mod has a file for.
pub proof fn law_game_is_loaded(v: ArchiveView, mods: FileSystemView, prefs: LocalePreferences, i: u32)
    requires
        holds::<FileInfo>(v, i),
        holds::<FilePath>(v, at::<FileInfo>(v, i).path),
    ensures
        source(v, mods, prefs, i) is Ok,
        source(v, mods, prefs, i) == Ok::<Source, SourceError>(Source::Game) <==> {
            ||| at::<FileInfo>(v, i).flags.bits & 0x8000_0000 != 0
            ||| at::<FileInfo>(v, i).flags.bits & 0x1_0000 != 0
            ||| at::<FileInfo>(v, i).flags.bits & 0x2_0000 != 0
            ||| mods.file_for(at::<FilePath>(v, at::<FileInfo>(v, i).path).spec_path(), prefs) is None
        },
{
    let b = at::<FileInfo>(v, i).flags.bits;
    assert(b & 0x3_0000 == 0 <==> b & 0x1_0000 == 0 && b & 0x2_0000 == 0) by (bit_vector);
}

/// Without an info there is an error, and without its path another one. There are no other errors.
pub proof fn law_source_errors(v: ArchiveView, mods: FileSystemView, prefs: LocalePreferences, i: u32)
    ensures
        source(v, mods, prefs, i) == Err::<Source, SourceError>(SourceError::InvalidInfo) <==> !holds::<
            FileInfo,
        >(v, i),
        source(v, mods, prefs, i) == Err::<Source, SourceError>(SourceError::MissingPath) <==> holds::<
            FileInfo,
        >(v, i) && !holds::<FilePath>(v, at::<FileInfo>(v, i).path),
{
}

/// Index of an info among all infos, from its place behind the first one that is being inflated.
pub fn absolute_index(first: u32, current: u32) -> (r: Option<u32>)
    ensures
        r is Some <==> first + current <= u32::MAX,
        r matches Some(i) ==> i == first + current,
{
    first.checked_add(current)
}

/// What the inflating thread does for a file.
#[derive(Copy, Clone, Debug, PartialEq, Eq, Structural)]
pub enum InflateStep {
    /// A buffer is allocated and the game fills it.
    Allocate,
    /// The reading thread has loaded the file already.
    TakeLoaded,
    /// The file is loaded into a buffer of its size.
    Load { path: Hash40, file: DiscoveredFile },
}

/// Decides what the inflating thread does for a file. Single files were loaded by the reading thread.
pub fn inflate_step(source: Source, load_method: u32) -> (r: InflateStep)
    ensures
        r == match source {
            Source::Game => InflateStep::Allocate,
            Source::Mod { path, file, .. } => if load_method == SINGLE_FILE {
                InflateStep::TakeLoaded
            } else {
                InflateStep::Load { path, file }
            },
        },
{
    match source {
        Source::Game => InflateStep::Allocate,
        Source::Mod { path, file, .. } => if load_method == SINGLE_FILE {
            InflateStep::TakeLoaded
        } else {
            InflateStep::Load { path, file }
        },
    }
}

/// The file is split over several buffers, which the game copies in a loop.
pub const LARGE_LOAD: u64 = 0;

/// The file lies in one buffer, which the game copies.
pub const SMALL_LOAD: u64 = 1;

/// The file was loaded by us, and nothing is to be copied.
pub const NO_LOAD: u64 = 2;

/// How a file gets into its buffer. Whether it was loaded by us is forgotten with the answer.
pub fn load_mode(did_load: &mut bool, file_end: u64, available_end: u64) -> (r: u64)
    ensures
        !*final(did_load),
        r == if *old(did_load) {
            NO_LOAD
        } else if file_end <= available_end {
            SMALL_LOAD
        } else {
            LARGE_LOAD
        },
{
    let loaded: bool = *did_load;
    *did_load = false;
    if loaded {
        NO_LOAD
    } else if file_end <= available_end {
        SMALL_LOAD
    } else {
        LARGE_LOAD
    }
}

/// What comes before the copying of a file that is no large load.
#[derive(Copy, Clone, Debug, PartialEq, Eq, Structural)]
pub enum CopyStep {
    /// The size of the file is handed to the copying.
    Copy,
    /// The copying is skipped.
    Skip,
}

/// Decides whether a file is copied. The value returned along with the decision is what the game
/// branches on.
pub fn copy_step(mode: u64) -> (r: (u64, CopyStep))
    requires
        mode >= 1,
    ensures
        r.0 == mode - 1,
        r.1 == if mode == SMALL_LOAD {
            CopyStep::Copy
        } else {
            CopyStep::Skip
        },
{
    if mode == SMALL_LOAD {
        (0, CopyStep::Copy)
    } else {
        (mode - 1, CopyStep::Skip)
    }
}

/// How the reading thread goes on with a single file.
#[derive(Copy, Clone, Debug, PartialEq, Eq, Structural)]
pub struct SingleRequest {
    /// The number of bytes that were read, if the game is not to read them.
    pub read: Option<u64>,
    /// The size of what is to be read, if the game reads it.
    pub to_read: Option<u64>,
    /// The size of what is handed to the inflating thread.
    pub size: u64,
    /// Address of the instruction to go on with.
    pub address: u64,
}

/// The size in bytes of an instruction.
pub const INSTRUCTION_SIZE: u64 = 4;

/// Decides how the reading thread goes on with a single file. `address` is that of the instruction which
/// reads it; it is skipped for files of mods.
pub fn single_request(source: Source, compressed_size: u64, address: u64) -> (r: SingleRequest)
    requires
        address + INSTRUCTION_SIZE <= u64::MAX,
    ensures
        r == match source {
            Source::Game => SingleRequest {
                read: None,
                to_read: Some(compressed_size),
                size: compressed_size,
                address,
            },
            Source::Mod { file, .. } => SingleRequest {
                read: Some(file.size as u64),
                to_read: None,
                size: file.size as u64,
                address: (address + 4) as u64,
            },
        },
{
    match source {
        Source::Game => SingleRequest {
            read: None,
            to_read: Some(compressed_size),
            size: compressed_size,
            address,
        },
        Source::Mod { file, .. } => SingleRequest {
            read: Some(file.size() as u64),
            to_read: None,
            size: file.size() as u64,
            address: address + INSTRUCTION_SIZE,
        },
    }
}

/// The buffer of a single file on its way from the reading thread to the inflating thread.
pub struct PatchedPointer {
    pub address: Option<u64>,
}

impl PatchedPointer {
    pub fn new() -> (r: PatchedPointer)
        ensures
            r.address is None,
    {
        PatchedPointer { address: None }
    }

    /// Keeps the buffer. Returns whether there was none on its way.
    pub fn put(&mut self, address: u64) -> (r: bool)
        ensures
            final(self).address == Some(address),
            r == (old(self).address is None),
    {
        let free: bool = self.address.is_none();
        self.address = Some(address);
        free
    }

    /// The value to use in place of the game's address, which is kept if there is no buffer.
    pub fn take(&mut self, game_address: u64) -> (r: u64)
        ensures
            final(self).address is None,
            r == match old(self).address {
                Some(address) => address,
                None => game_address,
            },
    {
        let r: u64 = match self.address {
            Some(address) => address,
            None => game_address,
        };
        self.address = None;
        r
    }
}

/// Where the inflating thread is in what was read, while the file that it would have read lies across
/// the end of a buffer.
#[derive(Copy, Clone, Debug, PartialEq, Eq, Structural)]
pub struct IoSwap {
    /// Offset of the next byte of the file.
    pub offset: u64,
    /// The number of bytes of the file that are left.
    pub left: u64,
    /// Address of the next byte.
    pub data: u64,
    /// The number of bytes of the request that are left.
    pub remaining: u64,
    /// How much more of the file is taken before the next buffer is needed. At first these are the bytes of
    /// the file in the buffer. After a swap it is the offset up to which the file is there, less what is left
    /// of it.
    pub threshold: u64,
    /// Offset of the end of the file.
    pub target: u64,
}

impl IoSwap {
    /// Offset of the end of the file, as the offset of its next byte and what is left say.
    pub open spec fn end(self) -> int {
        self.offset + self.left
    }

    /// The state in which buffers have to be swapped. `read_end` is the offset up to which data was read.
    pub open spec fn started(read_end: int, offset: int, left: int, data: u64, remaining: u64) -> Option<
        IoSwap,
    > {
        if read_end < offset + left {
            Some(
                IoSwap {
                    offset: offset as u64,
                    left: left as u64,
                    data,
                    remaining,
                    threshold: (read_end - offset) as u64,
                    target: (offset + left) as u64,
                },
            )
        } else {
            None
        }
    }

    /// Starts swapping, if the file lies across the end of the buffer.
    pub fn start(read_end: u64, offset: u64, left: u64, data: u64, remaining: u64) -> (r: Option<IoSwap>)
        requires
            offset + left <= u64::MAX,
            read_end < offset + left ==> offset <= read_end,
        ensures
            r == IoSwap::started(read_end as int, offset as int, left as int, data, remaining),
            r matches Some(s) ==> s.end() == s.target,
    {
        let target: u64 = offset + left;
        if read_end < target {
            Some(IoSwap { offset, left, data, remaining, threshold: read_end - offset, target })
        } else {
            None
        }
    }

    /// Is another buffer needed?
    pub fn needs_buffer(&self) -> (r: bool)
        ensures
            r == (self.threshold < self.left),
    {
        self.threshold < self.left
    }

    /// Offset up to which the file is there, when data was read up to `read_end`.
    pub open spec fn available(self, read_end: u64) -> u64 {
        if read_end < self.target {
            read_end
        } else {
            self.target
        }
    }

    /// Can the state be moved on to a buffer that ends at `read_end`?
    pub open spec fn can_swap(self, read_end: u64) -> bool {
        &&& self.threshold <= self.left
        &&& self.threshold <= self.remaining
        &&& self.offset + self.threshold <= u64::MAX
        &&& self.left - self.threshold <= self.available(read_end)
    }

    /// The state after the buffer was swapped for one at `data` that ends at `read_end`.
    pub open spec fn swapped(self, data: u64, read_end: u64) -> IoSwap {
        let left = (self.left - self.threshold) as u64;
        IoSwap {
            offset: (self.offset + self.threshold) as u64,
            left,
            data,
            remaining: (self.remaining - self.threshold) as u64,
            threshold: (self.available(read_end) - left) as u64,
            ..self
        }
    }

    /// Moves on to the next buffer. `None` if the numbers do not fit together.
    pub fn swap(self, data: u64, read_end: u64) -> (r: Option<IoSwap>)
        ensures
            r == if self.can_swap(read_end) {
                Some(self.swapped(data, read_end))
            } else {
                None
            },
    {
        if self.threshold > self.left || self.threshold > self.remaining {
            return None;
        }
        let left: u64 = self.left - self.threshold;
        let available: u64 = if read_end < self.target {
            read_end
        } else {
            self.target
        };
        match self.offset.checked_add(self.threshold) {
            Some(offset) => {
                if left > available {
                    None
                } else {
                    Some(
                        IoSwap {
                            offset,
                            left,
                            data,
                            remaining: self.remaining - self.threshold,
                            threshold: available - left,
                            target: self.target,
                        },
                    )
                }
            },
            None => None,
        }
    }
}

/// Swapping buffers leaves the end of the file where it is.
pub proof fn law_swap_keeps_end(s: IoSwap, data: u64, read_end: u64)
    requires
        s.can_swap(read_end),
    ensures
        s.swapped(data, read_end).end() == s.end(),
        s.swapped(data, read_end).target == s.target,
        s.remaining - s.left == s.swapped(data, read_end).remaining - s.swapped(data, read_end).left,
{
}

/// The version of the interface for other plugins.
#[derive(Copy, Clone, Debug, PartialEq, Eq, Structural)]
pub struct ApiVersion {
    pub major: u32,
    pub minor: u32,
}

/// The version of the interface that this library offers.
pub fn arcrop_api_version() -> (r: ApiVersion)
    ensures
        r == (ApiVersion { major: 1, minor: 8 }),
{
    ApiVersion { major: 1, minor: 8 }
}

/// Is a mod enabled? All are.
pub fn arcrop_is_mod_enabled(_hash: u64) -> (r: bool)
    ensures
        r,
{
    true
}

/// Buffers are swapped exactly if the file goes on behind what was read. At first there is as much of the file
/// as was read behind its start.
pub proof fn law_swap_started(read_end: u64, offset: u64, left: u64, data: u64, remaining: u64)
    requires
        offset + left <= u64::MAX,
        read_end < offset + left ==> offset <= read_end,
    ensures
        ({
            let s = IoSwap::started(read_end as int, offset as int, left as int, data, remaining);
            &&& s is Some <==> read_end < offset + left
            &&& s matches Some(x) ==> {
                &&& x.offset == offset
                &&& x.left == left
                &&& x.data == data
                &&& x.remaining == remaining
                &&& x.offset + x.threshold == read_end
                &&& x.target == offset + left
            }
        }),
{
}

/// A swap moves on by what there was of the file, in the file and in the request alike. The bytes come from
/// the new buffer, and the next swap is due behind what that has of the file.
pub proof fn law_swapped(s: IoSwap, data: u64, read_end: u64)
    requires
        s.can_swap(read_end),
    ensures
        ({
            let t = s.swapped(data, read_end);
            &&& t.offset == s.offset + s.threshold
            &&& t.left == s.left - s.threshold
            &&& t.remaining == s.remaining - s.threshold
            &&& t.data == data
            &&& t.target == s.target
            &&& t.threshold + t.left <= read_end
            &&& t.threshold + t.left <= s.target
            &&& t.threshold + t.left == read_end || t.threshold + t.left == s.target
        }),
{
}

/// The numbers that the game knows: a single file is loaded by method 4, and the ways in which a file gets into
/// its buffer are a large load, a small one and none.
pub proof fn law_load_numbers()
    ensures
        SINGLE_FILE == 4,
        LARGE_LOAD == 0,
        SMALL_LOAD == 1,
        NO_LOAD == 2,
        ALIGNMENT_MASK == 0x7FFF,
        INSTRUCTION_SIZE == 4,
{
}

} // verus!
