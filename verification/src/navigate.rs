//! Ways from one record of the archive to another.

use crate::access::{at, count, has_run, holds, with, TableMut, TableRef, TableSliceRef};
use crate::archive::{Archive, ArchiveView};
use crate::data::{
    FileData, FileDescriptor, FileEntity, FileGroup, FileInfo, FilePackage, FilePackageChild,
    FilePath, SearchFolder, SearchPath, SearchPathLink, INFO_IS_RESHARED,
};
use crate::hash40::Hash40;
use crate::locale::LocalePreferences;
use vstd::prelude::*;

verus! {

impl<'a> TableRef<'a, FileDescriptor> {
    pub fn data(&self) -> (r: TableRef<'a, FileData>)
        requires
            self.wf(),
            holds::<FileData>(self.archive@, self.value().file_data),
        ensures
            r.wf(),
            r.archive == self.archive,
            r.index == self.value().file_data,
    {
        TableRef::known(self.archive, self.get().file_data)
    }
}

impl<'a> TableMut<'a, FileDescriptor> {
    pub fn data_mut(self) -> (r: TableMut<'a, FileData>)
        requires
            self.archive.wf(),
            holds::<FileDescriptor>(self.archive@, self.index),
            holds::<FileData>(self.archive@, at::<FileDescriptor>(self.archive@, self.index).file_data),
        ensures
            *r.archive == *old(self.archive),
            r.index == at::<FileDescriptor>(old(self.archive)@, self.index).file_data,
            *final(r.archive) == *final(self.archive),
    {
        let index: u32 = self.get().file_data;
        TableMut::known(self.archive, index)
    }
}

/// The path that a file info points to.
pub enum TryFilePathResult<'a> {
    /// The path is the file's own.
    FilePath(TableRef<'a, FilePath>),
    /// The path stands for data that it had before it was replaced.
    Reshared(TableRef<'a, FilePath>),
    Missing,
}

impl<'a> TryFilePathResult<'a> {
    /// The path, which must not be missing.
    pub fn unwrap(self) -> (r: TableRef<'a, FilePath>)
        requires
            !(self is Missing),
        ensures
            match self {
                TryFilePathResult::FilePath(path) => r == path,
                TryFilePathResult::Reshared(path) => r == path,
                TryFilePathResult::Missing => false,
            },
    {
        match self {
            TryFilePathResult::FilePath(path) => path,
            TryFilePathResult::Reshared(path) => path,
            TryFilePathResult::Missing => vstd::pervasive::unreached(),
        }
    }
}

impl<'a> TableRef<'a, FileInfo> {
    pub fn try_file_path(&self) -> (r: TryFilePathResult<'a>)
        requires
            self.wf(),
        ensures
            match r {
                TryFilePathResult::FilePath(path) => path.wf() && path.archive == self.archive
                    && path.index == self.value().path && !self.value().flags.has(INFO_IS_RESHARED),
                TryFilePathResult::Reshared(path) => path.wf() && path.archive == self.archive
                    && path.index == self.value().path && self.value().flags.has(INFO_IS_RESHARED),
                TryFilePathResult::Missing => !holds::<FilePath>(self.archive@, self.value().path),
            },
    {
        let info = self.get();
        match TableRef::<FilePath>::new(self.archive, info.path) {
            Some(path) => if info.flags().intersects(INFO_IS_RESHARED) {
                TryFilePathResult::Reshared(path)
            } else {
                TryFilePathResult::FilePath(path)
            },
            None => TryFilePathResult::Missing,
        }
    }

    pub fn file_path(&self) -> (r: TableRef<'a, FilePath>)
        requires
            self.wf(),
            holds::<FilePath>(self.archive@, self.value().path),
        ensures
            r.wf(),
            r.archive == self.archive,
            r.index == self.value().path,
    {
        TableRef::known(self.archive, self.get().path)
    }

    pub fn entity(&self) -> (r: TableRef<'a, FileEntity>)
        requires
            self.wf(),
            holds::<FileEntity>(self.archive@, self.value().entity),
        ensures
            r.wf(),
            r.archive == self.archive,
            r.index == self.value().entity,
    {
        TableRef::known(self.archive, self.get().entity)
    }

    /// The first descriptor, whichever is in force.
    pub fn desc(&self) -> (r: TableRef<'a, FileDescriptor>)
        requires
            self.wf(),
            holds::<FileDescriptor>(self.archive@, self.value().desc),
        ensures
            r.wf(),
            r.archive == self.archive,
            r.index == self.value().desc,
    {
        TableRef::known(self.archive, self.get().desc)
    }
}

impl<'a> TableMut<'a, FileInfo> {
    pub fn path_ref(&self) -> (r: TableRef<'_, FilePath>)
        requires
            self.archive.wf(),
            holds::<FileInfo>(self.archive@, self.index),
            holds::<FilePath>(self.archive@, at::<FileInfo>(self.archive@, self.index).path),
        ensures
            r.wf(),
            *r.archive == *old(self.archive),
            r.index == at::<FileInfo>(old(self.archive)@, self.index).path,
    {
        let index: u32 = self.get().path;
        TableRef::known(&*self.archive, index)
    }

    pub fn path_mut(&mut self) -> (r: TableMut<'_, FilePath>)
        requires
            old(self).archive.wf(),
            holds::<FileInfo>(old(self).archive@, old(self).index),
            holds::<FilePath>(old(self).archive@, at::<FileInfo>(old(self).archive@, old(self).index).path),
        ensures
            *r.archive == *old(self).archive,
            r.index == at::<FileInfo>(old(self).archive@, old(self).index).path,
            final(self).index == old(self).index,
            *final(self).archive == *final(r.archive),
            *final(final(self).archive) == *final(old(self).archive),
    {
        let index: u32 = self.get().path;
        TableMut::known(&mut *self.archive, index)
    }

    pub fn path(self) -> (r: TableMut<'a, FilePath>)
        requires
            self.archive.wf(),
            holds::<FileInfo>(self.archive@, self.index),
            holds::<FilePath>(self.archive@, at::<FileInfo>(self.archive@, self.index).path),
        ensures
            *r.archive == *old(self.archive),
            r.index == at::<FileInfo>(old(self.archive)@, self.index).path,
            *final(r.archive) == *final(self.archive),
    {
        let index: u32 = self.get().path;
        TableMut::known(self.archive, index)
    }

    pub fn entity_ref(&self) -> (r: TableRef<'_, FileEntity>)
        requires
            self.archive.wf(),
            holds::<FileInfo>(self.archive@, self.index),
            holds::<FileEntity>(self.archive@, at::<FileInfo>(self.archive@, self.index).entity),
        ensures
            r.wf(),
            *r.archive == *old(self.archive),
            r.index == at::<FileInfo>(old(self.archive)@, self.index).entity,
    {
        let index: u32 = self.get().entity;
        TableRef::known(&*self.archive, index)
    }

    pub fn entity_mut(self) -> (r: TableMut<'a, FileEntity>)
        requires
            self.archive.wf(),
            holds::<FileInfo>(self.archive@, self.index),
            holds::<FileEntity>(self.archive@, at::<FileInfo>(self.archive@, self.index).entity),
        ensures
            *r.archive == *old(self.archive),
            r.index == at::<FileInfo>(old(self.archive)@, self.index).entity,
            *final(r.archive) == *final(self.archive),
    {
        let index: u32 = self.get().entity;
        TableMut::known(self.archive, index)
    }

    /// The descriptor that is in force.
    pub fn desc_ref(&self, prefs: LocalePreferences) -> (r: TableRef<'_, FileDescriptor>)
        requires
            self.archive.wf(),
            holds::<FileInfo>(self.archive@, self.index),
            at::<FileInfo>(self.archive@, self.index).spec_desc_index(prefs) < count::<FileDescriptor>(self.archive@),
        ensures
            r.wf(),
            *r.archive == *old(self.archive),
            r.index == at::<FileInfo>(old(self.archive)@, self.index).spec_desc_index(prefs),
    {
        proof {
            law_counts(self.archive@);
        }
        let index: u32 = self.get().known_desc_index(prefs);
        TableRef::known(&*self.archive, index)
    }

    pub fn desc_mut(&mut self, prefs: LocalePreferences) -> (r: TableMut<'_, FileDescriptor>)
        requires
            old(self).archive.wf(),
            holds::<FileInfo>(old(self).archive@, old(self).index),
            at::<FileInfo>(old(self).archive@, old(self).index).spec_desc_index(prefs) < count::<FileDescriptor>(old(self).archive@),
        ensures
            *r.archive == *old(self).archive,
            r.index == at::<FileInfo>(old(self).archive@, old(self).index).spec_desc_index(prefs),
            final(self).index == old(self).index,
            *final(self).archive == *final(r.archive),
            *final(final(self).archive) == *final(old(self).archive),
    {
        proof {
            law_counts(self.archive@);
        }
        let index: u32 = self.get().known_desc_index(prefs);
        TableMut::known(&mut *self.archive, index)
    }

    pub fn desc(self, prefs: LocalePreferences) -> (r: TableMut<'a, FileDescriptor>)
        requires
            self.archive.wf(),
            holds::<FileInfo>(self.archive@, self.index),
            at::<FileInfo>(self.archive@, self.index).spec_desc_index(prefs) < count::<FileDescriptor>(self.archive@),
        ensures
            *r.archive == *old(self.archive),
            r.index == at::<FileInfo>(old(self.archive)@, self.index).spec_desc_index(prefs),
            *final(r.archive) == *final(self.archive),
    {
        proof {
            law_counts(self.archive@);
        }
        let index: u32 = self.get().known_desc_index(prefs);
        TableMut::known(self.archive, index)
    }
}

/// No table has more records than 32 bits can count.
proof fn law_counts(v: ArchiveView)
    requires
        v.wf(),
    ensures
        count::<FileDescriptor>(v) <= u32::MAX,
{
}

impl FileInfo {
    /// Index of the descriptor that is in force, which has to fit 32 bits.
    fn known_desc_index(&self, prefs: LocalePreferences) -> (r: u32)
        requires
            self.spec_desc_index(prefs) <= u32::MAX,
        ensures
            r == self.spec_desc_index(prefs),
    {
        match self.desc_index(prefs) {
            Some(index) => index,
            None => 0,
        }
    }
}

impl<'a> TableRef<'a, FileEntity> {
    pub fn info(&self) -> (r: TableRef<'a, FileInfo>)
        requires
            self.wf(),
            holds::<FileInfo>(self.archive@, self.value().info),
        ensures
            r.wf(),
            r.archive == self.archive,
            r.index == self.value().info,
    {
        TableRef::known(self.archive, self.get().info)
    }
}

impl<'a> TableMut<'a, FileEntity> {
    pub fn info_mut(self) -> (r: TableMut<'a, FileInfo>)
        requires
            self.archive.wf(),
            holds::<FileEntity>(self.archive@, self.index),
            holds::<FileInfo>(self.archive@, at::<FileEntity>(self.archive@, self.index).info),
        ensures
            *r.archive == *old(self.archive),
            r.index == at::<FileEntity>(old(self.archive)@, self.index).info,
            *final(r.archive) == *final(self.archive),
    {
        let index: u32 = self.get().info;
        TableMut::known(self.archive, index)
    }
}

impl<'a> TableRef<'a, FilePath> {
    pub fn entity(&self) -> (r: TableRef<'a, FileEntity>)
        requires
            self.wf(),
            holds::<FileEntity>(self.archive@, self.value().spec_entity()),
        ensures
            r.wf(),
            r.archive == self.archive,
            r.index == self.value().spec_entity(),
    {
        TableRef::known(self.archive, self.get().path_and_entity.data())
    }
}

impl<'a> TableMut<'a, FilePath> {
    pub fn set_entity(&mut self, entity: u32)
        requires
            old(self).archive.wf(),
            holds::<FilePath>(old(self).archive@, old(self).index),
        ensures
            final(self).index == old(self).index,
            final(self).archive@ == with_path_entity(old(self).archive@, old(self).index, entity),
            *final(final(self).archive) == *final(old(self).archive),
    {
        self.get_mut().path_and_entity.set_data(entity);
    }

    pub fn entity_mut(self) -> (r: TableMut<'a, FileEntity>)
        requires
            self.archive.wf(),
            holds::<FilePath>(self.archive@, self.index),
            holds::<FileEntity>(self.archive@, at::<FilePath>(self.archive@, self.index).spec_entity()),
        ensures
            *r.archive == *old(self.archive),
            r.index == at::<FilePath>(old(self.archive)@, self.index).spec_entity(),
            *final(r.archive) == *final(self.archive),
    {
        let index: u32 = self.get().path_and_entity.data();
        TableMut::known(self.archive, index)
    }
}

/// The archive with another entity for file path `i`.
pub open spec fn with_path_entity(v: ArchiveView, i: u32, entity: u32) -> ArchiveView {
    let path = at::<FilePath>(v, i);
    with(v, i, FilePath { path_and_entity: path.path_and_entity.with_data(entity), ..path })
}

impl<'a> TableRef<'a, FilePackage> {
    pub fn data_group(&self) -> (r: TableRef<'a, FileGroup>)
        requires
            self.wf(),
            holds::<FileGroup>(self.archive@, self.value().spec_data_group()),
        ensures
            r.wf(),
            r.archive == self.archive,
            r.index == self.value().spec_data_group(),
    {
        TableRef::known(self.archive, self.get().path_and_group.data())
    }

    /// The package that a symbolic link stands for.
    pub fn sym_link(&self) -> (r: TableRef<'a, FilePackage>)
        requires
            self.wf(),
            self.value().spec_has_sym_link(),
            holds::<FileGroup>(self.archive@, self.value().spec_data_group()),
            holds::<FilePackage>(
                self.archive@,
                at::<FileGroup>(self.archive@, self.value().spec_data_group()).redirection,
            ),
        ensures
            r.wf(),
            r.archive == self.archive,
            r.index == at::<FileGroup>(self.archive@, self.value().spec_data_group()).redirection,
    {
        TableRef::known(self.archive, self.data_group().get().redirection())
    }

    /// The group that the package's files share their data in.
    pub fn file_group(&self) -> (r: Option<TableRef<'a, FileGroup>>)
        requires
            self.wf(),
            self.value().spec_has_file_group(),
            holds::<FileGroup>(self.archive@, self.value().spec_data_group()),
        ensures
            match r {
                Some(x) => x.wf() && x.archive == self.archive && x.index == at::<FileGroup>(
                    self.archive@,
                    self.value().spec_data_group(),
                ).redirection,
                None => !holds::<FileGroup>(
                    self.archive@,
                    at::<FileGroup>(self.archive@, self.value().spec_data_group()).redirection,
                ),
            },
    {
        TableRef::new(self.archive, self.data_group().get().redirection())
    }

    pub fn child_packages(&self) -> (r: TableSliceRef<'a, FilePackageChild>)
        requires
            self.wf(),
            has_run::<FilePackageChild>(self.archive@, self.value().child_start, self.value().child_count),
        ensures
            r.wf(),
            r.archive == self.archive,
            r.start == self.value().child_start,
            r.count == self.value().child_count,
    {
        let record = self.get();
        TableSliceRef {
            archive: self.archive,
            start: record.child_start,
            count: record.child_count,
            kind: core::marker::PhantomData,
        }
    }

    pub fn infos(&self) -> (r: TableSliceRef<'a, FileInfo>)
        requires
            self.wf(),
            has_run::<FileInfo>(self.archive@, self.value().info_start, self.value().info_count),
        ensures
            r.wf(),
            r.archive == self.archive,
            r.start == self.value().info_start,
            r.count == self.value().info_count,
    {
        let record = self.get();
        TableSliceRef {
            archive: self.archive,
            start: record.info_start,
            count: record.info_count,
            kind: core::marker::PhantomData,
        }
    }
}

impl<'a> TableRef<'a, FilePackageChild> {
    pub fn package(&self) -> (r: TableRef<'a, FilePackage>)
        requires
            self.wf(),
            holds::<FilePackage>(self.archive@, self.value().path_and_package.spec_data()),
        ensures
            r.wf(),
            r.archive == self.archive,
            r.index == self.value().path_and_package.spec_data(),
    {
        TableRef::known(self.archive, self.get().path_and_package.data())
    }
}

impl<'a> TableRef<'a, FileGroup> {
    pub fn file_info_slice(&self) -> (r: TableSliceRef<'a, FileInfo>)
        requires
            self.wf(),
            has_run::<FileInfo>(self.archive@, self.value().child_start, self.value().child_count),
        ensures
            r.wf(),
            r.archive == self.archive,
            r.start == self.value().child_start,
            r.count == self.value().child_count,
    {
        let record = self.get();
        TableSliceRef {
            archive: self.archive,
            start: record.child_start,
            count: record.child_count,
            kind: core::marker::PhantomData,
        }
    }
}

impl ArchiveView {
    /// Index of the search path that is reached by way of link `i`.
    pub open spec fn follow(self, i: u32) -> Option<u32> {
        if holds::<SearchPathLink>(self, i) {
            self.linked_search_path(i)
        } else {
            None
        }
    }
}

impl Archive {
    /// Index of the search path that is reached by way of link `i`.
    pub fn follow(&self, i: u32) -> (r: Option<u32>)
        requires
            self.wf(),
        ensures
            r == self@.follow(i),
    {
        match self.read::<SearchPathLink>(i) {
            Some(link) => if link.is_invalid() {
                None
            } else if self.search.search_path.contains(link.path_index()) {
                Some(link.path_index())
            } else {
                None
            },
            None => None,
        }
    }

    /// Index of the search path that is reached by way of link `i`, which has to lead to one.
    fn known_follow(&self, i: u32) -> (r: u32)
        requires
            self.wf(),
            self@.follow(i) is Some,
        ensures
            self@.follow(i) == Some(r),
            holds::<SearchPath>(self@, r),
    {
        match self.follow(i) {
            Some(index) => index,
            None => 0,
        }
    }

    /// Index of the search folder with this hash, which has to be there.
    fn known_search_folder(&self, hash: Hash40) -> (r: u32)
        requires
            self.wf(),
            self@.find_search_folder(hash) is Some,
        ensures
            self@.find_search_folder(hash) == Some(r),
            holds::<SearchFolder>(self@, r),
    {
        match self.lookup_search_folder(hash) {
            Some(folder) => folder.index(),
            None => 0,
        }
    }
}

impl<'a> TableRef<'a, SearchFolder> {
    pub fn first_child(&self) -> (r: TableRef<'a, SearchPath>)
        requires
            self.wf(),
            self.archive@.follow(self.value().first_child_index) is Some,
        ensures
            r.wf(),
            r.archive == self.archive,
            self.archive@.follow(self.value().first_child_index) == Some(r.index),
    {
        let index: u32 = self.archive.known_follow(self.get().first_child_index);
        TableRef::known(self.archive, index)
    }
}

impl<'a> TableMut<'a, SearchFolder> {
    pub fn first_child_ref(&self) -> (r: TableRef<'_, SearchPath>)
        requires
            self.archive.wf(),
            holds::<SearchFolder>(self.archive@, self.index),
            self.archive@.follow(at::<SearchFolder>(self.archive@, self.index).first_child_index) is Some,
        ensures
            r.wf(),
            *r.archive == *old(self.archive),
            old(self.archive)@.follow(at::<SearchFolder>(old(self.archive)@, self.index).first_child_index) == Some(r.index),
    {
        let index: u32 = self.archive.known_follow(self.get().first_child_index);
        TableRef::known(&*self.archive, index)
    }

    pub fn first_child_mut(&mut self) -> (r: TableMut<'_, SearchPath>)
        requires
            old(self).archive.wf(),
            holds::<SearchFolder>(old(self).archive@, old(self).index),
            old(self).archive@.follow(at::<SearchFolder>(old(self).archive@, old(self).index).first_child_index) is Some,
        ensures
            *r.archive == *old(self).archive,
            old(self).archive@.follow(at::<SearchFolder>(old(self).archive@, old(self).index).first_child_index) == Some(r.index),
            final(self).index == old(self).index,
            *final(self).archive == *final(r.archive),
            *final(final(self).archive) == *final(old(self).archive),
    {
        let index: u32 = self.archive.known_follow(self.get().first_child_index);
        TableMut::known(&mut *self.archive, index)
    }

    pub fn first_child(self) -> (r: TableMut<'a, SearchPath>)
        requires
            self.archive.wf(),
            holds::<SearchFolder>(self.archive@, self.index),
            self.archive@.follow(at::<SearchFolder>(self.archive@, self.index).first_child_index) is Some,
        ensures
            *r.archive == *old(self.archive),
            old(self.archive)@.follow(at::<SearchFolder>(old(self.archive)@, self.index).first_child_index) == Some(r.index),
            *final(r.archive) == *final(self.archive),
    {
        let index: u32 = self.archive.known_follow(self.get().first_child_index);
        TableMut::known(self.archive, index)
    }
}

impl<'a> TableRef<'a, SearchPath> {
    pub fn next(&self) -> (r: TableRef<'a, SearchPath>)
        requires
            self.wf(),
            !self.value().spec_is_end(),
            self.archive@.follow(self.value().next_index()) is Some,
        ensures
            r.wf(),
            r.archive == self.archive,
            self.archive@.follow(self.value().next_index()) == Some(r.index),
    {
        let index: u32 = self.archive.known_follow(self.get().path_and_next_index.data());
        TableRef::known(self.archive, index)
    }
}

impl<'a> TableMut<'a, SearchPath> {
    pub fn next_ref(&self) -> (r: TableRef<'_, SearchPath>)
        requires
            self.archive.wf(),
            holds::<SearchPath>(self.archive@, self.index),
            !at::<SearchPath>(self.archive@, self.index).spec_is_end(),
            self.archive@.follow(at::<SearchPath>(self.archive@, self.index).next_index()) is Some,
        ensures
            r.wf(),
            *r.archive == *old(self.archive),
            old(self.archive)@.follow(at::<SearchPath>(old(self.archive)@, self.index).next_index()) == Some(r.index),
    {
        let index: u32 = self.archive.known_follow(self.get().path_and_next_index.data());
        TableRef::known(&*self.archive, index)
    }

    pub fn next_mut(&mut self) -> (r: TableMut<'_, SearchPath>)
        requires
            old(self).archive.wf(),
            holds::<SearchPath>(old(self).archive@, old(self).index),
            !at::<SearchPath>(old(self).archive@, old(self).index).spec_is_end(),
            old(self).archive@.follow(at::<SearchPath>(old(self).archive@, old(self).index).next_index()) is Some,
        ensures
            *r.archive == *old(self).archive,
            old(self).archive@.follow(at::<SearchPath>(old(self).archive@, old(self).index).next_index()) == Some(r.index),
            final(self).index == old(self).index,
            *final(self).archive == *final(r.archive),
            *final(final(self).archive) == *final(old(self).archive),
    {
        let index: u32 = self.archive.known_follow(self.get().path_and_next_index.data());
        TableMut::known(&mut *self.archive, index)
    }

    pub fn next(self) -> (r: TableMut<'a, SearchPath>)
        requires
            self.archive.wf(),
            holds::<SearchPath>(self.archive@, self.index),
            !at::<SearchPath>(self.archive@, self.index).spec_is_end(),
            self.archive@.follow(at::<SearchPath>(self.archive@, self.index).next_index()) is Some,
        ensures
            *r.archive == *old(self.archive),
            old(self.archive)@.follow(at::<SearchPath>(old(self.archive)@, self.index).next_index()) == Some(r.index),
            *final(r.archive) == *final(self.archive),
    {
        let index: u32 = self.archive.known_follow(self.get().path_and_next_index.data());
        TableMut::known(self.archive, index)
    }
}

impl<'a> TableRef<'a, SearchPath> {
    pub fn as_folder(&self) -> (r: TableRef<'a, SearchFolder>)
        requires
            self.wf(),
            self.value().spec_is_folder(),
            self.archive@.find_search_folder(self.value().spec_path()) is Some,
        ensures
            r.wf(),
            r.archive == self.archive,
            self.archive@.find_search_folder(self.value().spec_path()) == Some(r.index),
    {
        let index: u32 = self.archive.known_search_folder(self.get().path());
        TableRef::known(self.archive, index)
    }
}

impl<'a> TableMut<'a, SearchPath> {
    pub fn as_folder_ref(&self) -> (r: TableRef<'_, SearchFolder>)
        requires
            self.archive.wf(),
            holds::<SearchPath>(self.archive@, self.index),
            at::<SearchPath>(self.archive@, self.index).spec_is_folder(),
            self.archive@.find_search_folder(at::<SearchPath>(self.archive@, self.index).spec_path()) is Some,
        ensures
            r.wf(),
            *r.archive == *old(self.archive),
            old(self.archive)@.find_search_folder(at::<SearchPath>(old(self.archive)@, self.index).spec_path()) == Some(r.index),
    {
        let index: u32 = self.archive.known_search_folder(self.get().path());
        TableRef::known(&*self.archive, index)
    }

    pub fn as_folder_mut(&mut self) -> (r: TableMut<'_, SearchFolder>)
        requires
            old(self).archive.wf(),
            holds::<SearchPath>(old(self).archive@, old(self).index),
            at::<SearchPath>(old(self).archive@, old(self).index).spec_is_folder(),
            old(self).archive@.find_search_folder(at::<SearchPath>(old(self).archive@, old(self).index).spec_path()) is Some,
        ensures
            *r.archive == *old(self).archive,
            old(self).archive@.find_search_folder(at::<SearchPath>(old(self).archive@, old(self).index).spec_path()) == Some(r.index),
            final(self).index == old(self).index,
            *final(self).archive == *final(r.archive),
            *final(final(self).archive) == *final(old(self).archive),
    {
        let index: u32 = self.archive.known_search_folder(self.get().path());
        TableMut::known(&mut *self.archive, index)
    }

    pub fn into_folder(self) -> (r: TableMut<'a, SearchFolder>)
        requires
            self.archive.wf(),
            holds::<SearchPath>(self.archive@, self.index),
            at::<SearchPath>(self.archive@, self.index).spec_is_folder(),
            self.archive@.find_search_folder(at::<SearchPath>(self.archive@, self.index).spec_path()) is Some,
        ensures
            *r.archive == *old(self.archive),
            old(self.archive)@.find_search_folder(at::<SearchPath>(old(self.archive)@, self.index).spec_path()) == Some(r.index),
            *final(r.archive) == *final(self.archive),
    {
        let index: u32 = self.archive.known_search_folder(self.get().path());
        TableMut::known(self.archive, index)
    }
}

impl<'a> TableRef<'a, SearchPathLink> {
    /// The path that a valid link points to.
    pub fn path(&self) -> (r: TableRef<'a, SearchPath>)
        requires
            self.wf(),
            !self.value().spec_is_invalid(),
            holds::<SearchPath>(self.archive@, self.value().index),
        ensures
            r.wf(),
            r.archive == self.archive,
            r.index == self.value().index,
    {
        TableRef::known(self.archive, self.get().path_index())
    }

    /// The path that the link points to, if it is valid.
    pub fn try_path(&self) -> (r: Option<TableRef<'a, SearchPath>>)
        requires
            self.wf(),
            !self.value().spec_is_invalid() ==> holds::<SearchPath>(
                self.archive@,
                self.value().index,
            ),
        ensures
            match r {
                Some(x) => !self.value().spec_is_invalid() && x.wf() && x.archive == self.archive
                    && x.index == self.value().index,
                None => self.value().spec_is_invalid(),
            },
    {
        if self.get().is_invalid() {
            None
        } else {
            Some(self.path())
        }
    }
}

impl<'a> TableMut<'a, SearchPathLink> {
    pub fn path_ref(&self) -> (r: TableRef<'_, SearchPath>)
        requires
            self.archive.wf(),
            holds::<SearchPathLink>(self.archive@, self.index),
            holds::<SearchPath>(self.archive@, at::<SearchPathLink>(self.archive@, self.index).index),
        ensures
            r.wf(),
            *r.archive == *old(self.archive),
            r.index == at::<SearchPathLink>(old(self.archive)@, self.index).index,
    {
        let index: u32 = self.get().index;
        TableRef::known(&*self.archive, index)
    }

    pub fn path_mut(&mut self) -> (r: TableMut<'_, SearchPath>)
        requires
            old(self).archive.wf(),
            holds::<SearchPathLink>(old(self).archive@, old(self).index),
            holds::<SearchPath>(old(self).archive@, at::<SearchPathLink>(old(self).archive@, old(self).index).index),
        ensures
            *r.archive == *old(self).archive,
            r.index == at::<SearchPathLink>(old(self).archive@, old(self).index).index,
            final(self).index == old(self).index,
            *final(self).archive == *final(r.archive),
            *final(final(self).archive) == *final(old(self).archive),
    {
        let index: u32 = self.get().index;
        TableMut::known(&mut *self.archive, index)
    }

    pub fn path(self) -> (r: TableMut<'a, SearchPath>)
        requires
            self.archive.wf(),
            holds::<SearchPathLink>(self.archive@, self.index),
            holds::<SearchPath>(self.archive@, at::<SearchPathLink>(self.archive@, self.index).index),
        ensures
            *r.archive == *old(self.archive),
            r.index == at::<SearchPathLink>(old(self.archive)@, self.index).index,
            *final(r.archive) == *final(self.archive),
    {
        let index: u32 = self.get().index;
        TableMut::known(self.archive, index)
    }
}

} // verus!
