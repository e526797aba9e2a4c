//! Getting at the items of the archive's tables.

use crate::archive::{Archive, ArchiveView, ResourceView, SearchView};
use crate::containers::{Table, TableView};
use crate::data::{
    FileData, FileDescriptor, FileEntity, FileGroup, FileInfo, FilePackage, FilePackageChild,
    FilePath, SearchFolder, SearchPath, SearchPathLink, StreamData, StreamEntity, StreamFolder,
    StreamPath,
};
use crate::words::Record;
use core::marker::PhantomData;
use vstd::prelude::*;

verus! {

/// A record that one of the archive's tables holds.
pub trait Stored: Record {
    /// The table of these records.
    spec fn table_in(v: ArchiveView) -> TableView<Self>;

    /// The archive with another table of these records.
    spec fn put_table(v: ArchiveView, t: TableView<Self>) -> ArchiveView;

    proof fn lemma_table(v: ArchiveView, t: TableView<Self>)
        ensures
            Self::table_in(Self::put_table(v, t)) == t,
            Self::put_table(v, Self::table_in(v)) == v,
            v.wf() ==> Self::table_in(v).len() <= u32::MAX,
            v.wf() && Self::table_in(v).len() <= t.len() <= u32::MAX ==> Self::put_table(v, t).wf(),
    ;

    fn table(archive: &Archive) -> (r: &Table<Self>)
        ensures
            r@ == Self::table_in(archive@),
    ;

    fn table_mut(archive: &mut Archive) -> (r: &mut Table<Self>)
        ensures
            r@ == Self::table_in(old(archive)@),
            final(archive)@ == Self::put_table(old(archive)@, final(r)@),
    ;
}

/// Is there a record with index `i`?
pub open spec fn holds<T: Stored>(v: ArchiveView, i: u32) -> bool {
    i < T::table_in(v).len()
}

/// The record with index `i`.
pub open spec fn at<T: Stored>(v: ArchiveView, i: u32) -> T {
    T::table_in(v).at(i as int)
}

/// The number of records.
pub open spec fn count<T: Stored>(v: ArchiveView) -> nat {
    T::table_in(v).len()
}

/// The archive with another record at index `i`.
pub open spec fn with<T: Stored>(v: ArchiveView, i: u32, value: T) -> ArchiveView {
    T::put_table(v, T::table_in(v).update(i as int, value))
}

/// The archive with one more record.
pub open spec fn pushed<T: Stored>(v: ArchiveView, value: T) -> ArchiveView {
    T::put_table(v, T::table_in(v).push(value))
}

/// A record that was changed or added is there afterwards, and the archive stays valid.
pub proof fn law_stored<T: Stored>(v: ArchiveView, i: u32, value: T)
    requires
        v.wf(),
    ensures
        holds::<T>(v, i) ==> with(v, i, value).wf() && at::<T>(with(v, i, value), i) == value && count::<
            T,
        >(with(v, i, value)) == count::<T>(v),
        count::<T>(v) < u32::MAX ==> pushed(v, value).wf() && at::<T>(
            pushed(v, value),
            count::<T>(v) as u32,
        ) == value && count::<T>(pushed(v, value)) == count::<T>(v) + 1,
        count::<T>(v) <= u32::MAX,
{
    let t = T::table_in(v);
    T::lemma_table(v, t);
    T::lemma_table(v, t.update(i as int, value));
    T::lemma_table(v, t.push(value));
}

/// A record of the archive, and the way from it to others.
///
/// The record is checked to be there when the reference is made. Because tables only grow, it stays.
pub struct TableRef<'a, T> {
    pub archive: &'a Archive,
    pub index: u32,
    pub kind: PhantomData<T>,
}

impl<'a, T: Stored> TableRef<'a, T> {
    pub open spec fn wf(&self) -> bool {
        self.archive.wf() && holds::<T>(self.archive@, self.index)
    }

    /// The record.
    pub open spec fn value(&self) -> T {
        at::<T>(self.archive@, self.index)
    }

    pub fn new(archive: &'a Archive, index: u32) -> (r: Option<TableRef<'a, T>>)
        requires
            archive.wf(),
        ensures
            match r {
                Some(x) => x.wf() && x.archive == archive && x.index == index,
                None => !holds::<T>(archive@, index),
            },
    {
        proof {
            T::lemma_table(archive@, T::table_in(archive@));
        }
        if T::table(archive).contains(index) {
            Some(TableRef { archive, index, kind: PhantomData })
        } else {
            None
        }
    }

    /// The record, which has to be there.
    pub fn known(archive: &'a Archive, index: u32) -> (r: TableRef<'a, T>)
        requires
            archive.wf(),
            holds::<T>(archive@, index),
        ensures
            r.wf(),
            r.archive == archive,
            r.index == index,
    {
        TableRef { archive, index, kind: PhantomData }
    }

    pub fn get(&self) -> (r: T)
        requires
            self.wf(),
        ensures
            r == self.value(),
    {
        proof {
            T::lemma_table(self.archive@, T::table_in(self.archive@));
        }
        *T::table(self.archive).get_unchecked(self.index)
    }

    pub fn archive(&self) -> (r: &'a Archive)
        ensures
            r == self.archive,
    {
        self.archive
    }

    pub fn index(&self) -> (r: u32)
        ensures
            r == self.index,
    {
        self.index
    }
}

/// A record of the archive for changing it, and the way from it to others.
///
/// It holds the archive and the index of the record, so the archive can be changed through it in
/// other places too, and the record be read again afterwards.
pub struct TableMut<'a, T> {
    pub archive: &'a mut Archive,
    pub index: u32,
    pub kind: PhantomData<T>,
}

impl<'a, T: Stored> TableMut<'a, T> {
    pub fn new(archive: &'a mut Archive, index: u32) -> (r: Option<TableMut<'a, T>>)
        requires
            old(archive).wf(),
        ensures
            match r {
                Some(x) => holds::<T>(old(archive)@, index) && x.index == index && *x.archive == *old(
                    archive,
                ) && *final(x.archive) == *final(archive),
                None => !holds::<T>(old(archive)@, index) && *final(archive) == *old(archive),
            },
    {
        proof {
            T::lemma_table(archive@, T::table_in(archive@));
        }
        if T::table(archive).contains(index) {
            Some(TableMut { archive, index, kind: PhantomData })
        } else {
            None
        }
    }

    /// The record, which has to be there.
    pub fn known(archive: &'a mut Archive, index: u32) -> (r: TableMut<'a, T>)
        requires
            old(archive).wf(),
            holds::<T>(old(archive)@, index),
        ensures
            r.index == index,
            *r.archive == *old(archive),
            *final(r.archive) == *final(archive),
    {
        TableMut { archive, index, kind: PhantomData }
    }

    pub fn get(&self) -> (r: T)
        requires
            self.archive.wf(),
            holds::<T>(self.archive@, self.index),
        ensures
            r == at::<T>(old(self.archive)@, self.index),
    {
        proof {
            T::lemma_table(self.archive@, T::table_in(self.archive@));
        }
        *T::table(self.archive).get_unchecked(self.index)
    }

    /// The record itself.
    pub fn get_mut(&mut self) -> (r: &mut T)
        requires
            old(self).archive.wf(),
            holds::<T>(old(self).archive@, old(self).index),
        ensures
            *r == at::<T>(old(self).archive@, old(self).index),
            final(self).index == old(self).index,
            final(self).archive@ == with(old(self).archive@, old(self).index, *final(r)),
            *final(final(self).archive) == *final(old(self).archive),
    {
        proof {
            T::lemma_table(self.archive@, T::table_in(self.archive@));
        }
        T::table_mut(self.archive).get_unchecked_mut(self.index)
    }

    pub fn archive(&self) -> (r: &Archive)
        ensures
            *r == *old(self.archive),
    {
        &*self.archive
    }

    /// The archive, for changing it while the record is kept at hand.
    pub fn archive_mut(&mut self) -> (r: &mut Archive)
        ensures
            *r == *old(self).archive,
            final(self).index == old(self).index,
            *final(self).archive == *final(r),
            *final(final(self).archive) == *final(old(self).archive),
    {
        &mut *self.archive
    }

    pub fn into_archive_mut(self) -> (r: &'a mut Archive)
        ensures
            *r == *old(self.archive),
            *final(r) == *final(self.archive),
    {
        self.archive
    }

    pub fn index(&self) -> (r: u32)
        ensures
            r == self.index,
    {
        self.index
    }
}

/// Does the run of `count` records from `start` on lie within the table? A run that starts at the
/// first record and is empty does not count as one.
pub open spec fn has_run<T: Stored>(v: ArchiveView, start: u32, count: u32) -> bool {
    0 < start + count <= T::table_in(v).len()
}

/// A run of records of the archive.
pub struct TableSliceRef<'a, T> {
    pub archive: &'a Archive,
    pub start: u32,
    pub count: u32,
    pub kind: PhantomData<T>,
}

impl<'a, T: Stored> TableSliceRef<'a, T> {
    pub open spec fn wf(&self) -> bool {
        self.archive.wf() && has_run::<T>(self.archive@, self.start, self.count)
    }

    pub fn new(archive: &'a Archive, start: u32, count: u32) -> (r: Option<TableSliceRef<'a, T>>)
        requires
            archive.wf(),
        ensures
            match r {
                Some(x) => x.wf() && x.archive == archive && x.start == start && x.count == count,
                None => !has_run::<T>(archive@, start, count),
            },
    {
        proof {
            T::lemma_table(archive@, T::table_in(archive@));
        }
        let end: u64 = start as u64 + count as u64;
        if end == 0 || end > 0xFFFF_FFFF {
            return None;
        }
        if T::table(archive).contains(end as u32 - 1) {
            Some(TableSliceRef { archive, start, count, kind: PhantomData })
        } else {
            None
        }
    }

    pub fn len(&self) -> (r: u32)
        ensures
            r == self.count,
    {
        self.count
    }

    pub fn is_empty(&self) -> (r: bool)
        ensures
            r == (self.count == 0),
    {
        self.count == 0
    }

    /// The record with this index in the table, if it lies in the run.
    pub fn get(&self, index: u32) -> (r: Option<TableRef<'a, T>>)
        requires
            self.wf(),
        ensures
            match r {
                Some(x) => x.wf() && x.archive == self.archive && x.index == index && self.start
                    <= index < self.start + self.count,
                None => !(self.start <= index < self.start + self.count),
            },
    {
        if index >= self.start && index - self.start < self.count {
            Some(TableRef::known(self.archive, index))
        } else {
            None
        }
    }

    /// The record at this position of the run.
    pub fn get_local(&self, index: u32) -> (r: Option<TableRef<'a, T>>)
        requires
            self.wf(),
        ensures
            match r {
                Some(x) => x.wf() && x.archive == self.archive && x.index == self.start + index
                    && index < self.count,
                None => index >= self.count,
            },
    {
        proof {
            T::lemma_table(self.archive@, T::table_in(self.archive@));
        }
        if index < self.count {
            Some(TableRef::known(self.archive, self.start + index))
        } else {
            None
        }
    }

    /// The first index of the run, and the first one behind it.
    pub fn range(&self) -> (r: (u32, u32))
        requires
            self.wf(),
        ensures
            r.0 == self.start,
            r.1 == self.start + self.count,
    {
        proof {
            T::lemma_table(self.archive@, T::table_in(self.archive@));
        }
        (self.start, self.start + self.count)
    }

    /// The records of the run, in their order.
    pub fn iter(&self) -> (r: Vec<TableRef<'a, T>>)
        requires
            self.wf(),
        ensures
            r@.len() == self.count,
            forall|i: int|
                0 <= i < r@.len() ==> (#[trigger] r@[i]).wf() && r@[i].archive == self.archive
                    && r@[i].index == self.start + i,
    {
        let mut r: Vec<TableRef<'a, T>> = Vec::new();
        let mut i: u32 = 0;
        while i < self.count
            invariant
                self.wf(),
                i <= self.count,
                r@.len() == i,
                forall|j: int|
                    0 <= j < i ==> (#[trigger] r@[j]).wf() && r@[j].archive == self.archive
                        && r@[j].index == self.start + j,
            decreases self.count - i,
        {
            if let Some(x) = self.get_local(i) {
                r.push(x);
            }
            i += 1;
        }
        r
    }
}

impl Stored for FilePath {
    open spec fn table_in(v: ArchiveView) -> TableView<FilePath> {
        v.resource.file_path
    }

    open spec fn put_table(v: ArchiveView, t: TableView<FilePath>) -> ArchiveView {
        ArchiveView { resource: ResourceView { file_path: t, ..v.resource }, ..v }
    }

    proof fn lemma_table(v: ArchiveView, t: TableView<FilePath>) {
    }

    fn table(archive: &Archive) -> (r: &Table<FilePath>) {
        &archive.resource.file_path
    }

    fn table_mut(archive: &mut Archive) -> (r: &mut Table<FilePath>) {
        &mut archive.resource.file_path
    }
}

impl Stored for FileEntity {
    open spec fn table_in(v: ArchiveView) -> TableView<FileEntity> {
        v.resource.file_entity
    }

    open spec fn put_table(v: ArchiveView, t: TableView<FileEntity>) -> ArchiveView {
        ArchiveView { resource: ResourceView { file_entity: t, ..v.resource }, ..v }
    }

    proof fn lemma_table(v: ArchiveView, t: TableView<FileEntity>) {
    }

    fn table(archive: &Archive) -> (r: &Table<FileEntity>) {
        &archive.resource.file_entity
    }

    fn table_mut(archive: &mut Archive) -> (r: &mut Table<FileEntity>) {
        &mut archive.resource.file_entity
    }
}

impl Stored for FileInfo {
    open spec fn table_in(v: ArchiveView) -> TableView<FileInfo> {
        v.resource.file_info
    }

    open spec fn put_table(v: ArchiveView, t: TableView<FileInfo>) -> ArchiveView {
        ArchiveView { resource: ResourceView { file_info: t, ..v.resource }, ..v }
    }

    proof fn lemma_table(v: ArchiveView, t: TableView<FileInfo>) {
    }

    fn table(archive: &Archive) -> (r: &Table<FileInfo>) {
        &archive.resource.file_info
    }

    fn table_mut(archive: &mut Archive) -> (r: &mut Table<FileInfo>) {
        &mut archive.resource.file_info
    }
}

impl Stored for FileDescriptor {
    open spec fn table_in(v: ArchiveView) -> TableView<FileDescriptor> {
        v.resource.file_desc
    }

    open spec fn put_table(v: ArchiveView, t: TableView<FileDescriptor>) -> ArchiveView {
        ArchiveView { resource: ResourceView { file_desc: t, ..v.resource }, ..v }
    }

    proof fn lemma_table(v: ArchiveView, t: TableView<FileDescriptor>) {
    }

    fn table(archive: &Archive) -> (r: &Table<FileDescriptor>) {
        &archive.resource.file_desc
    }

    fn table_mut(archive: &mut Archive) -> (r: &mut Table<FileDescriptor>) {
        &mut archive.resource.file_desc
    }
}

impl Stored for FileData {
    open spec fn table_in(v: ArchiveView) -> TableView<FileData> {
        v.resource.file_data
    }

    open spec fn put_table(v: ArchiveView, t: TableView<FileData>) -> ArchiveView {
        ArchiveView { resource: ResourceView { file_data: t, ..v.resource }, ..v }
    }

    proof fn lemma_table(v: ArchiveView, t: TableView<FileData>) {
    }

    fn table(archive: &Archive) -> (r: &Table<FileData>) {
        &archive.resource.file_data
    }

    fn table_mut(archive: &mut Archive) -> (r: &mut Table<FileData>) {
        &mut archive.resource.file_data
    }
}

impl Stored for FilePackage {
    open spec fn table_in(v: ArchiveView) -> TableView<FilePackage> {
        v.resource.file_package
    }

    open spec fn put_table(v: ArchiveView, t: TableView<FilePackage>) -> ArchiveView {
        ArchiveView { resource: ResourceView { file_package: t, ..v.resource }, ..v }
    }

    proof fn lemma_table(v: ArchiveView, t: TableView<FilePackage>) {
    }

    fn table(archive: &Archive) -> (r: &Table<FilePackage>) {
        &archive.resource.file_package
    }

    fn table_mut(archive: &mut Archive) -> (r: &mut Table<FilePackage>) {
        &mut archive.resource.file_package
    }
}

impl Stored for FilePackageChild {
    open spec fn table_in(v: ArchiveView) -> TableView<FilePackageChild> {
        v.resource.file_package_child
    }

    open spec fn put_table(v: ArchiveView, t: TableView<FilePackageChild>) -> ArchiveView {
        ArchiveView { resource: ResourceView { file_package_child: t, ..v.resource }, ..v }
    }

    proof fn lemma_table(v: ArchiveView, t: TableView<FilePackageChild>) {
    }

    fn table(archive: &Archive) -> (r: &Table<FilePackageChild>) {
        &archive.resource.file_package_child
    }

    fn table_mut(archive: &mut Archive) -> (r: &mut Table<FilePackageChild>) {
        &mut archive.resource.file_package_child
    }
}

impl Stored for FileGroup {
    open spec fn table_in(v: ArchiveView) -> TableView<FileGroup> {
        v.resource.file_group
    }

    open spec fn put_table(v: ArchiveView, t: TableView<FileGroup>) -> ArchiveView {
        ArchiveView { resource: ResourceView { file_group: t, ..v.resource }, ..v }
    }

    proof fn lemma_table(v: ArchiveView, t: TableView<FileGroup>) {
    }

    fn table(archive: &Archive) -> (r: &Table<FileGroup>) {
        &archive.resource.file_group
    }

    fn table_mut(archive: &mut Archive) -> (r: &mut Table<FileGroup>) {
        &mut archive.resource.file_group
    }
}

impl Stored for StreamFolder {
    open spec fn table_in(v: ArchiveView) -> TableView<StreamFolder> {
        v.resource.stream_folder
    }

    open spec fn put_table(v: ArchiveView, t: TableView<StreamFolder>) -> ArchiveView {
        ArchiveView { resource: ResourceView { stream_folder: t, ..v.resource }, ..v }
    }

    proof fn lemma_table(v: ArchiveView, t: TableView<StreamFolder>) {
    }

    fn table(archive: &Archive) -> (r: &Table<StreamFolder>) {
        &archive.resource.stream_folder
    }

    fn table_mut(archive: &mut Archive) -> (r: &mut Table<StreamFolder>) {
        &mut archive.resource.stream_folder
    }
}

impl Stored for StreamPath {
    open spec fn table_in(v: ArchiveView) -> TableView<StreamPath> {
        v.resource.stream_path
    }

    open spec fn put_table(v: ArchiveView, t: TableView<StreamPath>) -> ArchiveView {
        ArchiveView { resource: ResourceView { stream_path: t, ..v.resource }, ..v }
    }

    proof fn lemma_table(v: ArchiveView, t: TableView<StreamPath>) {
    }

    fn table(archive: &Archive) -> (r: &Table<StreamPath>) {
        &archive.resource.stream_path
    }

    fn table_mut(archive: &mut Archive) -> (r: &mut Table<StreamPath>) {
        &mut archive.resource.stream_path
    }
}

impl Stored for StreamEntity {
    open spec fn table_in(v: ArchiveView) -> TableView<StreamEntity> {
        v.resource.stream_entity
    }

    open spec fn put_table(v: ArchiveView, t: TableView<StreamEntity>) -> ArchiveView {
        ArchiveView { resource: ResourceView { stream_entity: t, ..v.resource }, ..v }
    }

    proof fn lemma_table(v: ArchiveView, t: TableView<StreamEntity>) {
    }

    fn table(archive: &Archive) -> (r: &Table<StreamEntity>) {
        &archive.resource.stream_entity
    }

    fn table_mut(archive: &mut Archive) -> (r: &mut Table<StreamEntity>) {
        &mut archive.resource.stream_entity
    }
}

impl Stored for StreamData {
    open spec fn table_in(v: ArchiveView) -> TableView<StreamData> {
        v.resource.stream_data
    }

    open spec fn put_table(v: ArchiveView, t: TableView<StreamData>) -> ArchiveView {
        ArchiveView { resource: ResourceView { stream_data: t, ..v.resource }, ..v }
    }

    proof fn lemma_table(v: ArchiveView, t: TableView<StreamData>) {
    }

    fn table(archive: &Archive) -> (r: &Table<StreamData>) {
        &archive.resource.stream_data
    }

    fn table_mut(archive: &mut Archive) -> (r: &mut Table<StreamData>) {
        &mut archive.resource.stream_data
    }
}

impl Stored for SearchFolder {
    open spec fn table_in(v: ArchiveView) -> TableView<SearchFolder> {
        v.search.search_folder
    }

    open spec fn put_table(v: ArchiveView, t: TableView<SearchFolder>) -> ArchiveView {
        ArchiveView { search: SearchView { search_folder: t, ..v.search }, ..v }
    }

    proof fn lemma_table(v: ArchiveView, t: TableView<SearchFolder>) {
    }

    fn table(archive: &Archive) -> (r: &Table<SearchFolder>) {
        &archive.search.search_folder
    }

    fn table_mut(archive: &mut Archive) -> (r: &mut Table<SearchFolder>) {
        &mut archive.search.search_folder
    }
}

impl Stored for SearchPathLink {
    open spec fn table_in(v: ArchiveView) -> TableView<SearchPathLink> {
        v.search.search_path_link
    }

    open spec fn put_table(v: ArchiveView, t: TableView<SearchPathLink>) -> ArchiveView {
        ArchiveView { search: SearchView { search_path_link: t, ..v.search }, ..v }
    }

    proof fn lemma_table(v: ArchiveView, t: TableView<SearchPathLink>) {
    }

    fn table(archive: &Archive) -> (r: &Table<SearchPathLink>) {
        &archive.search.search_path_link
    }

    fn table_mut(archive: &mut Archive) -> (r: &mut Table<SearchPathLink>) {
        &mut archive.search.search_path_link
    }
}

impl Stored for SearchPath {
    open spec fn table_in(v: ArchiveView) -> TableView<SearchPath> {
        v.search.search_path
    }

    open spec fn put_table(v: ArchiveView, t: TableView<SearchPath>) -> ArchiveView {
        ArchiveView { search: SearchView { search_path: t, ..v.search }, ..v }
    }

    proof fn lemma_table(v: ArchiveView, t: TableView<SearchPath>) {
    }

    fn table(archive: &Archive) -> (r: &Table<SearchPath>) {
        &archive.search.search_path
    }

    fn table_mut(archive: &mut Archive) -> (r: &mut Table<SearchPath>) {
        &mut archive.search.search_path
    }
}

impl Archive {
    /// Number of records of a table.
    pub fn num<T: Stored>(&self) -> (r: usize)
        requires
            self.wf(),
        ensures
            r == count::<T>(self@),
    {
        proof {
            T::lemma_table(self@, T::table_in(self@));
        }
        T::table(self).len()
    }

    /// The record with this index, if there is one.
    pub fn read<T: Stored>(&self, index: u32) -> (r: Option<T>)
        requires
            self.wf(),
        ensures
            r == if holds::<T>(self@, index) {
                Some(at::<T>(self@, index))
            } else {
                None
            },
    {
        match TableRef::<T>::new(self, index) {
            Some(x) => Some(x.get()),
            None => None,
        }
    }

    /// Replaces a record, which has to be there.
    pub fn write<T: Stored>(&mut self, index: u32, value: T)
        requires
            old(self).wf(),
            holds::<T>(old(self)@, index),
        ensures
            final(self)@ == with(old(self)@, index, value),
            final(self).wf(),
    {
        proof {
            law_stored(self@, index, value);
        }
        *T::table_mut(self).get_unchecked_mut(index) = value;
    }

    /// Adds a record and returns its index.
    pub fn push<T: Stored>(&mut self, value: T) -> (r: u32)
        requires
            old(self).wf(),
            count::<T>(old(self)@) < u32::MAX,
        ensures
            final(self)@ == pushed(old(self)@, value),
            final(self).wf(),
            r == count::<T>(old(self)@),
    {
        proof {
            law_stored(self@, 0, value);
        }
        T::table_mut(self).push(value)
    }

    /// Adds a record and returns its index, unless there are as many as can be counted.
    pub fn try_push<T: Stored>(&mut self, value: T) -> (r: Option<u32>)
        requires
            old(self).wf(),
        ensures
            final(self).wf(),
            match r {
                Some(i) => i == count::<T>(old(self)@) && final(self)@ == pushed(old(self)@, value),
                None => count::<T>(old(self)@) == u32::MAX && final(self)@ == old(self)@,
            },
    {
        proof {
            law_stored(self@, 0, value);
        }
        if self.num::<T>() < 0xFFFF_FFFF {
            Some(self.push(value))
        } else {
            None
        }
    }

    /// All records of a table.
    pub fn all<'a, T: Stored>(&'a self) -> (r: Vec<TableRef<'a, T>>)
        requires
            self.wf(),
        ensures
            r@.len() == count::<T>(self@),
            forall|i: int|
                0 <= i < r@.len() ==> (#[trigger] r@[i]).wf() && r@[i].archive == self
                    && r@[i].index == i,
    {
        let n: usize = self.num::<T>();
        let mut r: Vec<TableRef<'a, T>> = Vec::new();
        let mut i: usize = 0;
        proof {
            T::lemma_table(self@, T::table_in(self@));
        }
        while i < n
            invariant
                self.wf(),
                n == count::<T>(self@),
                n <= u32::MAX,
                i <= n,
                r@.len() == i,
                forall|j: int|
                    0 <= j < i ==> (#[trigger] r@[j]).wf() && r@[j].archive == self && r@[j].index
                        == j,
            decreases n - i,
        {
            r.push(TableRef::known(self, i as u32));
            i += 1;
        }
        r
    }
}

impl Archive {
    pub fn iter_file_path(&self) -> (r: Vec<TableRef<'_, FilePath>>)
        requires
            self.wf(),
        ensures
            r@.len() == count::<FilePath>(self@),
            forall|i: int|
                0 <= i < r@.len() ==> (#[trigger] r@[i]).wf() && r@[i].archive == self
                    && r@[i].index == i,
    {
        self.all()
    }

    pub fn num_file_path(&self) -> (r: usize)
        requires
            self.wf(),
        ensures
            r == count::<FilePath>(self@),
    {
        self.num::<FilePath>()
    }

    pub fn get_file_path(&self, index: u32) -> (r: Option<TableRef<'_, FilePath>>)
        requires
            self.wf(),
        ensures
            match r {
                Some(x) => x.wf() && x.archive == self && x.index == index,
                None => !holds::<FilePath>(self@, index),
            },
    {
        TableRef::new(self, index)
    }

    pub fn get_file_path_mut(&mut self, index: u32) -> (r: Option<TableMut<'_, FilePath>>)
        requires
            old(self).wf(),
        ensures
            match r {
                Some(x) => holds::<FilePath>(old(self)@, index) && x.index == index && *x.archive == *old(
                    self,
                ) && *final(x.archive) == *final(self),
                None => !holds::<FilePath>(old(self)@, index) && *final(self) == *old(self),
            },
    {
        TableMut::new(self, index)
    }

    pub fn get_file_path_slice(&self, index: u32, count: u32) -> (r: Option<TableSliceRef<'_, FilePath>>)
        requires
            self.wf(),
        ensures
            match r {
                Some(x) => x.wf() && x.archive == self && x.start == index && x.count == count,
                None => !has_run::<FilePath>(self@, index, count),
            },
    {
        TableSliceRef::new(self, index, count)
    }

    pub fn push_file_path(&mut self, element: FilePath) -> (r: u32)
        requires
            old(self).wf(),
            count::<FilePath>(old(self)@) < u32::MAX,
        ensures
            final(self)@ == pushed(old(self)@, element),
            final(self).wf(),
            r == count::<FilePath>(old(self)@),
    {
        self.push(element)
    }

    pub fn iter_file_entity(&self) -> (r: Vec<TableRef<'_, FileEntity>>)
        requires
            self.wf(),
        ensures
            r@.len() == count::<FileEntity>(self@),
            forall|i: int|
                0 <= i < r@.len() ==> (#[trigger] r@[i]).wf() && r@[i].archive == self
                    && r@[i].index == i,
    {
        self.all()
    }

    pub fn num_file_entity(&self) -> (r: usize)
        requires
            self.wf(),
        ensures
            r == count::<FileEntity>(self@),
    {
        self.num::<FileEntity>()
    }

    pub fn get_file_entity(&self, index: u32) -> (r: Option<TableRef<'_, FileEntity>>)
        requires
            self.wf(),
        ensures
            match r {
                Some(x) => x.wf() && x.archive == self && x.index == index,
                None => !holds::<FileEntity>(self@, index),
            },
    {
        TableRef::new(self, index)
    }

    pub fn get_file_entity_mut(&mut self, index: u32) -> (r: Option<TableMut<'_, FileEntity>>)
        requires
            old(self).wf(),
        ensures
            match r {
                Some(x) => holds::<FileEntity>(old(self)@, index) && x.index == index && *x.archive == *old(
                    self,
                ) && *final(x.archive) == *final(self),
                None => !holds::<FileEntity>(old(self)@, index) && *final(self) == *old(self),
            },
    {
        TableMut::new(self, index)
    }

    pub fn get_file_entity_slice(&self, index: u32, count: u32) -> (r: Option<TableSliceRef<'_, FileEntity>>)
        requires
            self.wf(),
        ensures
            match r {
                Some(x) => x.wf() && x.archive == self && x.start == index && x.count == count,
                None => !has_run::<FileEntity>(self@, index, count),
            },
    {
        TableSliceRef::new(self, index, count)
    }

    pub fn push_file_entity(&mut self, element: FileEntity) -> (r: u32)
        requires
            old(self).wf(),
            count::<FileEntity>(old(self)@) < u32::MAX,
        ensures
            final(self)@ == pushed(old(self)@, element),
            final(self).wf(),
            r == count::<FileEntity>(old(self)@),
    {
        self.push(element)
    }

    pub fn iter_file_info(&self) -> (r: Vec<TableRef<'_, FileInfo>>)
        requires
            self.wf(),
        ensures
            r@.len() == count::<FileInfo>(self@),
            forall|i: int|
                0 <= i < r@.len() ==> (#[trigger] r@[i]).wf() && r@[i].archive == self
                    && r@[i].index == i,
    {
        self.all()
    }

    pub fn num_file_info(&self) -> (r: usize)
        requires
            self.wf(),
        ensures
            r == count::<FileInfo>(self@),
    {
        self.num::<FileInfo>()
    }

    pub fn get_file_info(&self, index: u32) -> (r: Option<TableRef<'_, FileInfo>>)
        requires
            self.wf(),
        ensures
            match r {
                Some(x) => x.wf() && x.archive == self && x.index == index,
                None => !holds::<FileInfo>(self@, index),
            },
    {
        TableRef::new(self, index)
    }

    pub fn get_file_info_mut(&mut self, index: u32) -> (r: Option<TableMut<'_, FileInfo>>)
        requires
            old(self).wf(),
        ensures
            match r {
                Some(x) => holds::<FileInfo>(old(self)@, index) && x.index == index && *x.archive == *old(
                    self,
                ) && *final(x.archive) == *final(self),
                None => !holds::<FileInfo>(old(self)@, index) && *final(self) == *old(self),
            },
    {
        TableMut::new(self, index)
    }

    pub fn get_file_info_slice(&self, index: u32, count: u32) -> (r: Option<TableSliceRef<'_, FileInfo>>)
        requires
            self.wf(),
        ensures
            match r {
                Some(x) => x.wf() && x.archive == self && x.start == index && x.count == count,
                None => !has_run::<FileInfo>(self@, index, count),
            },
    {
        TableSliceRef::new(self, index, count)
    }

    pub fn push_file_info(&mut self, element: FileInfo) -> (r: u32)
        requires
            old(self).wf(),
            count::<FileInfo>(old(self)@) < u32::MAX,
        ensures
            final(self)@ == pushed(old(self)@, element),
            final(self).wf(),
            r == count::<FileInfo>(old(self)@),
    {
        self.push(element)
    }

    pub fn iter_file_desc(&self) -> (r: Vec<TableRef<'_, FileDescriptor>>)
        requires
            self.wf(),
        ensures
            r@.len() == count::<FileDescriptor>(self@),
            forall|i: int|
                0 <= i < r@.len() ==> (#[trigger] r@[i]).wf() && r@[i].archive == self
                    && r@[i].index == i,
    {
        self.all()
    }

    pub fn num_file_desc(&self) -> (r: usize)
        requires
            self.wf(),
        ensures
            r == count::<FileDescriptor>(self@),
    {
        self.num::<FileDescriptor>()
    }

    pub fn get_file_desc(&self, index: u32) -> (r: Option<TableRef<'_, FileDescriptor>>)
        requires
            self.wf(),
        ensures
            match r {
                Some(x) => x.wf() && x.archive == self && x.index == index,
                None => !holds::<FileDescriptor>(self@, index),
            },
    {
        TableRef::new(self, index)
    }

    pub fn get_file_desc_mut(&mut self, index: u32) -> (r: Option<TableMut<'_, FileDescriptor>>)
        requires
            old(self).wf(),
        ensures
            match r {
                Some(x) => holds::<FileDescriptor>(old(self)@, index) && x.index == index && *x.archive == *old(
                    self,
                ) && *final(x.archive) == *final(self),
                None => !holds::<FileDescriptor>(old(self)@, index) && *final(self) == *old(self),
            },
    {
        TableMut::new(self, index)
    }

    pub fn get_file_desc_slice(&self, index: u32, count: u32) -> (r: Option<TableSliceRef<'_, FileDescriptor>>)
        requires
            self.wf(),
        ensures
            match r {
                Some(x) => x.wf() && x.archive == self && x.start == index && x.count == count,
                None => !has_run::<FileDescriptor>(self@, index, count),
            },
    {
        TableSliceRef::new(self, index, count)
    }

    pub fn push_file_desc(&mut self, element: FileDescriptor) -> (r: u32)
        requires
            old(self).wf(),
            count::<FileDescriptor>(old(self)@) < u32::MAX,
        ensures
            final(self)@ == pushed(old(self)@, element),
            final(self).wf(),
            r == count::<FileDescriptor>(old(self)@),
    {
        self.push(element)
    }

    pub fn iter_file_data(&self) -> (r: Vec<TableRef<'_, FileData>>)
        requires
            self.wf(),
        ensures
            r@.len() == count::<FileData>(self@),
            forall|i: int|
                0 <= i < r@.len() ==> (#[trigger] r@[i]).wf() && r@[i].archive == self
                    && r@[i].index == i,
    {
        self.all()
    }

    pub fn num_file_data(&self) -> (r: usize)
        requires
            self.wf(),
        ensures
            r == count::<FileData>(self@),
    {
        self.num::<FileData>()
    }

    pub fn get_file_data(&self, index: u32) -> (r: Option<TableRef<'_, FileData>>)
        requires
            self.wf(),
        ensures
            match r {
                Some(x) => x.wf() && x.archive == self && x.index == index,
                None => !holds::<FileData>(self@, index),
            },
    {
        TableRef::new(self, index)
    }

    pub fn get_file_data_mut(&mut self, index: u32) -> (r: Option<TableMut<'_, FileData>>)
        requires
            old(self).wf(),
        ensures
            match r {
                Some(x) => holds::<FileData>(old(self)@, index) && x.index == index && *x.archive == *old(
                    self,
                ) && *final(x.archive) == *final(self),
                None => !holds::<FileData>(old(self)@, index) && *final(self) == *old(self),
            },
    {
        TableMut::new(self, index)
    }

    pub fn get_file_data_slice(&self, index: u32, count: u32) -> (r: Option<TableSliceRef<'_, FileData>>)
        requires
            self.wf(),
        ensures
            match r {
                Some(x) => x.wf() && x.archive == self && x.start == index && x.count == count,
                None => !has_run::<FileData>(self@, index, count),
            },
    {
        TableSliceRef::new(self, index, count)
    }

    pub fn push_file_data(&mut self, element: FileData) -> (r: u32)
        requires
            old(self).wf(),
            count::<FileData>(old(self)@) < u32::MAX,
        ensures
            final(self)@ == pushed(old(self)@, element),
            final(self).wf(),
            r == count::<FileData>(old(self)@),
    {
        self.push(element)
    }

    pub fn iter_file_package(&self) -> (r: Vec<TableRef<'_, FilePackage>>)
        requires
            self.wf(),
        ensures
            r@.len() == count::<FilePackage>(self@),
            forall|i: int|
                0 <= i < r@.len() ==> (#[trigger] r@[i]).wf() && r@[i].archive == self
                    && r@[i].index == i,
    {
        self.all()
    }

    pub fn num_file_package(&self) -> (r: usize)
        requires
            self.wf(),
        ensures
            r == count::<FilePackage>(self@),
    {
        self.num::<FilePackage>()
    }

    pub fn get_file_package(&self, index: u32) -> (r: Option<TableRef<'_, FilePackage>>)
        requires
            self.wf(),
        ensures
            match r {
                Some(x) => x.wf() && x.archive == self && x.index == index,
                None => !holds::<FilePackage>(self@, index),
            },
    {
        TableRef::new(self, index)
    }

    pub fn get_file_package_mut(&mut self, index: u32) -> (r: Option<TableMut<'_, FilePackage>>)
        requires
            old(self).wf(),
        ensures
            match r {
                Some(x) => holds::<FilePackage>(old(self)@, index) && x.index == index && *x.archive == *old(
                    self,
                ) && *final(x.archive) == *final(self),
                None => !holds::<FilePackage>(old(self)@, index) && *final(self) == *old(self),
            },
    {
        TableMut::new(self, index)
    }

    pub fn get_file_package_slice(&self, index: u32, count: u32) -> (r: Option<TableSliceRef<'_, FilePackage>>)
        requires
            self.wf(),
        ensures
            match r {
                Some(x) => x.wf() && x.archive == self && x.start == index && x.count == count,
                None => !has_run::<FilePackage>(self@, index, count),
            },
    {
        TableSliceRef::new(self, index, count)
    }

    pub fn push_file_package(&mut self, element: FilePackage) -> (r: u32)
        requires
            old(self).wf(),
            count::<FilePackage>(old(self)@) < u32::MAX,
        ensures
            final(self)@ == pushed(old(self)@, element),
            final(self).wf(),
            r == count::<FilePackage>(old(self)@),
    {
        self.push(element)
    }

    pub fn iter_file_package_child(&self) -> (r: Vec<TableRef<'_, FilePackageChild>>)
        requires
            self.wf(),
        ensures
            r@.len() == count::<FilePackageChild>(self@),
            forall|i: int|
                0 <= i < r@.len() ==> (#[trigger] r@[i]).wf() && r@[i].archive == self
                    && r@[i].index == i,
    {
        self.all()
    }

    pub fn num_file_package_child(&self) -> (r: usize)
        requires
            self.wf(),
        ensures
            r == count::<FilePackageChild>(self@),
    {
        self.num::<FilePackageChild>()
    }

    pub fn get_file_package_child(&self, index: u32) -> (r: Option<TableRef<'_, FilePackageChild>>)
        requires
            self.wf(),
        ensures
            match r {
                Some(x) => x.wf() && x.archive == self && x.index == index,
                None => !holds::<FilePackageChild>(self@, index),
            },
    {
        TableRef::new(self, index)
    }

    pub fn get_file_package_child_mut(&mut self, index: u32) -> (r: Option<TableMut<'_, FilePackageChild>>)
        requires
            old(self).wf(),
        ensures
            match r {
                Some(x) => holds::<FilePackageChild>(old(self)@, index) && x.index == index && *x.archive == *old(
                    self,
                ) && *final(x.archive) == *final(self),
                None => !holds::<FilePackageChild>(old(self)@, index) && *final(self) == *old(self),
            },
    {
        TableMut::new(self, index)
    }

    pub fn get_file_package_child_slice(&self, index: u32, count: u32) -> (r: Option<TableSliceRef<'_, FilePackageChild>>)
        requires
            self.wf(),
        ensures
            match r {
                Some(x) => x.wf() && x.archive == self && x.start == index && x.count == count,
                None => !has_run::<FilePackageChild>(self@, index, count),
            },
    {
        TableSliceRef::new(self, index, count)
    }

    pub fn push_file_package_child(&mut self, element: FilePackageChild) -> (r: u32)
        requires
            old(self).wf(),
            count::<FilePackageChild>(old(self)@) < u32::MAX,
        ensures
            final(self)@ == pushed(old(self)@, element),
            final(self).wf(),
            r == count::<FilePackageChild>(old(self)@),
    {
        self.push(element)
    }

    pub fn iter_file_group(&self) -> (r: Vec<TableRef<'_, FileGroup>>)
        requires
            self.wf(),
        ensures
            r@.len() == count::<FileGroup>(self@),
            forall|i: int|
                0 <= i < r@.len() ==> (#[trigger] r@[i]).wf() && r@[i].archive == self
                    && r@[i].index == i,
    {
        self.all()
    }

    pub fn num_file_group(&self) -> (r: usize)
        requires
            self.wf(),
        ensures
            r == count::<FileGroup>(self@),
    {
        self.num::<FileGroup>()
    }

    pub fn get_file_group(&self, index: u32) -> (r: Option<TableRef<'_, FileGroup>>)
        requires
            self.wf(),
        ensures
            match r {
                Some(x) => x.wf() && x.archive == self && x.index == index,
                None => !holds::<FileGroup>(self@, index),
            },
    {
        TableRef::new(self, index)
    }

    pub fn get_file_group_mut(&mut self, index: u32) -> (r: Option<TableMut<'_, FileGroup>>)
        requires
            old(self).wf(),
        ensures
            match r {
                Some(x) => holds::<FileGroup>(old(self)@, index) && x.index == index && *x.archive == *old(
                    self,
                ) && *final(x.archive) == *final(self),
                None => !holds::<FileGroup>(old(self)@, index) && *final(self) == *old(self),
            },
    {
        TableMut::new(self, index)
    }

    pub fn get_file_group_slice(&self, index: u32, count: u32) -> (r: Option<TableSliceRef<'_, FileGroup>>)
        requires
            self.wf(),
        ensures
            match r {
                Some(x) => x.wf() && x.archive == self && x.start == index && x.count == count,
                None => !has_run::<FileGroup>(self@, index, count),
            },
    {
        TableSliceRef::new(self, index, count)
    }

    pub fn push_file_group(&mut self, element: FileGroup) -> (r: u32)
        requires
            old(self).wf(),
            count::<FileGroup>(old(self)@) < u32::MAX,
        ensures
            final(self)@ == pushed(old(self)@, element),
            final(self).wf(),
            r == count::<FileGroup>(old(self)@),
    {
        self.push(element)
    }

    pub fn iter_stream_folder(&self) -> (r: Vec<TableRef<'_, StreamFolder>>)
        requires
            self.wf(),
        ensures
            r@.len() == count::<StreamFolder>(self@),
            forall|i: int|
                0 <= i < r@.len() ==> (#[trigger] r@[i]).wf() && r@[i].archive == self
                    && r@[i].index == i,
    {
        self.all()
    }

    pub fn num_stream_folder(&self) -> (r: usize)
        requires
            self.wf(),
        ensures
            r == count::<StreamFolder>(self@),
    {
        self.num::<StreamFolder>()
    }

    pub fn get_stream_folder(&self, index: u32) -> (r: Option<TableRef<'_, StreamFolder>>)
        requires
            self.wf(),
        ensures
            match r {
                Some(x) => x.wf() && x.archive == self && x.index == index,
                None => !holds::<StreamFolder>(self@, index),
            },
    {
        TableRef::new(self, index)
    }

    pub fn get_stream_folder_mut(&mut self, index: u32) -> (r: Option<TableMut<'_, StreamFolder>>)
        requires
            old(self).wf(),
        ensures
            match r {
                Some(x) => holds::<StreamFolder>(old(self)@, index) && x.index == index && *x.archive == *old(
                    self,
                ) && *final(x.archive) == *final(self),
                None => !holds::<StreamFolder>(old(self)@, index) && *final(self) == *old(self),
            },
    {
        TableMut::new(self, index)
    }

    pub fn get_stream_folder_slice(&self, index: u32, count: u32) -> (r: Option<TableSliceRef<'_, StreamFolder>>)
        requires
            self.wf(),
        ensures
            match r {
                Some(x) => x.wf() && x.archive == self && x.start == index && x.count == count,
                None => !has_run::<StreamFolder>(self@, index, count),
            },
    {
        TableSliceRef::new(self, index, count)
    }

    pub fn push_stream_folder(&mut self, element: StreamFolder) -> (r: u32)
        requires
            old(self).wf(),
            count::<StreamFolder>(old(self)@) < u32::MAX,
        ensures
            final(self)@ == pushed(old(self)@, element),
            final(self).wf(),
            r == count::<StreamFolder>(old(self)@),
    {
        self.push(element)
    }

    pub fn iter_stream_path(&self) -> (r: Vec<TableRef<'_, StreamPath>>)
        requires
            self.wf(),
        ensures
            r@.len() == count::<StreamPath>(self@),
            forall|i: int|
                0 <= i < r@.len() ==> (#[trigger] r@[i]).wf() && r@[i].archive == self
                    && r@[i].index == i,
    {
        self.all()
    }

    pub fn num_stream_path(&self) -> (r: usize)
        requires
            self.wf(),
        ensures
            r == count::<StreamPath>(self@),
    {
        self.num::<StreamPath>()
    }

    pub fn get_stream_path(&self, index: u32) -> (r: Option<TableRef<'_, StreamPath>>)
        requires
            self.wf(),
        ensures
            match r {
                Some(x) => x.wf() && x.archive == self && x.index == index,
                None => !holds::<StreamPath>(self@, index),
            },
    {
        TableRef::new(self, index)
    }

    pub fn get_stream_path_mut(&mut self, index: u32) -> (r: Option<TableMut<'_, StreamPath>>)
        requires
            old(self).wf(),
        ensures
            match r {
                Some(x) => holds::<StreamPath>(old(self)@, index) && x.index == index && *x.archive == *old(
                    self,
                ) && *final(x.archive) == *final(self),
                None => !holds::<StreamPath>(old(self)@, index) && *final(self) == *old(self),
            },
    {
        TableMut::new(self, index)
    }

    pub fn get_stream_path_slice(&self, index: u32, count: u32) -> (r: Option<TableSliceRef<'_, StreamPath>>)
        requires
            self.wf(),
        ensures
            match r {
                Some(x) => x.wf() && x.archive == self && x.start == index && x.count == count,
                None => !has_run::<StreamPath>(self@, index, count),
            },
    {
        TableSliceRef::new(self, index, count)
    }

    pub fn push_stream_path(&mut self, element: StreamPath) -> (r: u32)
        requires
            old(self).wf(),
            count::<StreamPath>(old(self)@) < u32::MAX,
        ensures
            final(self)@ == pushed(old(self)@, element),
            final(self).wf(),
            r == count::<StreamPath>(old(self)@),
    {
        self.push(element)
    }

    pub fn iter_stream_entity(&self) -> (r: Vec<TableRef<'_, StreamEntity>>)
        requires
            self.wf(),
        ensures
            r@.len() == count::<StreamEntity>(self@),
            forall|i: int|
                0 <= i < r@.len() ==> (#[trigger] r@[i]).wf() && r@[i].archive == self
                    && r@[i].index == i,
    {
        self.all()
    }

    pub fn num_stream_entity(&self) -> (r: usize)
        requires
            self.wf(),
        ensures
            r == count::<StreamEntity>(self@),
    {
        self.num::<StreamEntity>()
    }

    pub fn get_stream_entity(&self, index: u32) -> (r: Option<TableRef<'_, StreamEntity>>)
        requires
            self.wf(),
        ensures
            match r {
                Some(x) => x.wf() && x.archive == self && x.index == index,
                None => !holds::<StreamEntity>(self@, index),
            },
    {
        TableRef::new(self, index)
    }

    pub fn get_stream_entity_mut(&mut self, index: u32) -> (r: Option<TableMut<'_, StreamEntity>>)
        requires
            old(self).wf(),
        ensures
            match r {
                Some(x) => holds::<StreamEntity>(old(self)@, index) && x.index == index && *x.archive == *old(
                    self,
                ) && *final(x.archive) == *final(self),
                None => !holds::<StreamEntity>(old(self)@, index) && *final(self) == *old(self),
            },
    {
        TableMut::new(self, index)
    }

    pub fn get_stream_entity_slice(&self, index: u32, count: u32) -> (r: Option<TableSliceRef<'_, StreamEntity>>)
        requires
            self.wf(),
        ensures
            match r {
                Some(x) => x.wf() && x.archive == self && x.start == index && x.count == count,
                None => !has_run::<StreamEntity>(self@, index, count),
            },
    {
        TableSliceRef::new(self, index, count)
    }

    pub fn push_stream_entity(&mut self, element: StreamEntity) -> (r: u32)
        requires
            old(self).wf(),
            count::<StreamEntity>(old(self)@) < u32::MAX,
        ensures
            final(self)@ == pushed(old(self)@, element),
            final(self).wf(),
            r == count::<StreamEntity>(old(self)@),
    {
        self.push(element)
    }

    pub fn iter_stream_data(&self) -> (r: Vec<TableRef<'_, StreamData>>)
        requires
            self.wf(),
        ensures
            r@.len() == count::<StreamData>(self@),
            forall|i: int|
                0 <= i < r@.len() ==> (#[trigger] r@[i]).wf() && r@[i].archive == self
                    && r@[i].index == i,
    {
        self.all()
    }

    pub fn num_stream_data(&self) -> (r: usize)
        requires
            self.wf(),
        ensures
            r == count::<StreamData>(self@),
    {
        self.num::<StreamData>()
    }

    pub fn get_stream_data(&self, index: u32) -> (r: Option<TableRef<'_, StreamData>>)
        requires
            self.wf(),
        ensures
            match r {
                Some(x) => x.wf() && x.archive == self && x.index == index,
                None => !holds::<StreamData>(self@, index),
            },
    {
        TableRef::new(self, index)
    }

    pub fn get_stream_data_mut(&mut self, index: u32) -> (r: Option<TableMut<'_, StreamData>>)
        requires
            old(self).wf(),
        ensures
            match r {
                Some(x) => holds::<StreamData>(old(self)@, index) && x.index == index && *x.archive == *old(
                    self,
                ) && *final(x.archive) == *final(self),
                None => !holds::<StreamData>(old(self)@, index) && *final(self) == *old(self),
            },
    {
        TableMut::new(self, index)
    }

    pub fn get_stream_data_slice(&self, index: u32, count: u32) -> (r: Option<TableSliceRef<'_, StreamData>>)
        requires
            self.wf(),
        ensures
            match r {
                Some(x) => x.wf() && x.archive == self && x.start == index && x.count == count,
                None => !has_run::<StreamData>(self@, index, count),
            },
    {
        TableSliceRef::new(self, index, count)
    }

    pub fn push_stream_data(&mut self, element: StreamData) -> (r: u32)
        requires
            old(self).wf(),
            count::<StreamData>(old(self)@) < u32::MAX,
        ensures
            final(self)@ == pushed(old(self)@, element),
            final(self).wf(),
            r == count::<StreamData>(old(self)@),
    {
        self.push(element)
    }

    pub fn iter_search_folder(&self) -> (r: Vec<TableRef<'_, SearchFolder>>)
        requires
            self.wf(),
        ensures
            r@.len() == count::<SearchFolder>(self@),
            forall|i: int|
                0 <= i < r@.len() ==> (#[trigger] r@[i]).wf() && r@[i].archive == self
                    && r@[i].index == i,
    {
        self.all()
    }

    pub fn num_search_folder(&self) -> (r: usize)
        requires
            self.wf(),
        ensures
            r == count::<SearchFolder>(self@),
    {
        self.num::<SearchFolder>()
    }

    pub fn get_search_folder(&self, index: u32) -> (r: Option<TableRef<'_, SearchFolder>>)
        requires
            self.wf(),
        ensures
            match r {
                Some(x) => x.wf() && x.archive == self && x.index == index,
                None => !holds::<SearchFolder>(self@, index),
            },
    {
        TableRef::new(self, index)
    }

    pub fn get_search_folder_mut(&mut self, index: u32) -> (r: Option<TableMut<'_, SearchFolder>>)
        requires
            old(self).wf(),
        ensures
            match r {
                Some(x) => holds::<SearchFolder>(old(self)@, index) && x.index == index && *x.archive == *old(
                    self,
                ) && *final(x.archive) == *final(self),
                None => !holds::<SearchFolder>(old(self)@, index) && *final(self) == *old(self),
            },
    {
        TableMut::new(self, index)
    }

    pub fn iter_search_path_link(&self) -> (r: Vec<TableRef<'_, SearchPathLink>>)
        requires
            self.wf(),
        ensures
            r@.len() == count::<SearchPathLink>(self@),
            forall|i: int|
                0 <= i < r@.len() ==> (#[trigger] r@[i]).wf() && r@[i].archive == self
                    && r@[i].index == i,
    {
        self.all()
    }

    pub fn num_search_path_link(&self) -> (r: usize)
        requires
            self.wf(),
        ensures
            r == count::<SearchPathLink>(self@),
    {
        self.num::<SearchPathLink>()
    }

    pub fn get_search_path_link(&self, index: u32) -> (r: Option<TableRef<'_, SearchPathLink>>)
        requires
            self.wf(),
        ensures
            match r {
                Some(x) => x.wf() && x.archive == self && x.index == index,
                None => !holds::<SearchPathLink>(self@, index),
            },
    {
        TableRef::new(self, index)
    }

    pub fn get_search_path_link_mut(&mut self, index: u32) -> (r: Option<TableMut<'_, SearchPathLink>>)
        requires
            old(self).wf(),
        ensures
            match r {
                Some(x) => holds::<SearchPathLink>(old(self)@, index) && x.index == index && *x.archive == *old(
                    self,
                ) && *final(x.archive) == *final(self),
                None => !holds::<SearchPathLink>(old(self)@, index) && *final(self) == *old(self),
            },
    {
        TableMut::new(self, index)
    }

    pub fn iter_search_path(&self) -> (r: Vec<TableRef<'_, SearchPath>>)
        requires
            self.wf(),
        ensures
            r@.len() == count::<SearchPath>(self@),
            forall|i: int|
                0 <= i < r@.len() ==> (#[trigger] r@[i]).wf() && r@[i].archive == self
                    && r@[i].index == i,
    {
        self.all()
    }

    pub fn num_search_path(&self) -> (r: usize)
        requires
            self.wf(),
        ensures
            r == count::<SearchPath>(self@),
    {
        self.num::<SearchPath>()
    }

    pub fn get_search_path(&self, index: u32) -> (r: Option<TableRef<'_, SearchPath>>)
        requires
            self.wf(),
        ensures
            match r {
                Some(x) => x.wf() && x.archive == self && x.index == index,
                None => !holds::<SearchPath>(self@, index),
            },
    {
        TableRef::new(self, index)
    }

    pub fn get_search_path_mut(&mut self, index: u32) -> (r: Option<TableMut<'_, SearchPath>>)
        requires
            old(self).wf(),
        ensures
            match r {
                Some(x) => holds::<SearchPath>(old(self)@, index) && x.index == index && *x.archive == *old(
                    self,
                ) && *final(x.archive) == *final(self),
                None => !holds::<SearchPath>(old(self)@, index) && *final(self) == *old(self),
            },
    {
        TableMut::new(self, index)
    }
}

} // verus!
