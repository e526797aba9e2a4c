//! Finding items of the archive by hash, and adding items that can be found.

use crate::access::{at, count, law_stored, pushed, TableMut, TableRef};
use crate::archive::{balanced, Archive, ArchiveView, ResourceView, SearchView};
use crate::containers::{law_bucket_put, law_lookup_put};
use crate::data::{
    FilePackage, FilePath, IntoHash, SearchFolder, SearchPath, SearchPathLink, StreamPath,
};
use crate::hash40::Hash40;
use vstd::prelude::*;

verus! {

/// An index that a lookup gave, if the table has it.
pub open spec fn within(index: Option<u32>, len: nat) -> Option<u32> {
    match index {
        Some(i) => if i < len {
            Some(i)
        } else {
            None
        },
        None => None,
    }
}

impl ArchiveView {
    /// Index of the `FilePath` with this hash.
    pub open spec fn find_file_path(self, hash: Hash40) -> Option<u32> {
        within(self.resource.file_path_lookup.get(hash.0), self.resource.file_path.len())
    }

    /// Index of the `StreamPath` with this hash.
    pub open spec fn find_stream_path(self, hash: Hash40) -> Option<u32> {
        within(self.resource.stream_path_lookup.get(hash.0), self.resource.stream_path.len())
    }

    /// Index of the `FilePackage` with this hash.
    pub open spec fn find_file_package(self, hash: Hash40) -> Option<u32> {
        within(self.resource.file_package_lookup.get(hash.0), self.resource.file_package.len())
    }

    /// Index of the `SearchFolder` with this hash.
    pub open spec fn find_search_folder(self, hash: Hash40) -> Option<u32> {
        within(self.search.search_folder_lookup.get(hash.0), self.search.search_folder.len())
    }

    /// Index of the `SearchPath` with this hash, which is found by way of a link.
    pub open spec fn find_search_path(self, hash: Hash40) -> Option<u32> {
        match within(self.search.search_path_lookup.get(hash.0), self.search.search_path_link.len()) {
            Some(i) => self.linked_search_path(i),
            None => None,
        }
    }

    /// Index of the `SearchPath` that link `i` points to.
    pub open spec fn linked_search_path(self, i: u32) -> Option<u32> {
        let link = at::<SearchPathLink>(self, i);
        if link.spec_is_invalid() {
            None
        } else {
            within(Some(link.index), self.search.search_path.len())
        }
    }

    /// The archive with one more file path, and its index.
    pub open spec fn insert_file_path(self, path: FilePath) -> ArchiveView {
        let v = pushed(self, path);
        ArchiveView {
            resource: ResourceView {
                file_path_lookup: self.resource.file_path_lookup.put(
                    path.spec_path().0,
                    count::<FilePath>(self) as u32,
                ),
                ..v.resource
            },
            ..v
        }
    }

    /// A file path can be added if its hash is not in use and the table is not full.
    pub open spec fn can_insert_file_path(self, path: FilePath) -> bool {
        self.resource.file_path_lookup.get(path.spec_path().0) is None && count::<FilePath>(self)
            < u32::MAX
    }

    pub open spec fn insert_file_package(self, package: FilePackage) -> ArchiveView {
        let v = pushed(self, package);
        ArchiveView {
            resource: ResourceView {
                file_package_lookup: self.resource.file_package_lookup.put(
                    package.spec_path().0,
                    count::<FilePackage>(self) as u32,
                ),
                ..v.resource
            },
            ..v
        }
    }

    pub open spec fn can_insert_file_package(self, package: FilePackage) -> bool {
        self.resource.file_package_lookup.get(package.spec_path().0) is None && count::<FilePackage>(
            self,
        ) < u32::MAX
    }

    pub open spec fn insert_search_folder(self, folder: SearchFolder) -> ArchiveView {
        let v = pushed(self, folder);
        ArchiveView {
            search: SearchView {
                search_folder_lookup: self.search.search_folder_lookup.put(
                    folder.spec_path().0,
                    count::<SearchFolder>(self) as u32,
                ),
                ..v.search
            },
            ..v
        }
    }

    pub open spec fn can_insert_search_folder(self, folder: SearchFolder) -> bool {
        self.search.search_folder_lookup.get(folder.spec_path().0) is None && count::<SearchFolder>(
            self,
        ) < u32::MAX
    }

    /// The archive with one more search path, and a link to it that the lookup knows.
    pub open spec fn insert_search_path(self, path: SearchPath) -> ArchiveView {
        let v = pushed(
            pushed(self, path),
            SearchPathLink { index: count::<SearchPath>(self) as u32 },
        );
        ArchiveView {
            search: SearchView {
                search_path_lookup: self.search.search_path_lookup.put(
                    path.spec_path().0,
                    count::<SearchPathLink>(self) as u32,
                ),
                ..v.search
            },
            ..v
        }
    }

    pub open spec fn can_insert_search_path(self, path: SearchPath) -> bool {
        self.search.search_path_lookup.get(path.spec_path().0) is None && count::<SearchPath>(self)
            < u32::MAX && count::<SearchPathLink>(self) < u32::MAX
    }
}

impl Archive {
    pub fn lookup_file_path<P: IntoHash>(&self, path: P) -> (r: Option<TableRef<'_, FilePath>>)
        requires
            self.wf(),
        ensures
            match r {
                Some(x) => x.wf() && x.archive == self && self@.find_file_path(path.hash_of()) == Some(
                    x.index,
                ),
                None => self@.find_file_path(path.hash_of()) is None,
            },
    {
        match self.resource.file_path_lookup.get(path.into_hash()) {
            Some(index) => TableRef::new(self, index),
            None => None,
        }
    }

    pub fn lookup_file_path_mut<P: IntoHash>(&mut self, path: P) -> (r: Option<TableMut<'_, FilePath>>)
        requires
            old(self).wf(),
        ensures
            match r {
                Some(x) => old(self)@.find_file_path(path.hash_of()) == Some(x.index) && *x.archive
                    == *old(self) && *final(x.archive) == *final(self),
                None => old(self)@.find_file_path(path.hash_of()) is None && *final(self) == *old(self),
            },
    {
        match self.resource.file_path_lookup.get(path.into_hash()) {
            Some(index) => TableMut::new(self, index),
            None => None,
        }
    }

    pub fn lookup_stream_path<P: IntoHash>(&self, path: P) -> (r: Option<TableRef<'_, StreamPath>>)
        requires
            self.wf(),
        ensures
            match r {
                Some(x) => x.wf() && x.archive == self && self@.find_stream_path(path.hash_of()) == Some(
                    x.index,
                ),
                None => self@.find_stream_path(path.hash_of()) is None,
            },
    {
        match self.resource.stream_path_lookup.get(path.into_hash()) {
            Some(index) => TableRef::new(self, index),
            None => None,
        }
    }

    pub fn lookup_stream_path_mut<P: IntoHash>(&mut self, path: P) -> (r: Option<TableMut<'_, StreamPath>>)
        requires
            old(self).wf(),
        ensures
            match r {
                Some(x) => old(self)@.find_stream_path(path.hash_of()) == Some(x.index) && *x.archive
                    == *old(self) && *final(x.archive) == *final(self),
                None => old(self)@.find_stream_path(path.hash_of()) is None && *final(self) == *old(self),
            },
    {
        match self.resource.stream_path_lookup.get(path.into_hash()) {
            Some(index) => TableMut::new(self, index),
            None => None,
        }
    }

    pub fn lookup_file_package<P: IntoHash>(&self, path: P) -> (r: Option<TableRef<'_, FilePackage>>)
        requires
            self.wf(),
        ensures
            match r {
                Some(x) => x.wf() && x.archive == self && self@.find_file_package(path.hash_of()) == Some(
                    x.index,
                ),
                None => self@.find_file_package(path.hash_of()) is None,
            },
    {
        match self.resource.file_package_lookup.get(path.into_hash()) {
            Some(index) => TableRef::new(self, index),
            None => None,
        }
    }

    pub fn lookup_file_package_mut<P: IntoHash>(&mut self, path: P) -> (r: Option<TableMut<'_, FilePackage>>)
        requires
            old(self).wf(),
        ensures
            match r {
                Some(x) => old(self)@.find_file_package(path.hash_of()) == Some(x.index) && *x.archive
                    == *old(self) && *final(x.archive) == *final(self),
                None => old(self)@.find_file_package(path.hash_of()) is None && *final(self) == *old(self),
            },
    {
        match self.resource.file_package_lookup.get(path.into_hash()) {
            Some(index) => TableMut::new(self, index),
            None => None,
        }
    }

    pub fn lookup_search_folder<P: IntoHash>(&self, path: P) -> (r: Option<TableRef<'_, SearchFolder>>)
        requires
            self.wf(),
        ensures
            match r {
                Some(x) => x.wf() && x.archive == self && self@.find_search_folder(path.hash_of()) == Some(
                    x.index,
                ),
                None => self@.find_search_folder(path.hash_of()) is None,
            },
    {
        match self.search.search_folder_lookup.get(path.into_hash()) {
            Some(index) => TableRef::new(self, index),
            None => None,
        }
    }

    pub fn lookup_search_folder_mut<P: IntoHash>(&mut self, path: P) -> (r: Option<TableMut<'_, SearchFolder>>)
        requires
            old(self).wf(),
        ensures
            match r {
                Some(x) => old(self)@.find_search_folder(path.hash_of()) == Some(x.index) && *x.archive
                    == *old(self) && *final(x.archive) == *final(self),
                None => old(self)@.find_search_folder(path.hash_of()) is None && *final(self) == *old(self),
            },
    {
        match self.search.search_folder_lookup.get(path.into_hash()) {
            Some(index) => TableMut::new(self, index),
            None => None,
        }
    }

    /// Index of the search path with this hash.
    fn search_path_index(&self, hash: Hash40) -> (r: Option<u32>)
        requires
            self.wf(),
        ensures
            r == self@.find_search_path(hash),
    {
        match self.search.search_path_lookup.get(hash) {
            Some(i) => match self.read::<SearchPathLink>(i) {
                Some(link) => if link.is_invalid() {
                    None
                } else if self.search.search_path.contains(link.path_index()) {
                    Some(link.path_index())
                } else {
                    None
                },
                None => None,
            },
            None => None,
        }
    }

    pub fn lookup_search_path<P: IntoHash>(&self, path: P) -> (r: Option<TableRef<'_, SearchPath>>)
        requires
            self.wf(),
        ensures
            match r {
                Some(x) => x.wf() && x.archive == self && self@.find_search_path(path.hash_of())
                    == Some(x.index),
                None => self@.find_search_path(path.hash_of()) is None,
            },
    {
        match self.search_path_index(path.into_hash()) {
            Some(index) => TableRef::new(self, index),
            None => None,
        }
    }

    pub fn lookup_search_path_mut<P: IntoHash>(&mut self, path: P) -> (r: Option<
        TableMut<'_, SearchPath>,
    >)
        requires
            old(self).wf(),
        ensures
            match r {
                Some(x) => old(self)@.find_search_path(path.hash_of()) == Some(x.index) && *x.archive
                    == *old(self) && *final(x.archive) == *final(self),
                None => old(self)@.find_search_path(path.hash_of()) is None && *final(self) == *old(
                    self,
                ),
            },
    {
        match self.search_path_index(path.into_hash()) {
            Some(index) => TableMut::new(self, index),
            None => None,
        }
    }

    /// Adds a search path and returns the index of the link to it.
    pub fn insert_search_path(&mut self, path: SearchPath) -> (r: u32)
        requires
            old(self).wf(),
            old(self)@.can_insert_search_path(path),
        ensures
            final(self)@ == old(self)@.insert_search_path(path),
            final(self).wf(),
            r == count::<SearchPathLink>(old(self)@),
    {
        proof {
            law_lookup_put(
                self@.search.search_path_lookup,
                path.spec_path().0,
                count::<SearchPathLink>(self@) as u32,
                0,
            );
        }
        let index: u32 = self.push(path);
        let link_index: u32 = self.push(SearchPathLink::new(index));
        let _previous = self.search.search_path_lookup.insert(path.path(), link_index);
        link_index
    }

    pub fn insert_search_folder(&mut self, folder: SearchFolder) -> (r: u32)
        requires
            old(self).wf(),
            old(self)@.can_insert_search_folder(folder),
        ensures
            final(self)@ == old(self)@.insert_search_folder(folder),
            final(self).wf(),
            r == count::<SearchFolder>(old(self)@),
    {
        proof {
            law_lookup_put(
                self@.search.search_folder_lookup,
                folder.spec_path().0,
                count::<SearchFolder>(self@) as u32,
                0,
            );
        }
        let index: u32 = self.push(folder);
        let _previous = self.search.search_folder_lookup.insert(folder.path(), index);
        index
    }

    pub fn insert_file_path(&mut self, path: FilePath) -> (r: u32)
        requires
            old(self).wf(),
            old(self)@.can_insert_file_path(path),
        ensures
            final(self)@ == old(self)@.insert_file_path(path),
            final(self).wf(),
            r == count::<FilePath>(old(self)@),
    {
        proof {
            law_bucket_put(
                self@.resource.file_path_lookup,
                path.spec_path().0,
                count::<FilePath>(self@) as u32,
                0,
            );
        }
        let index: u32 = self.push(path);
        let _previous = self.resource.file_path_lookup.insert(path.path(), index);
        index
    }

    pub fn insert_file_package(&mut self, package: FilePackage) -> (r: u32)
        requires
            old(self).wf(),
            old(self)@.can_insert_file_package(package),
        ensures
            final(self)@ == old(self)@.insert_file_package(package),
            final(self).wf(),
            r == count::<FilePackage>(old(self)@),
    {
        proof {
            law_lookup_put(
                self@.resource.file_package_lookup,
                package.spec_path().0,
                count::<FilePackage>(self@) as u32,
                0,
            );
        }
        let index: u32 = self.push(package);
        let _previous = self.resource.file_package_lookup.insert(package.path(), index);
        index
    }

    /// Adds the folder, if it can be added, and returns its index.
    pub fn try_insert_search_folder(&mut self, folder: SearchFolder) -> (r: Option<u32>)
        requires
            old(self).wf(),
        ensures
            final(self).wf(),
            match r {
                Some(i) => old(self)@.can_insert_search_folder(folder) && final(self)@ == old(
                    self,
                )@.insert_search_folder(folder) && i == count::<SearchFolder>(old(self)@),
                None => !old(self)@.can_insert_search_folder(folder) && final(self)@ == old(self)@,
            },
    {
        if self.search.search_folder_lookup.contains_key(folder.path()) || self.num::<SearchFolder>() >= 0xFFFF_FFFF {
            None
        } else {
            Some(self.insert_search_folder(folder))
        }
    }

    /// Adds the path, if it can be added, and returns its index.
    pub fn try_insert_file_path(&mut self, path: FilePath) -> (r: Option<u32>)
        requires
            old(self).wf(),
        ensures
            final(self).wf(),
            match r {
                Some(i) => old(self)@.can_insert_file_path(path) && final(self)@ == old(
                    self,
                )@.insert_file_path(path) && i == count::<FilePath>(old(self)@),
                None => !old(self)@.can_insert_file_path(path) && final(self)@ == old(self)@,
            },
    {
        if self.resource.file_path_lookup.contains_key(path.path()) || self.num::<FilePath>() >= 0xFFFF_FFFF {
            None
        } else {
            Some(self.insert_file_path(path))
        }
    }

    /// Adds the package, if it can be added, and returns its index.
    pub fn try_insert_file_package(&mut self, package: FilePackage) -> (r: Option<u32>)
        requires
            old(self).wf(),
        ensures
            final(self).wf(),
            match r {
                Some(i) => old(self)@.can_insert_file_package(package) && final(self)@ == old(
                    self,
                )@.insert_file_package(package) && i == count::<FilePackage>(old(self)@),
                None => !old(self)@.can_insert_file_package(package) && final(self)@ == old(self)@,
            },
    {
        if self.resource.file_package_lookup.contains_key(package.path()) || self.num::<FilePackage>() >= 0xFFFF_FFFF {
            None
        } else {
            Some(self.insert_file_package(package))
        }
    }

    /// Adds the path, if it can be added, and returns its link's index.
    pub fn try_insert_search_path(&mut self, path: SearchPath) -> (r: Option<u32>)
        requires
            old(self).wf(),
        ensures
            final(self).wf(),
            match r {
                Some(i) => old(self)@.can_insert_search_path(path) && final(self)@ == old(
                    self,
                )@.insert_search_path(path) && i == count::<SearchPathLink>(old(self)@),
                None => !old(self)@.can_insert_search_path(path) && final(self)@ == old(self)@,
            },
    {
        if self.search.search_path_lookup.contains_key(path.path()) || self.num::<SearchPath>() >= 0xFFFF_FFFF || self.num::<SearchPathLink>() >= 0xFFFF_FFFF {
            None
        } else {
            Some(self.insert_search_path(path))
        }
    }
}

/// A file path that was added is found by its hash, and all that were found before still are.
pub proof fn law_insert_file_path(v: ArchiveView, path: FilePath, other: Hash40)
    requires
        v.wf(),
        v.can_insert_file_path(path),
    ensures
        v.insert_file_path(path).wf(),
        v.insert_file_path(path).find_file_path(path.spec_path()) == Some(
            count::<FilePath>(v) as u32,
        ),
        at::<FilePath>(v.insert_file_path(path), count::<FilePath>(v) as u32) == path,
        other != path.spec_path() && v.find_file_path(other) is Some ==> v.insert_file_path(
            path,
        ).find_file_path(other) == v.find_file_path(other),
        balanced(v) ==> balanced(v.insert_file_path(path)),
{
    law_bucket_put(
        v.resource.file_path_lookup,
        path.spec_path().0,
        count::<FilePath>(v) as u32,
        other.0,
    );
    law_stored(v, 0, path);
}

/// A package that was added is found by its hash, and all that were found before still are.
pub proof fn law_insert_file_package(v: ArchiveView, package: FilePackage, other: Hash40)
    requires
        v.wf(),
        v.can_insert_file_package(package),
    ensures
        v.insert_file_package(package).wf(),
        v.insert_file_package(package).find_file_package(package.spec_path()) == Some(
            count::<FilePackage>(v) as u32,
        ),
        at::<FilePackage>(v.insert_file_package(package), count::<FilePackage>(v) as u32)
            == package,
        other != package.spec_path() && v.find_file_package(other) is Some ==> v.insert_file_package(
            package,
        ).find_file_package(other) == v.find_file_package(other),
        balanced(v) ==> balanced(v.insert_file_package(package)),
{
    law_lookup_put(
        v.resource.file_package_lookup,
        package.spec_path().0,
        count::<FilePackage>(v) as u32,
        other.0,
    );
    law_stored(v, 0, package);
    lemma_put_len(
        v.resource.file_package_lookup,
        package.spec_path().0,
        count::<FilePackage>(v) as u32,
    );
}

/// A search folder that was added is found by its hash, and all that were found before still are.
pub proof fn law_insert_search_folder(v: ArchiveView, folder: SearchFolder, other: Hash40)
    requires
        v.wf(),
        v.can_insert_search_folder(folder),
    ensures
        v.insert_search_folder(folder).wf(),
        v.insert_search_folder(folder).find_search_folder(folder.spec_path()) == Some(
            count::<SearchFolder>(v) as u32,
        ),
        at::<SearchFolder>(v.insert_search_folder(folder), count::<SearchFolder>(v) as u32)
            == folder,
        other != folder.spec_path() && v.find_search_folder(other) is Some
            ==> v.insert_search_folder(folder).find_search_folder(other) == v.find_search_folder(
            other,
        ),
        balanced(v) ==> balanced(v.insert_search_folder(folder)),
{
    law_lookup_put(
        v.search.search_folder_lookup,
        folder.spec_path().0,
        count::<SearchFolder>(v) as u32,
        other.0,
    );
    law_stored(v, 0, folder);
    lemma_put_len(
        v.search.search_folder_lookup,
        folder.spec_path().0,
        count::<SearchFolder>(v) as u32,
    );
}

/// A search path that was added is found by its hash, and all that were found before still are.
pub proof fn law_insert_search_path(v: ArchiveView, path: SearchPath, other: Hash40)
    requires
        v.wf(),
        v.can_insert_search_path(path),
    ensures
        v.insert_search_path(path).wf(),
        v.insert_search_path(path).find_search_path(path.spec_path()) == Some(
            count::<SearchPath>(v) as u32,
        ),
        at::<SearchPath>(v.insert_search_path(path), count::<SearchPath>(v) as u32) == path,
        other != path.spec_path() && v.find_search_path(other) is Some ==> v.insert_search_path(
            path,
        ).find_search_path(other) == v.find_search_path(other),
        balanced(v) ==> balanced(v.insert_search_path(path)),
{
    law_lookup_put(
        v.search.search_path_lookup,
        path.spec_path().0,
        count::<SearchPathLink>(v) as u32,
        other.0,
    );
    law_stored(v, 0, path);
    lemma_put_len(
        v.search.search_path_lookup,
        path.spec_path().0,
        count::<SearchPathLink>(v) as u32,
    );
}

/// A new key makes a lookup longer by one.
proof fn lemma_put_len(v: crate::containers::LookupView, k: u64, index: u32)
    requires
        v.wf(),
        v.get(k) is None,
    ensures
        v.put(k, index).len() == v.len() + 1,
{
}

} // verus!
