//! The model of everything an upload leaves on disk: per upload id, the chunk
//! bytes received so far and the named entries (assembled files, or
//! directories that happen to occupy a name) of its directory.
use vstd::prelude::*;
use vstd::string::*;

use crate::tables::{ChunkTable, StrTable};

verus! {

/// Model of a named entry in an upload's directory.
pub enum EntryModel {
    File(Seq<u8>),
    Dir,
}

/// A named entry in an upload's directory: a regular file with its bytes, or
/// a directory occupying the name.
pub enum Entry {
    File(Vec<u8>),
    Dir,
}

impl View for Entry {
    type V = EntryModel;

    open spec fn view(&self) -> EntryModel {
        match self {
            Entry::File(b) => EntryModel::File(b@),
            Entry::Dir => EntryModel::Dir,
        }
    }
}

/// Model of one upload's directory.
pub struct DirModel {
    pub chunks: Map<int, Seq<u8>>,
    pub entries: Map<Seq<char>, EntryModel>,
}

/// The directory holding a fresh upload: nothing received, nothing assembled.
pub open spec fn empty_dir() -> DirModel {
    DirModel { chunks: Map::empty(), entries: Map::empty() }
}

/// One upload's directory: the chunk bytes keyed by index, and the named
/// entries beside them.
pub struct UploadDir {
    pub chunks: ChunkTable,
    pub entries: StrTable<Entry>,
}

impl View for UploadDir {
    type V = DirModel;

    open spec fn view(&self) -> DirModel {
        DirModel { chunks: self.chunks@, entries: self.entries@ }
    }
}

impl UploadDir {
    /// A fresh upload directory.
    pub fn new() -> (d: Self)
        ensures
            d@ == empty_dir(),
    {
        let d = UploadDir { chunks: ChunkTable::new(), entries: StrTable::new() };
        proof {
            assert(d@.chunks =~= empty_dir().chunks);
            assert(d@.entries =~= empty_dir().entries);
        }
        d
    }
}

/// The tree under the base upload directory: one directory per upload id.
pub struct Storage {
    uploads: StrTable<UploadDir>,
}

impl View for Storage {
    type V = Map<Seq<char>, DirModel>;

    closed spec fn view(&self) -> Map<Seq<char>, DirModel> {
        self.uploads@
    }
}

impl Storage {
    /// Empty storage: no upload has been seen.
    pub fn new() -> (s: Self)
        ensures
            s@ == Map::<Seq<char>, DirModel>::empty(),
    {
        Storage { uploads: StrTable::new() }
    }

    /// Detaches the directory for an upload id, creating a fresh one when the
    /// id has not been seen — as creating the directory on demand does.
    pub(crate) fn take_dir(&mut self, id: &String) -> (d: UploadDir)
        ensures
            final(self)@ == old(self)@.remove(id@),
            d@ == if old(self)@.contains_key(id@) {
                old(self)@[id@]
            } else {
                empty_dir()
            },
    {
        match self.uploads.take(id) {
            Some(d) => d,
            None => UploadDir::new(),
        }
    }

    /// Reattaches an upload's directory under its id.
    pub(crate) fn put_dir(&mut self, id: String, d: UploadDir)
        ensures
            final(self)@ == old(self)@.insert(id@, d@),
    {
        self.uploads.insert(id, d);
    }

    /// Whether any state exists for this upload id.
    pub fn upload_dir_exists(&self, id: &str) -> (r: bool)
        ensures
            r == self@.contains_key(id@),
    {
        let key = String::from_str(id);
        match self.uploads.get(&key) {
            Some(_) => true,
            None => false,
        }
    }

    /// The bytes currently stored for one chunk of one upload, if any.
    pub fn chunk_content(&self, id: &str, index: usize) -> (r: Option<&Vec<u8>>)
        ensures
            match r {
                Some(b) => self@.contains_key(id@) && self@[id@].chunks.contains_key(index as int)
                    && b@ == self@[id@].chunks[index as int],
                None => !self@.contains_key(id@) || !self@[id@].chunks.contains_key(index as int),
            },
    {
        let key = String::from_str(id);
        match self.uploads.get(&key) {
            Some(dir) => dir.chunks.get(index),
            None => None,
        }
    }

    /// Whether a chunk file exists for this upload id and index.
    pub fn has_chunk(&self, id: &str, index: usize) -> (r: bool)
        ensures
            r == (self@.contains_key(id@) && self@[id@].chunks.contains_key(index as int)),
    {
        let key = String::from_str(id);
        match self.uploads.get(&key) {
            Some(dir) => dir.chunks.contains(index),
            None => false,
        }
    }

    /// The bytes of the named file in an upload's directory, if the name holds
    /// a regular file.
    pub fn dest_file(&self, id: &str, name: &str) -> (r: Option<&Vec<u8>>)
        ensures
            match r {
                Some(b) => self@.contains_key(id@) && self@[id@].entries.contains_key(name@)
                    && self@[id@].entries[name@] == EntryModel::File(b@),
                None => !self@.contains_key(id@) || !self@[id@].entries.contains_key(name@)
                    || self@[id@].entries[name@] is Dir,
            },
    {
        let key = String::from_str(id);
        match self.uploads.get(&key) {
            Some(dir) => {
                let name_key = String::from_str(name);
                match dir.entries.get(&name_key) {
                    Some(entry) => match entry {
                        Entry::File(b) => Some(b),
                        Entry::Dir => None,
                    },
                    None => None,
                }
            },
            None => None,
        }
    }

    /// Puts a directory at the given name inside an upload's directory,
    /// creating the upload's directory if need be — the shape a colliding
    /// path takes when something else made a directory there.
    pub fn make_dir_entry(&mut self, id: &str, name: &str)
        ensures
            ({
                let prior = if old(self)@.contains_key(id@) {
                    old(self)@[id@]
                } else {
                    empty_dir()
                };
                final(self)@ == old(self)@.insert(
                    id@,
                    DirModel {
                        chunks: prior.chunks,
                        entries: prior.entries.insert(name@, EntryModel::Dir),
                    },
                )
            }),
    {
        let key = String::from_str(id);
        let mut dir = self.take_dir(&key);
        dir.entries.insert(String::from_str(name), Entry::Dir);
        self.uploads.insert(key, dir);
        proof {
            assert(self@ =~= old(self)@.insert(
                id@,
                DirModel {
                    chunks: if old(self)@.contains_key(id@) {
                        old(self)@[id@]
                    } else {
                        empty_dir()
                    }.chunks,
                    entries: if old(self)@.contains_key(id@) {
                        old(self)@[id@]
                    } else {
                        empty_dir()
                    }.entries.insert(name@, EntryModel::Dir),
                },
            ));
        }
    }
}

} // verus!
