use vstd::prelude::*;
use vstd::slice::slice_to_vec;
use vstd::string::StringExecFns;
use crate::errors::Error;

verus! {

/// What a path lookup yields in a journal of (path, contents) records:
/// the most recent record for the path wins, so a later write overwrites
/// an earlier one.
pub open spec fn file_lookup(s: Seq<(Seq<char>, Seq<u8>)>, path: Seq<char>) -> Option<Seq<u8>>
    decreases s.len(),
{
    if s.len() == 0 {
        None
    } else if s.last().0 == path {
        Some(s.last().1)
    } else {
        file_lookup(s.drop_last(), path)
    }
}

/// Whether a path stands among the directories created so far.
pub open spec fn dir_in(s: Seq<Seq<char>>, path: Seq<char>) -> bool {
    exists|i: int| 0 <= i < s.len() && s[i] == path
}

/// An in-memory directory tree: which directories exist, and the contents
/// of each file, keyed by full path text. The credential workflow is
/// verified against this tree; an unverified shell replays each operation
/// on the real filesystem. Paths are flat keys: the tree does not demand
/// that a file's parent directory exist.
pub struct FileTree {
    files: Vec<(String, Vec<u8>)>,
    dirs: Vec<String>,
}

impl FileTree {
    spec fn files_seq(&self) -> Seq<(Seq<char>, Seq<u8>)> {
        self.files@.map_values(|p: (String, Vec<u8>)| (p.0@, p.1@))
    }

    spec fn dirs_seq(&self) -> Seq<Seq<char>> {
        self.dirs@.map_values(|d: String| d@)
    }

    /// The contents of the file at `path`, if one has been written.
    pub closed spec fn file_at(&self, path: Seq<char>) -> Option<Seq<u8>> {
        file_lookup(self.files_seq(), path)
    }

    /// Whether `path` has been created as a directory.
    pub closed spec fn has_dir(&self, path: Seq<char>) -> bool {
        dir_in(self.dirs_seq(), path)
    }

    /// An empty tree: no files, no directories.
    pub fn new() -> (t: FileTree)
        ensures
            forall|k: Seq<char>| #[trigger] t.file_at(k) is None,
            forall|k: Seq<char>| !(#[trigger] t.has_dir(k)),
    {
        let t = FileTree { files: Vec::new(), dirs: Vec::new() };
        proof {
            assert(forall|k: Seq<char>| #[trigger] t.file_at(k) is None);
        }
        t
    }

    /// Whether a file exists at `path` (an exact match; never a prefix).
    pub fn is_file(&self, path: &str) -> (r: bool)
        ensures
            r == (self.file_at(path@) is Some),
    {
        let p = String::from_str(path);
        let n: usize = self.files.len();
        let mut i: usize = n;
        proof {
            assert(self.files_seq().take(n as int) =~= self.files_seq());
        }
        while i > 0
            invariant
                i <= n,
                n == self.files.len(),
                p@ == path@,
                file_lookup(self.files_seq(), path@) == file_lookup(
                    self.files_seq().take(i as int),
                    path@,
                ),
            decreases i,
        {
            proof {
                assert(self.files_seq().take(i as int).last() == self.files_seq()[i - 1]);
                assert(self.files_seq().take(i as int).drop_last() =~= self.files_seq().take(
                    i - 1,
                ));
            }
            if self.files[i - 1].0 == p {
                return true;
            }
            i = i - 1;
        }
        proof {
            assert(self.files_seq().take(0) =~= Seq::<(Seq<char>, Seq<u8>)>::empty());
        }
        false
    }

    /// The contents of the file at `path`, or an I/O failure when there is
    /// none.
    pub fn read_file(&self, path: &str) -> (r: Result<Vec<u8>, Error>)
        ensures
            (r is Ok) == (self.file_at(path@) is Some),
            r matches Ok(data) ==> self.file_at(path@) == Some(data@),
            r is Err ==> r == Err::<Vec<u8>, Error>(Error::IoError),
    {
        let p = String::from_str(path);
        let n: usize = self.files.len();
        let mut i: usize = n;
        proof {
            assert(self.files_seq().take(n as int) =~= self.files_seq());
        }
        while i > 0
            invariant
                i <= n,
                n == self.files.len(),
                p@ == path@,
                file_lookup(self.files_seq(), path@) == file_lookup(
                    self.files_seq().take(i as int),
                    path@,
                ),
            decreases i,
        {
            proof {
                assert(self.files_seq().take(i as int).last() == self.files_seq()[i - 1]);
                assert(self.files_seq().take(i as int).drop_last() =~= self.files_seq().take(
                    i - 1,
                ));
            }
            if self.files[i - 1].0 == p {
                return Ok(slice_to_vec(self.files[i - 1].1.as_slice()));
            }
            i = i - 1;
        }
        proof {
            assert(self.files_seq().take(0) =~= Seq::<(Seq<char>, Seq<u8>)>::empty());
        }
        Err(Error::IoError)
    }

    /// Writes `data` to the file at `path`, creating or overwriting it.
    pub fn write_file(&mut self, path: &str, data: Vec<u8>)
        ensures
            forall|k: Seq<char>| #[trigger]
                final(self).file_at(k) == (if k == path@ {
                    Some(data@)
                } else {
                    old(self).file_at(k)
                }),
            forall|k: Seq<char>| #[trigger] final(self).has_dir(k) == old(self).has_dir(k),
    {
        let ghost data_view = data@;
        self.files.push((String::from_str(path), data));
        proof {
            assert(self.files_seq() =~= old(self).files_seq().push((path@, data_view)));
            assert forall|k: Seq<char>| #[trigger]
                self.file_at(k) == (if k == path@ {
                    Some(data_view)
                } else {
                    old(self).file_at(k)
                }) by {
                assert(self.files_seq().drop_last() =~= old(self).files_seq());
            }
        }
    }

    /// Whether a directory exists at `path`.
    pub fn is_dir(&self, path: &str) -> (r: bool)
        ensures
            r == self.has_dir(path@),
    {
        let p = String::from_str(path);
        let n: usize = self.dirs.len();
        let mut i: usize = 0;
        while i < n
            invariant
                i <= n,
                n == self.dirs.len(),
                p@ == path@,
                forall|j: int| 0 <= j < i ==> self.dirs_seq()[j] != path@,
            decreases n - i,
        {
            if self.dirs[i] == p {
                proof {
                    assert(self.dirs_seq()[i as int] == path@);
                }
                return true;
            }
            i = i + 1;
        }
        false
    }

    /// Creates the directory at `path`; fails when it already exists, as
    /// directory creation does on a real filesystem, which is what makes an
    /// archive-snapshot collision detectable.
    pub fn create_dir(&mut self, path: &str) -> (r: Result<(), Error>)
        ensures
            (r is Ok) == !old(self).has_dir(path@),
            r is Err ==> r == Err::<(), Error>(Error::IoError) && *final(self) == *old(self),
            r is Ok ==> forall|k: Seq<char>| #[trigger]
                final(self).has_dir(k) == (k == path@ || old(self).has_dir(k)),
            forall|k: Seq<char>| #[trigger] final(self).file_at(k) == old(self).file_at(k),
    {
        if self.is_dir(path) {
            return Err(Error::IoError);
        }
        let ghost old_dirs = self.dirs_seq();
        self.dirs.push(String::from_str(path));
        proof {
            assert(self.dirs_seq() =~= old_dirs.push(path@));
            assert forall|k: Seq<char>| #[trigger]
                self.has_dir(k) == (k == path@ || old(self).has_dir(k)) by {
                if k == path@ {
                    assert(self.dirs_seq()[old_dirs.len() as int] == k);
                } else {
                    if self.has_dir(k) {
                        let i = choose|i: int|
                            0 <= i < self.dirs_seq().len() && self.dirs_seq()[i] == k;
                        assert(old_dirs[i] == k);
                    }
                    if old(self).has_dir(k) {
                        let i = choose|i: int| 0 <= i < old_dirs.len() && old_dirs[i] == k;
                        assert(self.dirs_seq()[i] == k);
                    }
                }
            }
        }
        Ok(())
    }

    /// Copies the file at `src` to `dst` verbatim, leaving the source in
    /// place; fails when there is no file at `src`.
    pub fn copy_file(&mut self, src: &str, dst: &str) -> (r: Result<(), Error>)
        ensures
            (r is Ok) == (old(self).file_at(src@) is Some),
            r is Err ==> r == Err::<(), Error>(Error::IoError) && *final(self) == *old(self),
            r is Ok ==> forall|k: Seq<char>| #[trigger]
                final(self).file_at(k) == (if k == dst@ {
                    old(self).file_at(src@)
                } else {
                    old(self).file_at(k)
                }),
            forall|k: Seq<char>| #[trigger] final(self).has_dir(k) == old(self).has_dir(k),
    {
        let data = match self.read_file(src) {
            Ok(data) => data,
            Err(e) => {
                return Err(e);
            },
        };
        self.write_file(dst, data);
        Ok(())
    }
}

/// Persisting then reloading round-trips: after a write of `data` at
/// `path` (stated here as `write_file`'s postcondition relating the two
/// trees), a read of `path` yields exactly `data`.
pub proof fn lemma_persist_reload(t0: FileTree, t1: FileTree, path: Seq<char>, data: Seq<u8>)
    requires
        forall|k: Seq<char>| #[trigger]
            t1.file_at(k) == (if k == path {
                Some(data)
            } else {
                t0.file_at(k)
            }),
    ensures
        t1.file_at(path) == Some(data),
{
    assert(t1.file_at(path) == Some(data));
}

} // verus!
