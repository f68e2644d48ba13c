//! How much space the store takes on disk.

use vstd::prelude::*;

verus! {

/// The size of each part of the store on disk, in bytes.
#[derive(Clone, Copy, Debug, PartialEq, Eq, Structural)]
pub struct DiskUsage {
    pub sqlite_db: u64,
    pub sqlite_wal: u64,
    pub block_store: u64,
    pub account_tree: u64,
    pub nullifier_tree: u64,
    pub account_state_forest: u64,
}

/// An entry of a directory: a directory or a file with its size.
#[derive(Clone, Debug, PartialEq, Eq)]
pub enum DirEntry {
    Directory(String),
    File(u64),
}

/// The sizes of the files among entries.
pub open spec fn files_size(entries: Seq<DirEntry>) -> nat
    decreases entries.len(),
{
    if entries.len() == 0 {
        0
    } else {
        files_size(entries.drop_last()) + match entries.last() {
            DirEntry::Directory(_) => 0,
            DirEntry::File(len) => len as nat,
        }
    }
}

/// The directories among entries, in order.
pub open spec fn directories(entries: Seq<DirEntry>) -> Seq<String>
    decreases entries.len(),
{
    if entries.len() == 0 {
        Seq::empty()
    } else {
        match entries.last() {
            DirEntry::Directory(path) => directories(entries.drop_last()).push(path),
            DirEntry::File(_) => directories(entries.drop_last()),
        }
    }
}

proof fn lemma_files_size_prefix(entries: Seq<DirEntry>, count: int)
    requires
        0 <= count <= entries.len(),
    ensures
        files_size(entries.take(count)) <= files_size(entries),
    decreases entries.len() - count,
{
    if count < entries.len() {
        assert(entries.take(count + 1).drop_last() =~= entries.take(count));
        lemma_files_size_prefix(entries, count + 1);
    } else {
        assert(entries.take(count) =~= entries);
    }
}

/// A walk through a directory: the directories that are still to be read, the size of the files that
/// were found, and whether something could not be read.
#[derive(Clone, Debug, PartialEq, Eq)]
pub struct DirectoryWalk {
    pub to_process: Vec<String>,
    pub total: u64,
    pub failed: bool,
}

impl DirectoryWalk {
    /// Starts a walk through a directory.
    pub fn new(path: String) -> (r: Self)
        ensures
            r.to_process@ == seq![path],
            r.total == 0,
            !r.failed,
    {
        let mut to_process: Vec<String> = Vec::new();
        to_process.push(path);
        DirectoryWalk { to_process, total: 0, failed: false }
    }

    /// Returns the next directory to read, or `None` at the end of the walk.
    pub fn next_directory(&mut self) -> (r: Option<String>)
        ensures
            final(self).total == old(self).total,
            final(self).failed == old(self).failed,
            match r {
                None => old(self).to_process@.len() == 0 && final(self).to_process@ == old(
                    self,
                ).to_process@,
                Some(path) => old(self).to_process@.len() > 0 && path == old(
                    self,
                ).to_process@.last() && final(self).to_process@ == old(
                    self,
                ).to_process@.drop_last(),
            },
    {
        self.to_process.pop()
    }

    /// Adds the entries of a directory that was read, or `None` if it or one of its entries could
    /// not be read. The walk then ends: it has failed. So it has if the sizes exceed what can be
    /// counted.
    pub fn add_listing(&mut self, listing: Option<Vec<DirEntry>>)
        ensures
            final(self).failed <==> old(self).failed || listing is None || old(self).total
                + files_size(listing->0@) > u64::MAX,
            final(self).failed ==> final(self).to_process@.len() == 0,
            !final(self).failed ==> final(self).total == old(self).total + files_size(listing->0@)
                && final(self).to_process@ == old(self).to_process@ + directories(listing->0@),
    {
        let entries = match listing {
            Some(entries) if !self.failed => entries,
            _ => {
                self.fail();
                return;
            },
        };
        let ghost all = entries@;
        let ghost start = self.to_process@;
        let ghost start_total = self.total;
        let count: usize = entries.len();
        for entry in it: entries
            invariant
                it.seq() == all,
                count == all.len(),
                listing matches Some(found) && found@ == all,
                !old(self).failed,
                !self.failed,
                start == old(self).to_process@,
                start_total == old(self).total,
                self.total == start_total + files_size(all.take(it.index() as int)),
                self.to_process@ =~= start + directories(all.take(it.index() as int)),
        {
            proof {
                let i = it.index() as int;
                assert(all.take(i + 1).drop_last() =~= all.take(i));
                assert(all.take(i + 1).last() == entry);
                lemma_files_size_prefix(all, i + 1);
            }
            match entry {
                DirEntry::Directory(path) => self.to_process.push(path),
                DirEntry::File(len) => {
                    match self.total.checked_add(len) {
                        Some(total) => {
                            self.total = total;
                        },
                        None => {
                            self.fail();
                            return;
                        },
                    }
                },
            }
        }
        assert(all.take(count as int) =~= all);
    }

    fn fail(&mut self)
        ensures
            final(self).failed,
            final(self).to_process@.len() == 0,
    {
        self.failed = true;
        self.to_process = Vec::new();
    }

    /// Returns the size of all files, or 0 if something could not be read.
    pub fn size(&self) -> (r: u64)
        ensures
            r == (if self.failed {
                0
            } else {
                self.total
            }),
    {
        if self.failed {
            0
        } else {
            self.total
        }
    }
}

/// The entries of a directory count one by one: each file by its size, and each directory is read later.
pub proof fn lemma_every_entry_counts(entries: Seq<DirEntry>)
    ensures
        forall|i: int|
            0 <= i < entries.len() && (#[trigger] entries[i]) is File ==> files_size(entries)
                >= entries[i]->File_0,
        forall|i: int|
            0 <= i < entries.len() && (#[trigger] entries[i]) is Directory ==> directories(
                entries,
            ).contains(entries[i]->Directory_0),
        forall|size: u64| #[trigger]
            files_size(entries.push(DirEntry::File(size))) == files_size(entries) + size,
        forall|path: String| #[trigger]
            files_size(entries.push(DirEntry::Directory(path))) == files_size(entries),
        forall|path: String| #[trigger]
            directories(entries).contains(path) ==> entries.contains(DirEntry::Directory(path)),
    decreases entries.len(),
{
    assert forall|size: u64| #[trigger]
        files_size(entries.push(DirEntry::File(size))) == files_size(entries) + size by {
        assert(entries.push(DirEntry::File(size)).drop_last() =~= entries);
    }
    assert forall|path: String| #[trigger]
        files_size(entries.push(DirEntry::Directory(path))) == files_size(entries) by {
        assert(entries.push(DirEntry::Directory(path)).drop_last() =~= entries);
    }
    if entries.len() > 0 {
        let before = entries.drop_last();
        let last = entries.len() - 1;
        lemma_every_entry_counts(before);
        assert forall|i: int|
            0 <= i < entries.len() && (#[trigger] entries[i]) is File implies files_size(entries)
            >= entries[i]->File_0 by {
            if i < last {
                assert(before[i] == entries[i]);
            }
        }
        assert forall|i: int|
            0 <= i < entries.len() && (#[trigger] entries[i]) is Directory implies directories(
            entries,
        ).contains(entries[i]->Directory_0) by {
            if i < last {
                assert(before[i] == entries[i]);
                let path = entries[i]->Directory_0;
                let k = choose|k: int|
                    0 <= k < directories(before).len() && directories(before)[k] == path;
                assert(directories(entries)[k] == path);
            } else {
                assert(directories(entries)[directories(before).len() as int]
                    == entries[i]->Directory_0);
            }
        }
        assert forall|path: String| #[trigger]
            directories(entries).contains(path) implies entries.contains(
            DirEntry::Directory(path),
        ) by {
            if directories(before).contains(path) {
                let i = choose|i: int|
                    0 <= i < before.len() && before[i] == DirEntry::Directory(path);
                assert(entries[i] == DirEntry::Directory(path));
            } else {
                let k = choose|k: int|
                    0 <= k < directories(entries).len() && directories(entries)[k] == path;
                if k < directories(before).len() {
                    assert(directories(before)[k] == path);
                }
                assert(entries[last] == DirEntry::Directory(path));
            }
        }
    }
}

} // verus!
