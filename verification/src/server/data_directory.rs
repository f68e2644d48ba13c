//! The directory that holds the store's data.

use vstd::prelude::*;
use vstd::string::*;

verus! {

/// Options of the database.
#[derive(Copy, Clone, Debug, PartialEq, Eq, Structural)]
pub struct DatabaseOptions {
    /// The number of connections that are kept open at most.
    pub connection_pool_size: usize,
}

impl DatabaseOptions {
    /// Whether there is a connection at all.
    pub open spec fn is_valid(self) -> bool {
        self.connection_pool_size > 0
    }

    /// Creates options with the given number of connections, or returns `None` if it is zero.
    pub fn new(connection_pool_size: usize) -> (r: Option<Self>)
        ensures
            r == (if connection_pool_size > 0 {
                Some(DatabaseOptions { connection_pool_size })
            } else {
                None
            }),
    {
        if connection_pool_size > 0 {
            Some(DatabaseOptions { connection_pool_size })
        } else {
            None
        }
    }
}

/// A path with the name of an entry of the directory: a separator comes between the two unless the
/// path ends with one or is empty.
pub open spec fn joined(path: Seq<char>, name: Seq<char>) -> Seq<char> {
    if path.len() == 0 || path.last() == '/' {
        path + name
    } else {
        path.push('/') + name
    }
}

fn join(path: &String, name: &str) -> (r: String)
    ensures
        r@ == joined(path@, name@),
{
    let len: usize = path.as_str().unicode_len();
    let mut entry = path.clone();
    if len > 0 && path.as_str().get_char(len - 1) != '/' {
        proof {
            reveal_strlit("/");
            assert(path@.push('/') =~= path@ + "/"@);
        }
        entry.append("/");
    }
    entry.append(name);
    entry
}

/// The path is not that of a directory.
#[derive(Copy, Clone, Debug, PartialEq, Eq, Structural)]
pub struct NotADirectory;

/// The paths of all parts of the store on disk.
#[derive(Clone, Debug, PartialEq, Eq)]
pub struct DiskPaths {
    pub sqlite_db: String,
    pub sqlite_wal: String,
    pub block_store: String,
    pub account_tree: String,
    pub nullifier_tree: String,
    pub account_state_forest: String,
}

/// The store's data directory and the paths of its content.
#[derive(Clone, Debug, PartialEq, Eq)]
pub struct DataDirectory(String);

impl View for DataDirectory {
    type V = Seq<char>;

    closed spec fn view(&self) -> Seq<char> {
        self.0@
    }
}

impl DataDirectory {
    /// Takes the path of a directory, given whether it is one.
    pub fn load(path: String, is_dir: bool) -> (r: Result<Self, NotADirectory>)
        ensures
            if is_dir {
                r matches Ok(directory) && directory@ == path@
            } else {
                r == Err::<DataDirectory, NotADirectory>(NotADirectory)
            },
    {
        if !is_dir {
            return Err(NotADirectory);
        }
        Ok(DataDirectory(path))
    }

    /// Returns the path of the directory that holds the blocks.
    pub fn block_store_dir(&self) -> (r: String)
        ensures
            r@ == joined(self@, "blocks"@),
    {
        join(&self.0, "blocks")
    }

    /// Returns the path of the database.
    pub fn database_path(&self) -> (r: String)
        ensures
            r@ == joined(self@, "miden-store.sqlite3"@),
    {
        join(&self.0, "miden-store.sqlite3")
    }

    /// Returns the path of the directory.
    pub fn display(&self) -> (r: String)
        ensures
            r@ == self@,
    {
        self.0.clone()
    }

    /// Returns the paths whose sizes make up the space that the store takes on disk.
    pub fn disk_paths(&self) -> (r: DiskPaths)
        ensures
            r.sqlite_db@ == joined(self@, "miden-store.sqlite3"@),
            r.sqlite_wal@ == joined(self@, "miden-store.sqlite3-wal"@),
            r.block_store@ == joined(self@, "blocks"@),
            r.account_tree@ == joined(self@, "accounttree"@),
            r.nullifier_tree@ == joined(self@, "nullifiertree"@),
            r.account_state_forest@ == joined(self@, "accountstateforest"@),
    {
        DiskPaths {
            sqlite_db: self.database_path(),
            sqlite_wal: join(&self.0, "miden-store.sqlite3-wal"),
            block_store: self.block_store_dir(),
            account_tree: join(&self.0, "accounttree"),
            nullifier_tree: join(&self.0, "nullifiertree"),
            account_state_forest: join(&self.0, "accountstateforest"),
        }
    }
}

/// The path of an entry is the path of its directory, a single separator and the name of the entry.
pub proof fn lemma_paths_of_entries(path: Seq<char>, name: Seq<char>)
    requires
        path.len() > 0,
    ensures
        joined(path, name).len() >= path.len() + name.len(),
        joined(path, name).take(path.len() as int) == path,
        joined(path, name).skip(joined(path, name).len() - name.len()) == name,
        path.last() == '/' <==> joined(path, name).len() == path.len() + name.len(),
        path.last() != '/' ==> joined(path, name).len() == path.len() + name.len() + 1 && joined(
            path,
            name,
        )[path.len() as int] == '/',
{
    assert(joined(path, name).take(path.len() as int) =~= path);
    assert(joined(path, name).skip(joined(path, name).len() - name.len()) =~= name);
}

} // verus!
