//! The layout of a repository, and the objects that one snapshot of a
//! working tree is made of.

use vstd::prelude::*;
use vstd::utf8::encode_utf8;
use crate::blob::{blob_tag, Blob};
use crate::commit::{Commit, Contributor, Timestamp};
use crate::encoding::frame;
use crate::hash::sha1_digest;
use crate::object::Object;
use crate::tree::{models, Entry, EntryModel, Tree, REGULAR_FILE_MODE};

verus! {

/// The root of the repository where none is configured.
pub fn get_cwd() -> (path: String)
    ensures
        path@ == "test/repo"@,
{
    "test/repo".to_owned()
}

/// The directories of a new repository, below its root, parents first.
pub fn init_directories() -> (dirs: Vec<&'static str>)
    ensures
        dirs@.len() == 3,
        dirs@[0]@ == ".git"@,
        dirs@[1]@ == ".git/objects"@,
        dirs@[2]@ == ".git/refs"@,
{
    let mut dirs: Vec<&'static str> = Vec::new();
    dirs.push(".git");
    dirs.push(".git/objects");
    dirs.push(".git/refs");
    dirs
}

/// The directory of the object database, below the root of the repository.
pub fn objects_directory() -> (path: &'static str)
    ensures
        path@ == ".git/objects"@,
{
    ".git/objects"
}

/// The file that names the latest commit, below the root of the repository.
pub fn head_file() -> (path: &'static str)
    ensures
        path@ == ".git/HEAD"@,
{
    ".git/HEAD"
}

/// One file of the working tree: its path below the root, and its bytes.
pub struct WorkingFile {
    pub path: String,
    pub contents: Vec<u8>,
}

/// The entry that stands for one file: a regular file under its path, which
/// refers to the blob of its contents.
pub open spec fn file_entry(file: WorkingFile) -> EntryModel {
    EntryModel {
        mode: REGULAR_FILE_MODE,
        name: encode_utf8(file.path@),
        id: sha1_digest(frame(blob_tag(), file.contents@)),
    }
}

/// The entries that stand for the files of a working tree.
pub open spec fn file_entries(files: Seq<WorkingFile>) -> Seq<EntryModel> {
    files.map_values(|file: WorkingFile| file_entry(file))
}

/// The objects of one snapshot, in the order in which they are to be
/// written: the blobs, the tree that names them, the commit that names the
/// tree.
pub struct Snapshot {
    pub blobs: Vec<Blob>,
    pub tree: Tree,
    pub commit: Commit,
}

/// Builds the objects that record the given files as a root commit.
pub fn snapshot(
    files: &Vec<WorkingFile>,
    author: Contributor,
    authored_at: Timestamp,
    committer: Contributor,
    committed_at: Timestamp,
    message: String,
) -> (result: Snapshot)
    ensures
        result.blobs@.len() == files@.len(),
        forall|i: int|
            0 <= i < files@.len() ==> (#[trigger] result.blobs@[i]).contents@ == files@[i].contents@,
        result.tree.wf(),
        result.tree@.to_multiset() == file_entries(files@).to_multiset(),
        result.commit.tree_object_id@ == sha1_digest(frame(Tree::tag(), result.tree.payload())),
        result.commit.author == author,
        result.commit.authored_at == authored_at,
        result.commit.committer == committer,
        result.commit.committed_at == committed_at,
        result.commit.message == message,
{
    let mut blobs: Vec<Blob> = Vec::new();
    let mut entries: Vec<Entry> = Vec::new();
    let mut i: usize = 0;
    while i < files.len()
        invariant
            i <= files.len(),
            blobs@.len() == i,
            forall|k: int| 0 <= k < i ==> (#[trigger] blobs@[k]).contents@ == files@[k].contents@,
            models(entries@) == file_entries(files@.take(i as int)),
        decreases files.len() - i,
    {
        let file = &files[i];
        let blob = Blob::new(file.contents.as_slice());
        let entry = Entry::new(file.path.as_str(), blob.object_id());
        proof {
            assert(entry@ == file_entry(*file));
            assert(models(entries@.push(entry)) =~= models(entries@).push(entry@));
            assert(file_entries(files@.take(i + 1)) =~= file_entries(files@.take(i as int)).push(
                file_entry(files@[i as int]),
            ));
        }
        entries.push(entry);
        blobs.push(blob);
        i += 1;
    }
    assert(files@.take(i as int) =~= files@);
    let tree = Tree::new(entries);
    let tree_object_id = tree.object_id();
    let commit = Commit::new(author, authored_at, committer, committed_at, message, tree_object_id);
    Snapshot { blobs, tree, commit }
}

} // verus!
