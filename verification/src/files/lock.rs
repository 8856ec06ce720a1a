//! The lock file: the persisted, append-only record of every commit this
//! tool has generated.

use vstd::prelude::*;

verus! {

/// One signed log entry together with its operation payload, as recorded in
/// the lock file. The entry and operation are hex encodings of the signed
/// bytes; the hash is the entry's content-derived identifier.
///
/// A commit is created once and never mutated; the lock file only ever
/// appends commits.
#[derive(Debug, PartialEq)]
pub struct Commit {
    /// Content hash of the signed entry.
    pub entry_hash: String,
    /// Hex-encoded signed entry.
    pub entry: String,
    /// Hex-encoded operation payload.
    pub operation: String,
}

/// The lock file: a format version and the ordered sequence of all commits
/// generated so far.
#[derive(Debug, Clone, PartialEq)]
pub struct LockFile {
    /// Format version of the lock file.
    pub version: u64,
    /// Every commit generated so far, oldest first.
    pub commits: Vec<Commit>,
}

impl Clone for Commit {
    fn clone(&self) -> (r: Self)
        ensures
            r == *self,
    {
        Commit {
            entry_hash: self.entry_hash.clone(),
            entry: self.entry.clone(),
            operation: self.operation.clone(),
        }
    }
}

impl Commit {
    /// Records one signed entry: its hash, the hex entry and the hex
    /// operation payload.
    pub fn new(entry_hash: &String, entry: &String, operation: &String) -> (r: Commit)
        ensures
            r.entry_hash@ == entry_hash@,
            r.entry@ == entry@,
            r.operation@ == operation@,
    {
        Commit {
            entry_hash: entry_hash.clone(),
            entry: entry.clone(),
            operation: operation.clone(),
        }
    }
}

impl LockFile {
    /// Wraps a commit sequence in the current lock file format.
    pub fn new(commits: Vec<Commit>) -> (r: LockFile)
        ensures
            r.version == 1u64,
            r.commits == commits,
    {
        LockFile { version: 1u64, commits }
    }
}

/// Appends newly produced commits strictly after all previously recorded
/// ones: the result holds the existing commits first, unchanged and in their
/// original order, then the new ones, and nothing else.
pub fn merge(existing: Vec<Commit>, new_commits: Vec<Commit>) -> (r: LockFile)
    ensures
        r.version == 1u64,
        r.commits@ == existing@ + new_commits@,
        r.commits@.len() == existing@.len() + new_commits@.len(),
        forall|i: int| 0 <= i < existing@.len() ==> r.commits@[i] == existing@[i],
{
    let mut commits = existing;
    let mut new_commits = new_commits;
    let ghost old_commits = commits@;
    let ghost added = new_commits@;
    commits.append(&mut new_commits);
    proof {
        assert(commits@ == old_commits + added);
    }
    LockFile::new(commits)
}

} // verus!
