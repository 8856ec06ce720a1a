use fishy::files::lock::{merge, Commit, LockFile};

fn commit(tag: &str) -> Commit {
    Commit {
        entry_hash: format!("hash_{tag}"),
        entry: format!("entry_{tag}"),
        operation: format!("operation_{tag}"),
    }
}

#[test]
fn merge_appends_new_commits_after_existing_ones() {
    let existing = vec![commit("a"), commit("b"), commit("c")];
    let new_commits = vec![commit("d"), commit("e")];
    let merged = merge(existing.clone(), new_commits.clone());
    assert_eq!(merged.version, 1);
    assert_eq!(merged.commits.len(), 5);
    assert_eq!(merged.commits[..3], existing[..]);
    assert_eq!(merged.commits[3..], new_commits[..]);
}

#[test]
fn merge_with_no_new_commits_keeps_the_file_as_it_was() {
    let existing = vec![commit("a"), commit("b")];
    let merged = merge(existing.clone(), Vec::new());
    assert_eq!(merged.commits, existing);
}

#[test]
fn lock_file_new_uses_format_version_one() {
    let lock = LockFile::new(Vec::new());
    assert_eq!(lock.version, 1);
    assert!(lock.commits.is_empty());
}
