//! The source-control panel: which files are changed, staged or not.
use vstd::prelude::*;
use std::path::PathBuf;

verus! {

#[derive(Debug, Clone, Copy, PartialEq, Eq, Structural)]
pub enum FileStatus {
    Modified,
    Added,
    Deleted,
    Untracked,
    Renamed,
    Ignored,
    Conflicted,
    Unknown,
}

#[derive(Debug, Clone)]
pub struct GitFile {
    pub path: String,
    pub status: FileStatus,
    pub staged: bool,
}

pub struct GitPanel {
    pub repo_path: Option<PathBuf>,
    pub files: Vec<GitFile>,
}

/// The status bits libgit2 reports for a file (`git_status_t`).
pub const INDEX_NEW: u32 = 1;
pub const INDEX_MODIFIED: u32 = 2;
pub const INDEX_DELETED: u32 = 4;
pub const INDEX_RENAMED: u32 = 8;
pub const INDEX_TYPECHANGE: u32 = 16;
pub const WT_NEW: u32 = 128;
pub const WT_MODIFIED: u32 = 256;
pub const WT_DELETED: u32 = 512;
pub const WT_RENAMED: u32 = 2048;
pub const CONFLICTED: u32 = 32768;

pub open spec fn has(bits: u32, flag: u32) -> bool {
    bits & flag != 0
}

/// The staged change a file's bits describe, if any: new, deleted,
/// renamed, or else modified (a content or type change).
pub open spec fn staged_status(bits: u32) -> Option<FileStatus> {
    if has(bits, INDEX_NEW) || has(bits, INDEX_MODIFIED) || has(bits, INDEX_DELETED) || has(
        bits,
        INDEX_RENAMED,
    ) || has(bits, INDEX_TYPECHANGE) {
        Some(
            if has(bits, INDEX_NEW) {
                FileStatus::Added
            } else if has(bits, INDEX_DELETED) {
                FileStatus::Deleted
            } else if has(bits, INDEX_RENAMED) {
                FileStatus::Renamed
            } else {
                FileStatus::Modified
            },
        )
    } else {
        None
    }
}

/// The unstaged change a file's bits describe, if any, the first that
/// applies of: untracked, modified, deleted, renamed, conflicted.
pub open spec fn unstaged_status(bits: u32) -> Option<FileStatus> {
    if has(bits, WT_NEW) {
        Some(FileStatus::Untracked)
    } else if has(bits, WT_MODIFIED) {
        Some(FileStatus::Modified)
    } else if has(bits, WT_DELETED) {
        Some(FileStatus::Deleted)
    } else if has(bits, WT_RENAMED) {
        Some(FileStatus::Renamed)
    } else if has(bits, CONFLICTED) {
        Some(FileStatus::Conflicted)
    } else {
        None
    }
}

pub type GitFileView = (Seq<char>, FileStatus, bool);

/// The panel rows for one file: its staged change, then its unstaged one.
pub open spec fn entry_rows(path: Seq<char>, bits: u32) -> Seq<GitFileView> {
    let staged = match staged_status(bits) {
        Some(s) => seq![(path, s, true)],
        None => Seq::empty(),
    };
    let unstaged = match unstaged_status(bits) {
        Some(s) => seq![(path, s, false)],
        None => Seq::empty(),
    };
    staged + unstaged
}

pub open spec fn entries_rows(entries: Seq<(String, u32)>, n: int) -> Seq<GitFileView>
    decreases n,
{
    if n <= 0 {
        Seq::empty()
    } else {
        entries_rows(entries, n - 1) + entry_rows(entries[n - 1].0@, entries[n - 1].1)
    }
}

pub open spec fn files_view(v: Seq<GitFile>) -> Seq<GitFileView> {
    v.map_values(|f: GitFile| (f.path@, f.status, f.staged))
}

fn staged_of(bits: u32) -> (r: Option<FileStatus>)
    ensures
        r == staged_status(bits),
{
    if bits & INDEX_NEW != 0 || bits & INDEX_MODIFIED != 0 || bits & INDEX_DELETED != 0 || bits
        & INDEX_RENAMED != 0 || bits & INDEX_TYPECHANGE != 0 {
        Some(
            if bits & INDEX_NEW != 0 {
                FileStatus::Added
            } else if bits & INDEX_DELETED != 0 {
                FileStatus::Deleted
            } else if bits & INDEX_RENAMED != 0 {
                FileStatus::Renamed
            } else {
                FileStatus::Modified
            },
        )
    } else {
        None
    }
}

fn unstaged_of(bits: u32) -> (r: Option<FileStatus>)
    ensures
        r == unstaged_status(bits),
{
    if bits & WT_NEW != 0 {
        Some(FileStatus::Untracked)
    } else if bits & WT_MODIFIED != 0 {
        Some(FileStatus::Modified)
    } else if bits & WT_DELETED != 0 {
        Some(FileStatus::Deleted)
    } else if bits & WT_RENAMED != 0 {
        Some(FileStatus::Renamed)
    } else if bits & CONFLICTED != 0 {
        Some(FileStatus::Conflicted)
    } else {
        None
    }
}

impl GitPanel {
    pub fn new() -> (r: Self)
        ensures
            r.repo_path is None,
            r.files@.len() == 0,
    {
        GitPanel { repo_path: None, files: Vec::new() }
    }

    /// Replaces the rows with those of the repository's status entries
    /// (each a path and its status bits), in order.
    pub fn refresh_from(&mut self, repo_path: PathBuf, entries: &Vec<(String, u32)>)
        ensures
            final(self).repo_path == Some(repo_path),
            files_view(final(self).files@) == entries_rows(entries@, entries@.len() as int),
    {
        self.repo_path = Some(repo_path);
        let mut files: Vec<GitFile> = Vec::new();
        let mut i: usize = 0;
        while i < entries.len()
            invariant
                i <= entries@.len(),
                files_view(files@) == entries_rows(entries@, i as int),
            decreases entries@.len() - i,
        {
            let (path, bits) = (&entries[i].0, entries[i].1);
            let ghost before = files_view(files@);
            match staged_of(bits) {
                Some(s) => {
                    files.push(GitFile { path: path.clone(), status: s, staged: true });
                },
                None => {},
            }
            match unstaged_of(bits) {
                Some(s) => {
                    files.push(GitFile { path: path.clone(), status: s, staged: false });
                },
                None => {},
            }
            assert(files_view(files@) =~= before + entry_rows(path@, bits));
            i = i + 1;
        }
        self.files = files;
    }
}

impl Default for GitPanel {
    fn default() -> (r: Self)
        ensures
            r.repo_path is None,
            r.files@.len() == 0,
    {
        GitPanel::new()
    }
}

/// A file gets at most one staged and at most one unstaged row, staged
/// first.
pub proof fn law_at_most_two_rows(path: Seq<char>, bits: u32)
    ensures
        entry_rows(path, bits).len() <= 2,
        forall|i: int| 0 <= i < entry_rows(path, bits).len() ==> #[trigger] entry_rows(path, bits)[i].0 == path,
        entry_rows(path, bits).len() == 2 ==> entry_rows(path, bits)[0].2 && !entry_rows(path, bits)[1].2,
{
}

} // verus!
