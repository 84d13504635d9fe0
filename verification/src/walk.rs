//! Walking the tree: enumerate regular files, pruning excluded
//! subtrees.
//!
//! An excluded node is never entered: a directory in the exclusion set
//! contributes nothing to the result and none of its children is ever
//! listed, which `reads_node` (the directories whose entries get
//! listed) makes precise.

use vstd::prelude::*;
use crate::fs_model::{FileData, FsNode};
use crate::path::{FsPath, exclusions_view, is_excluded, should_ignore};

verus! {

/// One regular file the walk found: its full path and what its two
/// reads would yield.
pub struct FoundFile {
    pub path: Seq<Seq<char>>,
    pub meta: Result<Option<u64>, Seq<char>>,
    pub content: Result<Seq<u8>, Seq<char>>,
}

/// The regular files found in the subtree `n` standing at path `at`,
/// in traversal order. An excluded node yields nothing.
pub open spec fn walk_node(n: FsNode, at: Seq<Seq<char>>, excl: Seq<Seq<Seq<char>>>) -> Seq<
    FoundFile,
>
    decreases n, 0int,
{
    if is_excluded(at, excl) {
        Seq::empty()
    } else {
        match n {
            FsNode::File { data, .. } => seq![
                FoundFile { path: at, meta: data.meta_view(), content: data.content_view() },
            ],
            FsNode::Dir { entries, .. } => walk_entries(
                entries@,
                entries@.len() as int,
                at,
                excl,
            ),
            _ => Seq::empty(),
        }
    }
}

/// The regular files found under the first `k` children of a directory
/// standing at path `at`.
pub open spec fn walk_entries(
    es: Seq<FsNode>,
    k: int,
    at: Seq<Seq<char>>,
    excl: Seq<Seq<Seq<char>>>,
) -> Seq<FoundFile>
    decreases es, k,
{
    if k <= 0 || k > es.len() {
        Seq::empty()
    } else {
        walk_entries(es, k - 1, at, excl) + walk_node(
            es[k - 1],
            at.push(es[k - 1].name_view()),
            excl,
        )
    }
}

/// The directories whose entries the walk lists: every non-excluded
/// directory reached, and nothing else. Nothing below an excluded
/// directory is ever read.
pub open spec fn reads_node(n: FsNode, at: Seq<Seq<char>>, excl: Seq<Seq<Seq<char>>>) -> Seq<
    Seq<Seq<char>>,
>
    decreases n, 0int,
{
    if is_excluded(at, excl) {
        Seq::empty()
    } else {
        match n {
            FsNode::Dir { entries, .. } => seq![at] + reads_entries(
                entries@,
                entries@.len() as int,
                at,
                excl,
            ),
            _ => Seq::empty(),
        }
    }
}

/// The directories listed under the first `k` children.
pub open spec fn reads_entries(
    es: Seq<FsNode>,
    k: int,
    at: Seq<Seq<char>>,
    excl: Seq<Seq<Seq<char>>>,
) -> Seq<Seq<Seq<char>>>
    decreases es, k,
{
    if k <= 0 || k > es.len() {
        Seq::empty()
    } else {
        reads_entries(es, k - 1, at, excl) + reads_node(
            es[k - 1],
            at.push(es[k - 1].name_view()),
            excl,
        )
    }
}

/// A discovered regular file, handed from the walk to the pipeline.
pub struct FileEntry {
    pub path: FsPath,
    pub data: FileData,
}

impl FileEntry {
    /// The entry, viewed as what the walk specifies.
    pub open spec fn found(&self) -> FoundFile {
        FoundFile {
            path: self.path@,
            meta: self.data.meta_view(),
            content: self.data.content_view(),
        }
    }
}

impl Clone for FileData {
    fn clone(&self) -> (r: Self)
        ensures
            r.meta_view() == self.meta_view(),
            r.content_view() == self.content_view(),
    {
        let meta: Result<Option<u64>, String> = match &self.meta {
            Ok(m) => Ok(*m),
            Err(cause) => Err(cause.clone()),
        };
        let content: Result<Vec<u8>, String> = match &self.content {
            Ok(bytes) => {
                let b = bytes.clone();
                proof {
                    assert(b@ =~= bytes@);
                }
                Ok(b)
            },
            Err(cause) => Err(cause.clone()),
        };
        FileData { meta, content }
    }
}

/// The found-file views of a run's entries.
pub open spec fn entries_found(s: Seq<FileEntry>) -> Seq<FoundFile> {
    s.map_values(|e: FileEntry| e.found())
}

/// The component views of a sequence of paths.
pub open spec fn paths_view(s: Seq<FsPath>) -> Seq<Seq<Seq<char>>> {
    s.map_values(|p: FsPath| p@)
}

/// Walk the subtree `n` standing at path `at`, appending every regular
/// file found to `out` and every directory whose entries are listed to
/// `reads`. Excluded subtrees are pruned: not entered, not read.
#[verifier::loop_isolation(false)]
pub fn walk_into(
    n: &FsNode,
    at: &FsPath,
    exclusions: &Vec<FsPath>,
    out: &mut Vec<FileEntry>,
    reads: &mut Vec<FsPath>,
)
    ensures
        entries_found(final(out)@) == entries_found(old(out)@) + walk_node(
            *n,
            at@,
            exclusions_view(exclusions@),
        ),
        paths_view(final(reads)@) == paths_view(old(reads)@) + reads_node(
            *n,
            at@,
            exclusions_view(exclusions@),
        ),
    decreases n.depth(),
{
    let ghost excl = exclusions_view(exclusions@);
    if should_ignore(at, exclusions) {
        proof {
            assert(entries_found(out@) =~= entries_found(out@) + walk_node(*n, at@, excl));
            assert(paths_view(reads@) =~= paths_view(reads@) + reads_node(*n, at@, excl));
        }
        return ;
    }
    match n {
        FsNode::File { data, .. } => {
            let entry = FileEntry { path: at.clone(), data: data.clone() };
            proof {
                assert(entry.found() == walk_node(*n, at@, excl)[0]);
            }
            out.push(entry);
            proof {
                assert(entries_found(out@) =~= entries_found(old(out)@) + walk_node(
                    *n,
                    at@,
                    excl,
                ));
                assert(paths_view(reads@) =~= paths_view(old(reads)@) + reads_node(*n, at@, excl));
            }
        },
        FsNode::Dir { entries, .. } => {
            let ghost out0 = out@;
            let ghost reads0 = reads@;
            reads.push(at.clone());
            proof {
                assert(paths_view(reads@) =~= paths_view(reads0).push(at@));
            }
            let m = entries.len();
            for j in 0..m
                invariant
                    m == entries.len(),
                    excl == exclusions_view(exclusions@),
                    !is_excluded(at@, excl),
                    entries_found(out@) == entries_found(out0) + walk_entries(
                        entries@,
                        j as int,
                        at@,
                        excl,
                    ),
                    paths_view(reads@) == paths_view(reads0).push(at@) + reads_entries(
                        entries@,
                        j as int,
                        at@,
                        excl,
                    ),
            {
                let child = &entries[j];
                proof {
                    FsNode::lemma_forest_depth_bound(entries@, j as int, entries@.len() as int);
                    assert(child.depth() < n.depth());
                }
                let child_at = at.child(child.name());
                walk_into(child, &child_at, exclusions, out, reads);
                proof {
                    assert(child_at@ == at@.push(entries@[j as int].name_view()));
                    assert(entries_found(out@) =~= entries_found(out0) + walk_entries(
                        entries@,
                        j + 1,
                        at@,
                        excl,
                    ));
                    assert(paths_view(reads@) =~= paths_view(reads0).push(at@) + reads_entries(
                        entries@,
                        j + 1,
                        at@,
                        excl,
                    ));
                }
            }
            proof {
                assert(entries_found(out@) =~= entries_found(out0) + walk_node(*n, at@, excl));
                assert(paths_view(reads@) =~= paths_view(reads0) + reads_node(*n, at@, excl));
            }
        },
        FsNode::Other { .. } => {
            proof {
                assert(entries_found(out@) =~= entries_found(old(out)@) + walk_node(*n, at@, excl));
                assert(paths_view(reads@) =~= paths_view(old(reads)@) + reads_node(*n, at@, excl));
            }
        },
        FsNode::Unreadable { .. } => {
            proof {
                assert(entries_found(out@) =~= entries_found(old(out)@) + walk_node(*n, at@, excl));
                assert(paths_view(reads@) =~= paths_view(old(reads)@) + reads_node(*n, at@, excl));
            }
        },
    }
}

/// Walk the tree rooted at `root`, standing at path `root_path`.
/// Returns the regular files found and the directories read, in
/// traversal order.
pub fn walk(root: &FsNode, root_path: &FsPath, exclusions: &Vec<FsPath>) -> (r: (
    Vec<FileEntry>,
    Vec<FsPath>,
))
    ensures
        entries_found(r.0@) == walk_node(*root, root_path@, exclusions_view(exclusions@)),
        paths_view(r.1@) == reads_node(*root, root_path@, exclusions_view(exclusions@)),
{
    let mut out: Vec<FileEntry> = Vec::new();
    let mut reads: Vec<FsPath> = Vec::new();
    proof {
        assert(entries_found(out@) =~= Seq::<FoundFile>::empty());
        assert(paths_view(reads@) =~= Seq::<Seq<Seq<char>>>::empty());
    }
    walk_into(root, root_path, exclusions, &mut out, &mut reads);
    proof {
        assert(entries_found(out@) =~= walk_node(*root, root_path@, exclusions_view(exclusions@)));
        assert(paths_view(reads@) =~= reads_node(*root, root_path@, exclusions_view(exclusions@)));
    }
    (out, reads)
}

} // verus!
