//! A model of the directory tree a run works on.
//!
//! The driver that owns the real filesystem hands the library plain
//! values; this model captures everything the run's logic reads of a
//! tree: each node's name and kind, and per regular file what the two
//! reads (metadata, content) would yield.

use vstd::prelude::*;

verus! {

/// What reading one regular file yields.
pub struct FileData {
    /// The metadata read: the modification time in seconds since the
    /// epoch (`None` when the recorded time predates the epoch), or the
    /// failure cause.
    pub meta: Result<Option<u64>, String>,
    /// The content read: the file's bytes, or the failure cause.
    pub content: Result<Vec<u8>, String>,
}

impl FileData {
    /// The metadata read, cause viewed as characters.
    pub open spec fn meta_view(&self) -> Result<Option<u64>, Seq<char>> {
        match self.meta {
            Ok(m) => Ok(m),
            Err(ref cause) => Err(cause@),
        }
    }

    /// The content read, bytes and cause viewed as sequences.
    pub open spec fn content_view(&self) -> Result<Seq<u8>, Seq<char>> {
        match self.content {
            Ok(ref bytes) => Ok(bytes@),
            Err(ref cause) => Err(cause@),
        }
    }
}

/// One node of the tree.
pub enum FsNode {
    /// A regular file: the only kind that is ever reported.
    File { name: String, data: FileData },
    /// A directory, traversed through unless excluded.
    Dir { name: String, entries: Vec<FsNode> },
    /// A node of any other type (symlink, socket, device): silently
    /// dropped by the traversal.
    Other { name: String },
    /// A node the traversal cannot read: silently omitted, never fatal.
    Unreadable { name: String },
}

impl FsNode {
    /// The node's name as a component.
    pub open spec fn name_view(&self) -> Seq<char> {
        match self {
            FsNode::File { name, .. } => name@,
            FsNode::Dir { name, .. } => name@,
            FsNode::Other { name } => name@,
            FsNode::Unreadable { name } => name@,
        }
    }

    /// The node's name, for building a child's path.
    pub fn name(&self) -> (r: &String)
        ensures
            r@ == self.name_view(),
    {
        match self {
            FsNode::File { name, .. } => name,
            FsNode::Dir { name, .. } => name,
            FsNode::Other { name } => name,
            FsNode::Unreadable { name } => name,
        }
    }

    /// How many regular files the subtree holds, exclusions aside.
    pub open spec fn file_count(self) -> nat
        decreases self, 0int,
    {
        match self {
            FsNode::File { .. } => 1,
            FsNode::Dir { entries, .. } => FsNode::forest_file_count(
                entries@,
                entries@.len() as int,
            ),
            FsNode::Other { .. } => 0,
            FsNode::Unreadable { .. } => 0,
        }
    }

    /// Regular files among the first `k` children.
    pub open spec fn forest_file_count(es: Seq<FsNode>, k: int) -> nat
        decreases es, k,
    {
        if k <= 0 || k > es.len() {
            0
        } else {
            FsNode::forest_file_count(es, k - 1) + es[k - 1].file_count()
        }
    }

    /// The subtree's depth: how many directory levels it nests. The
    /// walk recurses on children, and a child's depth is strictly
    /// smaller, which is what terminates the walk.
    pub open spec fn depth(self) -> nat
        decreases self, 0int,
    {
        match self {
            FsNode::Dir { entries, .. } => 1 + FsNode::forest_depth(
                entries@,
                entries@.len() as int,
            ),
            _ => 0,
        }
    }

    /// The largest depth among the first `k` children.
    pub open spec fn forest_depth(es: Seq<FsNode>, k: int) -> nat
        decreases es, k,
    {
        if k <= 0 || k > es.len() {
            0
        } else {
            let d = es[k - 1].depth();
            let r = FsNode::forest_depth(es, k - 1);
            if d > r {
                d
            } else {
                r
            }
        }
    }

    /// Each child's depth is bounded by the forest depth over it.
    pub proof fn lemma_forest_depth_bound(es: Seq<FsNode>, j: int, k: int)
        requires
            0 <= j < k <= es.len(),
        ensures
            es[j].depth() <= FsNode::forest_depth(es, k),
        decreases k,
    {
        if j < k - 1 {
            FsNode::lemma_forest_depth_bound(es, j, k - 1);
        }
    }

    /// Whether the tree `self`, standing at path `at`, holds a regular
    /// file at path `p`. Only `File` nodes count: a directory, or a
    /// node of any other type, is at no path a regular file.
    pub open spec fn has_file_at(self, at: Seq<Seq<char>>, p: Seq<Seq<char>>) -> bool
        decreases self, 0int,
    {
        match self {
            FsNode::File { .. } => p == at,
            FsNode::Dir { entries, .. } => FsNode::forest_has_file_at(
                entries@,
                entries@.len() as int,
                at,
                p,
            ),
            _ => false,
        }
    }

    /// Whether one of the first `k` children holds a regular file at
    /// path `p`.
    pub open spec fn forest_has_file_at(
        es: Seq<FsNode>,
        k: int,
        at: Seq<Seq<char>>,
        p: Seq<Seq<char>>,
    ) -> bool
        decreases es, k,
    {
        if k <= 0 || k > es.len() {
            false
        } else {
            FsNode::forest_has_file_at(es, k - 1, at, p) || es[k - 1].has_file_at(
                at.push(es[k - 1].name_view()),
                p,
            )
        }
    }

    /// Well-formed: within every directory, the children's names are
    /// distinct, as they are in a real directory.
    pub open spec fn wf(self) -> bool
        decreases self, 0int,
    {
        match self {
            FsNode::Dir { entries, .. } => {
                &&& forall|i: int, j: int|
                    0 <= i < j < entries@.len() ==> entries@[i].name_view()
                        != entries@[j].name_view()
                &&& FsNode::forest_wf(entries@, entries@.len() as int)
            },
            _ => true,
        }
    }

    /// Well-formedness of the first `k` children.
    pub open spec fn forest_wf(es: Seq<FsNode>, k: int) -> bool
        decreases es, k,
    {
        if k <= 0 || k > es.len() {
            true
        } else {
            FsNode::forest_wf(es, k - 1) && es[k - 1].wf()
        }
    }

    /// Every child of a well-formed forest is itself well-formed.
    pub proof fn lemma_forest_wf_elem(es: Seq<FsNode>, j: int, k: int)
        requires
            0 <= j < k <= es.len(),
            FsNode::forest_wf(es, k),
        ensures
            es[j].wf(),
        decreases k,
    {
        if j < k - 1 {
            FsNode::lemma_forest_wf_elem(es, j, k - 1);
        }
    }
}

} // verus!
