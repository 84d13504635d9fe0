//! The laws a run obeys, proved over the walk and pipeline
//! specifications.

use vstd::prelude::*;
use crate::fs_model::FsNode;
use crate::path::{is_excluded, is_path_prefix, lemma_prefix_transitive};
use crate::pipeline::{FileOutcome, ProcessingError, errors_of, outcome_matches, reports_of};
use crate::walk::{FoundFile, reads_entries, reads_node, walk_entries, walk_node};

verus! {

/// Law: the walk only finds files under its root and never an excluded
/// one. Every found file's path extends the walk's root path, and
/// neither it nor any ancestor matches the exclusion set.
pub proof fn lemma_walk_sound(n: FsNode, at: Seq<Seq<char>>, excl: Seq<Seq<Seq<char>>>)
    ensures
        forall|i: int|
            0 <= i < walk_node(n, at, excl).len() ==> is_path_prefix(
                at,
                (#[trigger] walk_node(n, at, excl)[i]).path,
            ) && !is_excluded(walk_node(n, at, excl)[i].path, excl),
    decreases n, 0int,
{
    if is_excluded(at, excl) {
    } else {
        match n {
            FsNode::File { .. } => {
                assert(at.subrange(0, at.len() as int) =~= at);
            },
            FsNode::Dir { entries, .. } => {
                lemma_walk_entries_sound(entries@, entries@.len() as int, at, excl);
            },
            _ => {},
        }
    }
}

/// The forest half of `lemma_walk_sound`: results of the first `k`
/// children extend the directory's path by one of those children's
/// names, and are never excluded.
pub proof fn lemma_walk_entries_sound(
    es: Seq<FsNode>,
    k: int,
    at: Seq<Seq<char>>,
    excl: Seq<Seq<Seq<char>>>,
)
    ensures
        forall|i: int|
            0 <= i < walk_entries(es, k, at, excl).len() ==> is_path_prefix(
                at,
                (#[trigger] walk_entries(es, k, at, excl)[i]).path,
            ) && !is_excluded(walk_entries(es, k, at, excl)[i].path, excl)
                && walk_entries(es, k, at, excl)[i].path.len() > at.len(),
        forall|i: int|
            0 <= i < walk_entries(es, k, at, excl).len() ==> exists|j: int|
                0 <= j < k && (#[trigger] walk_entries(es, k, at, excl)[i]).path[at.len() as int]
                    == es[j].name_view(),
    decreases es, k,
{
    if k <= 0 || k > es.len() {
    } else {
        lemma_walk_entries_sound(es, k - 1, at, excl);
        let at2 = at.push(es[k - 1].name_view());
        lemma_walk_sound(es[k - 1], at2, excl);
        let wj = walk_entries(es, k - 1, at, excl);
        let wn = walk_node(es[k - 1], at2, excl);
        assert(walk_entries(es, k, at, excl) == wj + wn);
        assert(at =~= at2.subrange(0, at.len() as int));
        assert forall|i: int| 0 <= i < wj.len() + wn.len() implies {
            let f = (#[trigger] walk_entries(es, k, at, excl)[i]);
            &&& is_path_prefix(at, f.path)
            &&& !is_excluded(f.path, excl)
            &&& f.path.len() > at.len()
            &&& exists|j: int| 0 <= j < k && f.path[at.len() as int] == es[j].name_view()
        } by {
            let f = walk_entries(es, k, at, excl)[i];
            if i < wj.len() {
                assert(f == wj[i]);
                let j0 = choose|j: int|
                    0 <= j < k - 1 && wj[i].path[at.len() as int] == es[j].name_view();
                assert(0 <= j0 < k && f.path[at.len() as int] == es[j0].name_view());
            } else {
                assert(f == wn[i - wj.len()]);
                assert(is_path_prefix(at2, f.path));
                lemma_prefix_transitive(at, at2, f.path);
                assert(at2 =~= f.path.subrange(0, at2.len() as int));
                assert(f.path[at.len() as int] == at2[at.len() as int]);
                assert(0 <= k - 1 < k && f.path[at.len() as int] == es[k - 1].name_view());
            }
        }
    }
}

/// Law: the walk reads only directories under its root that are not
/// excluded; pruning means an excluded directory's entries are never
/// listed.
pub proof fn lemma_reads_sound(n: FsNode, at: Seq<Seq<char>>, excl: Seq<Seq<Seq<char>>>)
    ensures
        forall|i: int|
            0 <= i < reads_node(n, at, excl).len() ==> is_path_prefix(
                at,
                #[trigger] reads_node(n, at, excl)[i],
            ) && !is_excluded(reads_node(n, at, excl)[i], excl),
    decreases n, 0int,
{
    if is_excluded(at, excl) {
    } else {
        match n {
            FsNode::Dir { entries, .. } => {
                lemma_reads_entries_sound(entries@, entries@.len() as int, at, excl);
                assert(at.subrange(0, at.len() as int) =~= at);
                let rs = seq![at] + reads_entries(entries@, entries@.len() as int, at, excl);
                assert forall|i: int| 0 <= i < rs.len() implies is_path_prefix(at, #[trigger] rs[i])
                    && !is_excluded(rs[i], excl) by {
                    if i > 0 {
                        assert(rs[i] == reads_entries(entries@, entries@.len() as int, at, excl)[i
                            - 1]);
                    }
                }
            },
            _ => {},
        }
    }
}

/// The forest half of `lemma_reads_sound`.
pub proof fn lemma_reads_entries_sound(
    es: Seq<FsNode>,
    k: int,
    at: Seq<Seq<char>>,
    excl: Seq<Seq<Seq<char>>>,
)
    ensures
        forall|i: int|
            0 <= i < reads_entries(es, k, at, excl).len() ==> is_path_prefix(
                at,
                #[trigger] reads_entries(es, k, at, excl)[i],
            ) && !is_excluded(reads_entries(es, k, at, excl)[i], excl),
    decreases es, k,
{
    if k <= 0 || k > es.len() {
    } else {
        lemma_reads_entries_sound(es, k - 1, at, excl);
        let at2 = at.push(es[k - 1].name_view());
        lemma_reads_sound(es[k - 1], at2, excl);
        let rj = reads_entries(es, k - 1, at, excl);
        let rn = reads_node(es[k - 1], at2, excl);
        assert(reads_entries(es, k, at, excl) == rj + rn);
        assert(at =~= at2.subrange(0, at.len() as int));
        assert forall|i: int| 0 <= i < rj.len() + rn.len() implies is_path_prefix(
            at,
            #[trigger] reads_entries(es, k, at, excl)[i],
        ) && !is_excluded(reads_entries(es, k, at, excl)[i], excl) by {
            let p = reads_entries(es, k, at, excl)[i];
            if i < rj.len() {
                assert(p == rj[i]);
            } else {
                assert(p == rn[i - rj.len()]);
                lemma_prefix_transitive(at, at2, p);
            }
        }
    }
}

/// Law: an excluded directory's subtree is untouched. For any entry
/// `d` of the exclusion set, no path at or under `d` is ever a found
/// file's path, and no such directory is ever read.
pub proof fn lemma_excluded_subtree_untouched(
    n: FsNode,
    at: Seq<Seq<char>>,
    excl: Seq<Seq<Seq<char>>>,
    k: int,
    q: Seq<Seq<char>>,
)
    requires
        0 <= k < excl.len(),
        is_path_prefix(excl[k], q),
    ensures
        forall|i: int|
            0 <= i < walk_node(n, at, excl).len() ==> (#[trigger] walk_node(n, at, excl)[i]).path
                != q,
        forall|i: int|
            0 <= i < reads_node(n, at, excl).len() ==> #[trigger] reads_node(n, at, excl)[i] != q,
{
    lemma_walk_sound(n, at, excl);
    lemma_reads_sound(n, at, excl);
    assert(is_excluded(q, excl));
}

/// Law: with an empty exclusion set, the walk finds every regular
/// file of the tree: one found file per `File` node.
pub proof fn lemma_walk_unfiltered_count(n: FsNode, at: Seq<Seq<char>>, excl: Seq<Seq<Seq<char>>>)
    requires
        excl.len() == 0,
    ensures
        walk_node(n, at, excl).len() == n.file_count(),
    decreases n, 0int,
{
    match n {
        FsNode::Dir { entries, .. } => {
            lemma_walk_entries_unfiltered_count(entries@, entries@.len() as int, at, excl);
        },
        _ => {},
    }
}

/// The forest half of `lemma_walk_unfiltered_count`.
pub proof fn lemma_walk_entries_unfiltered_count(
    es: Seq<FsNode>,
    k: int,
    at: Seq<Seq<char>>,
    excl: Seq<Seq<Seq<char>>>,
)
    requires
        excl.len() == 0,
    ensures
        walk_entries(es, k, at, excl).len() == FsNode::forest_file_count(es, k),
    decreases es, k,
{
    if k <= 0 || k > es.len() {
    } else {
        lemma_walk_entries_unfiltered_count(es, k - 1, at, excl);
        lemma_walk_unfiltered_count(es[k - 1], at.push(es[k - 1].name_view()), excl);
    }
}

/// Law: the walk yields only regular files: every found file's path is
/// the path of a `File` node of the tree — never of a directory, nor
/// of a node of any other type.
pub proof fn lemma_walk_finds_regular_files(
    n: FsNode,
    at: Seq<Seq<char>>,
    excl: Seq<Seq<Seq<char>>>,
)
    ensures
        forall|i: int|
            0 <= i < walk_node(n, at, excl).len() ==> n.has_file_at(
                at,
                (#[trigger] walk_node(n, at, excl)[i]).path,
            ),
    decreases n, 0int,
{
    match n {
        FsNode::Dir { entries, .. } => {
            lemma_walk_entries_find_regular_files(entries@, entries@.len() as int, at, excl);
        },
        _ => {},
    }
}

/// The forest half of `lemma_walk_finds_regular_files`.
pub proof fn lemma_walk_entries_find_regular_files(
    es: Seq<FsNode>,
    k: int,
    at: Seq<Seq<char>>,
    excl: Seq<Seq<Seq<char>>>,
)
    ensures
        forall|i: int|
            0 <= i < walk_entries(es, k, at, excl).len() ==> FsNode::forest_has_file_at(
                es,
                k,
                at,
                (#[trigger] walk_entries(es, k, at, excl)[i]).path,
            ),
    decreases es, k,
{
    if k <= 0 || k > es.len() {
    } else {
        lemma_walk_entries_find_regular_files(es, k - 1, at, excl);
        let at2 = at.push(es[k - 1].name_view());
        lemma_walk_finds_regular_files(es[k - 1], at2, excl);
        let wj = walk_entries(es, k - 1, at, excl);
        let wn = walk_node(es[k - 1], at2, excl);
        assert(walk_entries(es, k, at, excl) == wj + wn);
        assert forall|i: int| 0 <= i < wj.len() + wn.len() implies FsNode::forest_has_file_at(
            es,
            k,
            at,
            (#[trigger] walk_entries(es, k, at, excl)[i]).path,
        ) by {
            let f = walk_entries(es, k, at, excl)[i];
            if i < wj.len() {
                assert(f == wj[i]);
                assert(FsNode::forest_has_file_at(es, k - 1, at, f.path));
            } else {
                assert(f == wn[i - wj.len()]);
                assert(es[k - 1].has_file_at(at2, f.path));
            }
        }
    }
}

/// Law: in a well-formed tree (sibling names distinct, as in a real
/// directory), no two found files share a path: each report speaks of
/// exactly one regular file.
pub proof fn lemma_walk_paths_distinct(n: FsNode, at: Seq<Seq<char>>, excl: Seq<Seq<Seq<char>>>)
    requires
        n.wf(),
    ensures
        forall|i: int, j: int|
            0 <= i < j < walk_node(n, at, excl).len() ==> (#[trigger] walk_node(
                n,
                at,
                excl,
            )[i]).path != (#[trigger] walk_node(n, at, excl)[j]).path,
    decreases n, 0int,
{
    match n {
        FsNode::Dir { entries, .. } => {
            lemma_walk_entries_distinct(entries@, entries@.len() as int, at, excl);
        },
        _ => {},
    }
}

/// The forest half of `lemma_walk_paths_distinct`.
pub proof fn lemma_walk_entries_distinct(
    es: Seq<FsNode>,
    k: int,
    at: Seq<Seq<char>>,
    excl: Seq<Seq<Seq<char>>>,
)
    requires
        forall|a: int, b: int|
            0 <= a < b < es.len() ==> es[a].name_view() != es[b].name_view(),
        FsNode::forest_wf(es, es.len() as int),
    ensures
        forall|i: int, j: int|
            0 <= i < j < walk_entries(es, k, at, excl).len() ==> (#[trigger] walk_entries(
                es,
                k,
                at,
                excl,
            )[i]).path != (#[trigger] walk_entries(es, k, at, excl)[j]).path,
    decreases es, k,
{
    if k <= 0 || k > es.len() {
    } else {
        lemma_walk_entries_distinct(es, k - 1, at, excl);
        let at2 = at.push(es[k - 1].name_view());
        FsNode::lemma_forest_wf_elem(es, k - 1, es.len() as int);
        lemma_walk_paths_distinct(es[k - 1], at2, excl);
        lemma_walk_entries_sound(es, k - 1, at, excl);
        lemma_walk_sound(es[k - 1], at2, excl);
        let wj = walk_entries(es, k - 1, at, excl);
        let wn = walk_node(es[k - 1], at2, excl);
        assert(walk_entries(es, k, at, excl) == wj + wn);
        assert forall|i: int, j: int|
            0 <= i < j < wj.len() + wn.len() implies (#[trigger] walk_entries(
            es,
            k,
            at,
            excl,
        )[i]).path != (#[trigger] walk_entries(es, k, at, excl)[j]).path by {
            let fi = walk_entries(es, k, at, excl)[i];
            let fj = walk_entries(es, k, at, excl)[j];
            if j < wj.len() {
                assert(fi == wj[i] && fj == wj[j]);
            } else if i >= wj.len() {
                assert(fi == wn[i - wj.len()] && fj == wn[j - wj.len()]);
            } else {
                assert(fi == wj[i] && fj == wn[j - wj.len()]);
                let a = choose|a: int|
                    0 <= a < k - 1 && wj[i].path[at.len() as int] == es[a].name_view();
                assert(is_path_prefix(at2, fj.path));
                assert(at2 =~= fj.path.subrange(0, at2.len() as int));
                assert(fj.path[at.len() as int] == at2[at.len() as int]);
                assert(fj.path[at.len() as int] == es[k - 1].name_view());
                assert(es[a].name_view() != es[k - 1].name_view());
            }
        }
    }
}

/// An outcome always speaks of its own file's path.
pub proof fn lemma_outcome_path(f: FoundFile, o: FileOutcome)
    requires
        outcome_matches(f, o),
    ensures
        o.path_view() == f.path,
{
}

/// Law: a file whose metadata read fails yields exactly one record in
/// the whole run — a `MetadataError` with its path and cause — and no
/// other record of any kind mentions that path.
pub proof fn lemma_metadata_failure_isolated(fs: Seq<FoundFile>, outs: Seq<FileOutcome>, i: int)
    requires
        outs.len() == fs.len(),
        forall|t: int| 0 <= t < fs.len() ==> outcome_matches(fs[t], #[trigger] outs[t]),
        forall|a: int, b: int| 0 <= a < b < fs.len() ==> (#[trigger] fs[a]).path != (#[trigger] fs[b]).path,
        0 <= i < fs.len(),
        fs[i].meta is Err,
    ensures
        outs[i] matches FileOutcome::Error(ProcessingError::MetadataError { path, cause })
            && path@ == fs[i].path && cause@ == fs[i].meta->Err_0,
        forall|t: int|
            0 <= t < outs.len() && t != i ==> (#[trigger] outs[t]).path_view() != fs[i].path,
{
    assert(outcome_matches(fs[i], outs[i]));
    assert forall|t: int| 0 <= t < outs.len() && t != i implies (#[trigger] outs[t]).path_view()
        != fs[i].path by {
        lemma_outcome_path(fs[t], outs[t]);
        if t < i {
            assert(fs[t].path != fs[i].path);
        } else {
            assert(fs[i].path != fs[t].path);
        }
    }
}

/// Law: a file whose metadata read succeeds but whose content read
/// fails yields exactly one record — a `DigestError` with its path and
/// cause — and no report and no other record mentions that path.
pub proof fn lemma_digest_failure_isolated(fs: Seq<FoundFile>, outs: Seq<FileOutcome>, i: int)
    requires
        outs.len() == fs.len(),
        forall|t: int| 0 <= t < fs.len() ==> outcome_matches(fs[t], #[trigger] outs[t]),
        forall|a: int, b: int| 0 <= a < b < fs.len() ==> (#[trigger] fs[a]).path != (#[trigger] fs[b]).path,
        0 <= i < fs.len(),
        fs[i].meta is Ok,
        fs[i].content is Err,
    ensures
        outs[i] matches FileOutcome::Error(ProcessingError::DigestError { path, cause })
            && path@ == fs[i].path && cause@ == fs[i].content->Err_0,
        forall|t: int|
            0 <= t < outs.len() && t != i ==> (#[trigger] outs[t]).path_view() != fs[i].path,
{
    assert(outcome_matches(fs[i], outs[i]));
    assert forall|t: int| 0 <= t < outs.len() && t != i implies (#[trigger] outs[t]).path_view()
        != fs[i].path by {
        lemma_outcome_path(fs[t], outs[t]);
        if t < i {
            assert(fs[t].path != fs[i].path);
        } else {
            assert(fs[i].path != fs[t].path);
        }
    }
}

/// Law: when every discovered file's two reads succeed, the run
/// reports every file and no errors: as many reports as files, however
/// the workers interleave, since each file's outcome depends on that
/// file alone.
pub proof fn lemma_all_readable_all_reported(fs: Seq<FoundFile>, outs: Seq<FileOutcome>)
    requires
        outs.len() == fs.len(),
        forall|t: int| 0 <= t < fs.len() ==> outcome_matches(fs[t], #[trigger] outs[t]),
        forall|t: int| 0 <= t < fs.len() ==> (#[trigger] fs[t]).meta is Ok && fs[t].content is Ok,
    ensures
        reports_of(outs).len() == fs.len(),
        errors_of(outs).len() == 0,
    decreases outs.len(),
{
    if outs.len() > 0 {
        assert forall|t: int| 0 <= t < fs.drop_last().len() implies outcome_matches(
            fs.drop_last()[t],
            #[trigger] outs.drop_last()[t],
        ) by {
            assert(fs.drop_last()[t] == fs[t] && outs.drop_last()[t] == outs[t]);
        }
        lemma_all_readable_all_reported(fs.drop_last(), outs.drop_last());
        let last = outs.len() - 1;
        assert(outcome_matches(fs[last], outs[last]));
        assert(outs.last() matches FileOutcome::Report(_));
    }
}

/// Law: a run over a tree with no exclusions and all files readable
/// reports exactly one line per regular file of the tree, and nothing
/// on the error channel.
pub proof fn lemma_full_run_counts(
    n: FsNode,
    at: Seq<Seq<char>>,
    excl: Seq<Seq<Seq<char>>>,
    outs: Seq<FileOutcome>,
)
    requires
        excl.len() == 0,
        outs.len() == walk_node(n, at, excl).len(),
        forall|t: int|
            0 <= t < outs.len() ==> outcome_matches(walk_node(n, at, excl)[t], #[trigger] outs[t]),
        forall|t: int|
            0 <= t < outs.len() ==> (#[trigger] walk_node(n, at, excl)[t]).meta is Ok && walk_node(
                n,
                at,
                excl,
            )[t].content is Ok,
    ensures
        reports_of(outs).len() == n.file_count(),
        errors_of(outs).len() == 0,
{
    lemma_walk_unfiltered_count(n, at, excl);
    lemma_all_readable_all_reported(walk_node(n, at, excl), outs);
}

} // verus!
