//! Per-file processing and the run over a whole tree.
//!
//! Each discovered file is processed on its own: the metadata read
//! comes first; only when it succeeds is the content digested; exactly
//! one record — a report or an error — comes out. A run processes every
//! file the walk found, one outcome per file, in a way that is
//! insensitive to the order the outcomes are emitted in.

use vstd::prelude::*;
use crate::digest::{md5_hex, md5_of};
use crate::fs_model::FsNode;
use crate::hex::hex_of;
use crate::path::{FsPath, exclusions_view};
use crate::walk::{FileEntry, FoundFile, entries_found, paths_view, reads_node, walk, walk_node};

verus! {

/// The timestamp reported for a modification time: the seconds since
/// the epoch, or zero when the recorded time predates the epoch.
pub open spec fn timestamp_of(mtime: Option<u64>) -> u64 {
    match mtime {
        Some(secs) => secs,
        None => 0,
    }
}

/// The reported timestamp for a successfully read modification time.
/// A time before the epoch is reported as zero rather than refused.
pub fn get_timestamp(mtime: Option<u64>) -> (r: u64)
    ensures
        r == timestamp_of(mtime),
{
    match mtime {
        Some(secs) => secs,
        None => 0,
    }
}

/// One successfully processed file.
pub struct FileReport {
    /// Modification time, in seconds since the epoch.
    pub timestamp: u64,
    /// The MD5 digest of the content, as 32 lowercase hex characters.
    pub digest: String,
    /// The file's path.
    pub path: FsPath,
}

/// A per-file failure. Neither aborts the run; each is reported and the
/// file is abandoned.
pub enum ProcessingError {
    /// The file's metadata cannot be read; its content is never tried.
    MetadataError { path: FsPath, cause: String },
    /// The metadata was read but the content cannot be; no partial
    /// digest is ever reported.
    DigestError { path: FsPath, cause: String },
}

/// What processing one file emits: exactly one of a report or an
/// error.
pub enum FileOutcome {
    Report(FileReport),
    Error(ProcessingError),
}

impl FileOutcome {
    /// The path the outcome speaks of.
    pub open spec fn path_view(&self) -> Seq<Seq<char>> {
        match self {
            FileOutcome::Report(r) => r.path@,
            FileOutcome::Error(ProcessingError::MetadataError { path, .. }) => path@,
            FileOutcome::Error(ProcessingError::DigestError { path, .. }) => path@,
        }
    }
}

/// The one outcome that processing a found file must produce:
/// a failing metadata read gives a `MetadataError` and nothing else; a
/// failing content read after good metadata gives a `DigestError` and
/// nothing else; two good reads give a report carrying the timestamp
/// and the content's digest.
pub open spec fn outcome_matches(f: FoundFile, o: FileOutcome) -> bool {
    match f.meta {
        Err(cause) => o matches FileOutcome::Error(
            ProcessingError::MetadataError { path, cause: c },
        ) && path@ == f.path && c@ == cause,
        Ok(mtime) => match f.content {
            Err(cause) => o matches FileOutcome::Error(
                ProcessingError::DigestError { path, cause: c },
            ) && path@ == f.path && c@ == cause,
            Ok(bytes) => o matches FileOutcome::Report(r) && r.path@ == f.path && r.timestamp
                == timestamp_of(mtime) && r.digest@ == hex_of(md5_of(bytes)),
        },
    }
}

/// Process one discovered file: read order is metadata first, then
/// content; the first failure ends the file with its error record.
pub fn process_file(entry: FileEntry) -> (o: FileOutcome)
    ensures
        outcome_matches(entry.found(), o),
{
    let FileEntry { path, data } = entry;
    match data.meta {
        Err(cause) => FileOutcome::Error(ProcessingError::MetadataError { path, cause }),
        Ok(mtime) => {
            let timestamp = get_timestamp(mtime);
            match data.content {
                Err(cause) => FileOutcome::Error(ProcessingError::DigestError { path, cause }),
                Ok(bytes) => {
                    let digest = md5_hex(bytes.as_slice());
                    FileOutcome::Report(FileReport { timestamp, digest, path })
                },
            }
        },
    }
}

/// Process every discovered file: one outcome per entry, in order.
pub fn run_pipeline(entries: Vec<FileEntry>) -> (outs: Vec<FileOutcome>)
    ensures
        outs@.len() == entries@.len(),
        forall|i: int|
            0 <= i < entries@.len() ==> outcome_matches(entries_found(entries@)[i], #[trigger] outs@[i]),
{
    let ghost orig = entries@;
    let mut rest = entries;
    let mut outs: Vec<FileOutcome> = Vec::new();
    while rest.len() > 0
        invariant
            outs@.len() + rest@.len() == orig.len(),
            rest@ == orig.skip(outs@.len() as int),
            forall|i: int|
                0 <= i < outs@.len() ==> outcome_matches(entries_found(orig)[i], #[trigger] outs@[i]),
        decreases rest@.len(),
    {
        let ghost k = outs@.len() as int;
        let e = rest.remove(0);
        proof {
            assert(e == orig[k]);
            assert(rest@ =~= orig.skip(k + 1));
        }
        let o = process_file(e);
        outs.push(o);
    }
    outs
}

/// The reports among a run's outcomes, in emission order.
pub open spec fn reports_of(outs: Seq<FileOutcome>) -> Seq<FileReport>
    decreases outs.len(),
{
    if outs.len() == 0 {
        Seq::empty()
    } else {
        reports_of(outs.drop_last()) + (match outs.last() {
            FileOutcome::Report(r) => seq![r],
            FileOutcome::Error(_) => Seq::empty(),
        })
    }
}

/// The errors among a run's outcomes, in emission order.
pub open spec fn errors_of(outs: Seq<FileOutcome>) -> Seq<ProcessingError>
    decreases outs.len(),
{
    if outs.len() == 0 {
        Seq::empty()
    } else {
        errors_of(outs.drop_last()) + (match outs.last() {
            FileOutcome::Report(_) => Seq::empty(),
            FileOutcome::Error(e) => seq![e],
        })
    }
}

/// Split a run's outcomes into the two sinks: reports to one, errors
/// to the other, each keeping emission order.
pub fn split_outcomes(outs: Vec<FileOutcome>) -> (r: (Vec<FileReport>, Vec<ProcessingError>))
    ensures
        r.0@ == reports_of(outs@),
        r.1@ == errors_of(outs@),
{
    let ghost orig = outs@;
    let mut rest = outs;
    let mut reports: Vec<FileReport> = Vec::new();
    let mut errors: Vec<ProcessingError> = Vec::new();
    let ghost k: int = 0;
    while rest.len() > 0
        invariant
            k == orig.len() - rest@.len(),
            0 <= k <= orig.len(),
            rest@ == orig.skip(k),
            reports@ == reports_of(orig.take(k)),
            errors@ == errors_of(orig.take(k)),
        decreases rest@.len(),
    {
        let o = rest.remove(0);
        proof {
            assert(o == orig[k]);
            assert(rest@ =~= orig.skip(k + 1));
            assert(orig.take(k + 1).drop_last() =~= orig.take(k));
            assert(orig.take(k + 1).last() == orig[k]);
        }
        match o {
            FileOutcome::Report(rep) => {
                reports.push(rep);
                proof {
                    assert(reports@ =~= reports_of(orig.take(k + 1)));
                    assert(errors@ =~= errors_of(orig.take(k + 1)));
                }
            },
            FileOutcome::Error(err) => {
                errors.push(err);
                proof {
                    assert(reports@ =~= reports_of(orig.take(k + 1)));
                    assert(errors@ =~= errors_of(orig.take(k + 1)));
                }
            },
        }
        proof {
            k = k + 1;
        }
    }
    proof {
        assert(orig.take(k) =~= orig);
    }
    (reports, errors)
}

/// Run the whole inventory over a modeled tree: walk it, pruning
/// excluded subtrees, then process every discovered file. Returns the
/// outcomes (one per discovered file, in traversal order) and the
/// directories the walk listed.
pub fn run_model(root: &FsNode, root_path: &FsPath, exclusions: &Vec<FsPath>) -> (r: (
    Vec<FileOutcome>,
    Vec<FsPath>,
))
    ensures
        r.0@.len() == walk_node(*root, root_path@, exclusions_view(exclusions@)).len(),
        forall|i: int|
            0 <= i < r.0@.len() ==> outcome_matches(
                walk_node(*root, root_path@, exclusions_view(exclusions@))[i],
                #[trigger] r.0@[i],
            ),
        paths_view(r.1@) == reads_node(*root, root_path@, exclusions_view(exclusions@)),
{
    let (entries, reads) = walk(root, root_path, exclusions);
    let outs = run_pipeline(entries);
    (outs, reads)
}

} // verus!
