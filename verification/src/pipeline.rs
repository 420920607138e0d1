//! The load pipeline: stages a whole load and reports each stage before
//! the next begins.
//!
//! A load runs through the fixed stage sequence metadata query, package
//! collection, feature resolution, graph generation, and ends in exactly
//! one terminal message: the finished project, or the error that stopped
//! it.  No stage is ever skipped or reordered; a failing metadata query
//! short-circuits everything after it.

use vstd::prelude::*;
use crate::project::{built_from, Metadata, Project};

verus! {

/// One progress message of a load, in the order the pipeline sends them.
/// The two last variants are terminal: a load ends with exactly one of
/// them.
pub enum LoadStage {
    /// The external metadata collaborator is being invoked.
    MetadataQuery,
    /// The package registry is being populated from the raw metadata.
    PkgInfoCollect,
    /// The feature resolver is running.
    Resolve,
    /// The dependency graph is being derived and the root located.
    GenDepGraph,
    /// The load is complete; the message carries the finished project.
    Finished(Project),
    /// The load failed; the message carries the failure text.  Nothing
    /// after the failing stage runs, and no partial project is exposed.
    Error(String),
}

/// The progress stage announced at position `i` of a trace.
pub open spec fn stage_at(i: int) -> LoadStage {
    if i == 0 {
        LoadStage::MetadataQuery
    } else if i == 1 {
        LoadStage::PkgInfoCollect
    } else if i == 2 {
        LoadStage::Resolve
    } else {
        LoadStage::GenDepGraph
    }
}

/// A well-formed load trace: the progress messages form a prefix of the
/// fixed sequence metadata query, package collection, feature resolution,
/// graph generation, in that order; the last message, and only the last,
/// is terminal; and only a full prefix may end in a finished project.
pub open spec fn is_valid_stage_trace(t: Seq<LoadStage>) -> bool {
    &&& 1 <= t.len() <= 5
    &&& forall|i: int| 0 <= i < t.len() - 1 ==> t[i] == stage_at(i)
    &&& (t.last() is Finished || t.last() is Error)
    &&& (t.last() is Finished ==> t.len() == 5)
}

/// Runs every stage of one load on the metadata collaborator's outcome
/// and reports each as a message, in order.  A successful query yields
/// the full stage sequence ending in the finished project; a failed one
/// yields the query stage followed by its error, and nothing else runs.
pub fn run_load(meta: Result<Metadata, String>) -> (msgs: Vec<LoadStage>)
    ensures
        is_valid_stage_trace(msgs@),
        meta is Err ==> msgs@.len() == 2 && msgs@[1] == LoadStage::Error(meta->Err_0),
        meta is Ok ==> msgs@.len() == 5 && msgs@[4] is Finished
            && built_from(msgs@[4]->Finished_0, meta->Ok_0),
{
    let mut msgs: Vec<LoadStage> = Vec::new();
    msgs.push(LoadStage::MetadataQuery);
    match meta {
        Err(e) => {
            msgs.push(LoadStage::Error(e));
        },
        Ok(m) => {
            msgs.push(LoadStage::PkgInfoCollect);
            msgs.push(LoadStage::Resolve);
            msgs.push(LoadStage::GenDepGraph);
            let project = Project::build(m);
            msgs.push(LoadStage::Finished(project));
        },
    }
    msgs
}

} // verus!
