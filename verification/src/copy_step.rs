//! The copy of one conversation as a sequence of steps: the caller performs
//! each action on disk and reports how it went; this module decides what is
//! done next and, on failure, what is undone.
//!
//! A conversation is first written into a temporary directory, then renamed
//! into place under its new id, then listed in the merged workspace index.
//! A failure at any point undoes what was done: the temporary directory and
//! the renamed directory are removed, and the index is written back (or,
//! should that fail too, restored from its backup).

use vstd::prelude::*;
use crate::vscode_session::CopyFailure;

verus! {

/// Where the copy of one conversation stands.
pub enum CopyItemStage {
    /// Nothing is done yet; the source index is read first.
    Start,
    /// The source index was read; a new id is made next.
    NeedId,
    /// The temporary directory is being written.
    Writing,
    /// The temporary directory is being renamed into place.
    Renaming,
    /// The workspace index with the new entry is being written.
    Merging,
    /// Writing the merged index failed with this error; the index as it was
    /// is being written back.
    Reverting(String),
    /// The conversation is copied.
    Copied,
    /// The copy failed, and what it did is undone.
    Failed(CopyFailure),
}

/// What the caller reports after performing the actions of a step.
pub enum CopyItemEvent {
    /// Whether the source conversation's index could be read.
    SourceRead(bool),
    /// Whether a new conversation id could be made.
    IdMade(bool),
    /// How writing the temporary directory went.
    TempWritten(Result<(), String>),
    /// How renaming the temporary directory into place went.
    Renamed(Result<(), String>),
    /// How writing the workspace index went.
    IndexWritten(Result<(), String>),
}

/// An action for the caller to perform, in order.
#[derive(PartialEq, Eq, Structural, Clone, Copy, Debug)]
pub enum CopyItemAction {
    /// Make a new conversation id.
    MakeId,
    /// Remove the temporary directory where it exists.
    RemoveTemp,
    /// Write the conversation into the temporary directory.
    WriteTemp,
    /// Remove the directory of the new id where it exists.
    RemoveFinal,
    /// Rename the temporary directory to the new id.
    Rename,
    /// Add the new entry to the workspace index and write the index.
    MergeIndex,
    /// Take back the entry and write the index again.
    RevertIndex,
    /// Restore the workspace index from its backup.
    RestoreIndex,
}

/// The next stage and the actions to perform after `event` at `stage`. An
/// event that does not answer the stage changes nothing.
pub open spec fn copy_item_step_spec(stage: CopyItemStage, event: CopyItemEvent) -> (CopyItemStage, Seq<CopyItemAction>) {
    match (stage, event) {
        (CopyItemStage::Start, CopyItemEvent::SourceRead(true)) => (CopyItemStage::NeedId, seq![CopyItemAction::MakeId]),
        (CopyItemStage::Start, CopyItemEvent::SourceRead(false)) => (
            CopyItemStage::Failed(CopyFailure::MissingIndex),
            Seq::empty(),
        ),
        (CopyItemStage::NeedId, CopyItemEvent::IdMade(true)) => (
            CopyItemStage::Writing,
            seq![CopyItemAction::RemoveTemp, CopyItemAction::WriteTemp],
        ),
        (CopyItemStage::NeedId, CopyItemEvent::IdMade(false)) => (CopyItemStage::Failed(CopyFailure::NoId), Seq::empty()),
        (CopyItemStage::Writing, CopyItemEvent::TempWritten(Ok(()))) => (
            CopyItemStage::Renaming,
            seq![CopyItemAction::RemoveFinal, CopyItemAction::Rename],
        ),
        (CopyItemStage::Writing, CopyItemEvent::TempWritten(Err(e))) => (
            CopyItemStage::Failed(CopyFailure::WriteTemp(e)),
            seq![CopyItemAction::RemoveTemp],
        ),
        (CopyItemStage::Renaming, CopyItemEvent::Renamed(Ok(()))) => (CopyItemStage::Merging, seq![CopyItemAction::MergeIndex]),
        (CopyItemStage::Renaming, CopyItemEvent::Renamed(Err(e))) => (
            CopyItemStage::Failed(CopyFailure::Commit(e)),
            seq![CopyItemAction::RemoveTemp],
        ),
        (CopyItemStage::Merging, CopyItemEvent::IndexWritten(Ok(()))) => (CopyItemStage::Copied, Seq::empty()),
        (CopyItemStage::Merging, CopyItemEvent::IndexWritten(Err(e))) => (
            CopyItemStage::Reverting(e),
            seq![CopyItemAction::RevertIndex],
        ),
        (CopyItemStage::Reverting(e), CopyItemEvent::IndexWritten(Ok(()))) => (
            CopyItemStage::Failed(CopyFailure::MergeIndex(e)),
            seq![CopyItemAction::RemoveFinal],
        ),
        (CopyItemStage::Reverting(e), CopyItemEvent::IndexWritten(Err(_))) => (
            CopyItemStage::Failed(CopyFailure::MergeIndex(e)),
            seq![CopyItemAction::RestoreIndex, CopyItemAction::RemoveFinal],
        ),
        (s, _) => (s, Seq::empty()),
    }
}

/// The next stage and the actions to perform after `event` at `stage` (see
/// `copy_item_step_spec`).
pub fn copy_item_step(stage: CopyItemStage, event: CopyItemEvent) -> (r: (CopyItemStage, Vec<CopyItemAction>))
    ensures
        r.0 == copy_item_step_spec(stage, event).0,
        r.1@ == copy_item_step_spec(stage, event).1,
{
    let mut acts: Vec<CopyItemAction> = Vec::new();
    let next = match (stage, event) {
        (CopyItemStage::Start, CopyItemEvent::SourceRead(ok)) => {
            if ok {
                acts.push(CopyItemAction::MakeId);
                CopyItemStage::NeedId
            } else {
                CopyItemStage::Failed(CopyFailure::MissingIndex)
            }
        },
        (CopyItemStage::NeedId, CopyItemEvent::IdMade(ok)) => {
            if ok {
                acts.push(CopyItemAction::RemoveTemp);
                acts.push(CopyItemAction::WriteTemp);
                CopyItemStage::Writing
            } else {
                CopyItemStage::Failed(CopyFailure::NoId)
            }
        },
        (CopyItemStage::Writing, CopyItemEvent::TempWritten(res)) => match res {
            Ok(()) => {
                acts.push(CopyItemAction::RemoveFinal);
                acts.push(CopyItemAction::Rename);
                CopyItemStage::Renaming
            },
            Err(e) => {
                acts.push(CopyItemAction::RemoveTemp);
                CopyItemStage::Failed(CopyFailure::WriteTemp(e))
            },
        },
        (CopyItemStage::Renaming, CopyItemEvent::Renamed(res)) => match res {
            Ok(()) => {
                acts.push(CopyItemAction::MergeIndex);
                CopyItemStage::Merging
            },
            Err(e) => {
                acts.push(CopyItemAction::RemoveTemp);
                CopyItemStage::Failed(CopyFailure::Commit(e))
            },
        },
        (CopyItemStage::Merging, CopyItemEvent::IndexWritten(res)) => match res {
            Ok(()) => CopyItemStage::Copied,
            Err(e) => {
                acts.push(CopyItemAction::RevertIndex);
                CopyItemStage::Reverting(e)
            },
        },
        (CopyItemStage::Reverting(e), CopyItemEvent::IndexWritten(res)) => match res {
            Ok(()) => {
                acts.push(CopyItemAction::RemoveFinal);
                CopyItemStage::Failed(CopyFailure::MergeIndex(e))
            },
            Err(_) => {
                acts.push(CopyItemAction::RestoreIndex);
                acts.push(CopyItemAction::RemoveFinal);
                CopyItemStage::Failed(CopyFailure::MergeIndex(e))
            },
        },
        (s, _) => s,
    };
    assert(acts@ =~= copy_item_step_spec(stage, event).1);
    (next, acts)
}

/// What a copy has left on disk: the temporary directory, the directory of
/// the new id, and a change to the workspace index.
pub struct DiskModel {
    pub temp: bool,
    pub final_dir: bool,
    pub index_changed: bool,
}

pub open spec fn clean_disk() -> DiskModel {
    DiskModel { temp: false, final_dir: false, index_changed: false }
}

/// What an answered event tells of the disk: a successful rename moves the
/// temporary directory into place; a successful write-back of the index
/// takes back its change.
pub open spec fn event_effect(d: DiskModel, stage: CopyItemStage, event: CopyItemEvent) -> DiskModel {
    match (stage, event) {
        (CopyItemStage::Renaming, CopyItemEvent::Renamed(Ok(()))) => DiskModel { temp: false, final_dir: true, ..d },
        (CopyItemStage::Reverting(_), CopyItemEvent::IndexWritten(Ok(()))) => DiskModel { index_changed: false, ..d },
        _ => d,
    }
}

/// What an action does to the disk once it is performed (a rename or an
/// index write-back takes effect when its outcome is reported).
pub open spec fn action_effect(d: DiskModel, a: CopyItemAction) -> DiskModel {
    match a {
        CopyItemAction::RemoveTemp => DiskModel { temp: false, ..d },
        CopyItemAction::WriteTemp => DiskModel { temp: true, ..d },
        CopyItemAction::RemoveFinal => DiskModel { final_dir: false, ..d },
        CopyItemAction::MergeIndex => DiskModel { index_changed: true, ..d },
        CopyItemAction::RestoreIndex => DiskModel { index_changed: false, ..d },
        _ => d,
    }
}

pub open spec fn actions_effect(d: DiskModel, acts: Seq<CopyItemAction>) -> DiskModel
    decreases acts.len(),
{
    if acts.len() == 0 {
        d
    } else {
        action_effect(actions_effect(d, acts.drop_last()), acts.last())
    }
}

/// A run of a copy from its start over the reported events: the stage it
/// reaches, every action issued in order, and what is left on disk.
pub open spec fn copy_run(events: Seq<CopyItemEvent>) -> (CopyItemStage, Seq<CopyItemAction>, DiskModel)
    decreases events.len(),
{
    if events.len() == 0 {
        (CopyItemStage::Start, Seq::empty(), clean_disk())
    } else {
        let (s, acts, d) = copy_run(events.drop_last());
        let (s2, a2) = copy_item_step_spec(s, events.last());
        (s2, acts + a2, actions_effect(event_effect(d, s, events.last()), a2))
    }
}

/// What is on disk at each stage.
pub open spec fn disk_at(stage: CopyItemStage) -> DiskModel {
    match stage {
        CopyItemStage::Writing => DiskModel { temp: true, final_dir: false, index_changed: false },
        CopyItemStage::Renaming => DiskModel { temp: true, final_dir: false, index_changed: false },
        CopyItemStage::Merging => DiskModel { temp: false, final_dir: true, index_changed: true },
        CopyItemStage::Reverting(_) => DiskModel { temp: false, final_dir: true, index_changed: true },
        CopyItemStage::Copied => DiskModel { temp: false, final_dir: true, index_changed: true },
        _ => clean_disk(),
    }
}

proof fn lemma_copy_run_disk(events: Seq<CopyItemEvent>)
    ensures
        copy_run(events).2 == disk_at(copy_run(events).0),
    decreases events.len(),
{
    if events.len() > 0 {
        lemma_copy_run_disk(events.drop_last());
        let (s, acts, d) = copy_run(events.drop_last());
        let ev = events.last();
        let (s2, a2) = copy_item_step_spec(s, ev);
        let d1 = event_effect(d, s, ev);
        reveal_with_fuel(actions_effect, 3);
        assert(actions_effect(d1, a2) == disk_at(s2));
    }
}

/// A failed copy leaves nothing behind: the temporary directory and the
/// directory of the new id are removed after they were written, and the
/// workspace index is written back (or restored) after it was changed. A
/// completed copy leaves the conversation in place under its new id, listed
/// in the index, with no temporary directory.
pub proof fn law_failed_copy_is_undone(events: Seq<CopyItemEvent>)
    ensures
        copy_run(events).0 is Failed ==> copy_run(events).2 == clean_disk(),
        copy_run(events).0 is Copied ==> copy_run(events).2 == (DiskModel {
            temp: false,
            final_dir: true,
            index_changed: true,
        }),
{
    lemma_copy_run_disk(events);
}

/// Once the copy is done, or has failed, later events change nothing.
pub proof fn law_copy_outcome_is_final(events: Seq<CopyItemEvent>, k: int)
    requires
        0 <= k <= events.len(),
        copy_run(events.take(k)).0 is Copied || copy_run(events.take(k)).0 is Failed,
    ensures
        copy_run(events).0 == copy_run(events.take(k)).0,
    decreases events.len() - k,
{
    if k < events.len() {
        assert(events.take(k + 1).drop_last() =~= events.take(k));
        assert(copy_run(events.take(k + 1)).0 == copy_run(events.take(k)).0);
        law_copy_outcome_is_final(events, k + 1);
    } else {
        assert(events.take(k) =~= events);
    }
}

/// A copy whose merged workspace index was written ends copied, whatever
/// is reported after that.
pub proof fn law_written_index_ends_copied(events: Seq<CopyItemEvent>, k: int)
    requires
        0 <= k < events.len(),
        copy_run(events.take(k)).0 is Merging,
        events[k] matches CopyItemEvent::IndexWritten(Ok(())),
    ensures
        copy_run(events).0 is Copied,
{
    assert(events.take(k + 1).drop_last() =~= events.take(k));
    assert(events.take(k + 1).last() == events[k]);
    assert(copy_run(events.take(k + 1)).0 is Copied);
    law_copy_outcome_is_final(events, k + 1);
}

} // verus!
