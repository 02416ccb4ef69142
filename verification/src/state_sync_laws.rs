//! What holds of the dump of a shard, step by step.

use crate::dump_progress::{ProgressRead, StateSyncDumpProgress};
use crate::state_sync::{ActionView, DumpEvent, DumpPhase, TaskState};
use vstd::prelude::*;

verus! {

/// Whether the event answers what the task waits for in its phase.
pub open spec fn answers(phase: DumpPhase, event: DumpEvent) -> bool {
    match (phase, event) {
        (DumpPhase::New, DumpEvent::Started) => true,
        (DumpPhase::Clearing, DumpEvent::ProgressCleared) => true,
        (DumpPhase::Reading, DumpEvent::Progress(read)) => true,
        (DumpPhase::Deleting, DumpEvent::ProgressDeleted) => true,
        (DumpPhase::AwaitHead { last }, DumpEvent::Head(head)) => true,
        (DumpPhase::AwaitSyncHash { last, head_epoch_id }, DumpEvent::SyncHash(found)) => true,
        (DumpPhase::AwaitEpoch { last, epoch_id, sync_hash }, DumpEvent::Epoch(epoch)) => true,
        (
            DumpPhase::AwaitInProgressData { epoch_id, epoch_height, sync_hash },
            DumpEvent::InProgressData(memory_usage),
        ) => true,
        (DumpPhase::AwaitListing { job }, DumpEvent::Listing(listing)) => true,
        (DumpPhase::AwaitPart { job, part_id, selected_idx }, DumpEvent::Part(part)) => true,
        (
            DumpPhase::AwaitUpload { job, part_id, selected_idx, part_len },
            DumpEvent::Uploaded(uploaded),
        ) => true,
        (DumpPhase::Writing { progress, floor }, DumpEvent::ProgressWritten(written)) => true,
        (DumpPhase::Sleeping, DumpEvent::Woke) => true,
        _ => false,
    }
}

/// The height of the epoch of a progress.
pub open spec fn height_of(progress: StateSyncDumpProgress) -> u64 {
    match progress {
        StateSyncDumpProgress::AllDumped { epoch_id, epoch_height, num_parts } => epoch_height,
        StateSyncDumpProgress::InProgress { epoch_id, epoch_height, sync_hash } => epoch_height,
    }
}

/// The height of the progress that was read at the start of the iteration,
/// as far as the phase still knows of one.
pub open spec fn floor_of(phase: DumpPhase) -> Option<u64> {
    match phase {
        DumpPhase::AwaitHead { last: Some(dumped) } => Some(dumped.epoch_height),
        DumpPhase::AwaitSyncHash { last: Some(dumped), head_epoch_id } => Some(
            dumped.epoch_height,
        ),
        DumpPhase::AwaitEpoch { last: Some(dumped), epoch_id, sync_hash } => Some(
            dumped.epoch_height,
        ),
        DumpPhase::AwaitInProgressData { epoch_id, epoch_height, sync_hash } => Some(epoch_height),
        DumpPhase::AwaitListing { job } => Some(job.epoch_height),
        DumpPhase::AwaitPart { job, part_id, selected_idx } => Some(job.epoch_height),
        DumpPhase::AwaitUpload { job, part_id, selected_idx, part_len } => Some(job.epoch_height),
        DumpPhase::Writing { progress, floor } => floor,
        _ => None,
    }
}

/// Whether the chain's heights grow, as far as this step sees the chain: an
/// epoch that is read after a dumped one is no lower than that one.
pub open spec fn heights_grow(phase: DumpPhase, event: DumpEvent) -> bool {
    match (phase, event) {
        (
            DumpPhase::AwaitEpoch { last: Some(dumped), epoch_id, sync_hash },
            DumpEvent::Epoch(Some(info)),
        ) => dumped.epoch_height <= info.epoch_height,
        _ => true,
    }
}

/// Whether the progress that is being written, if any, is no lower than the
/// progress that was read at the start of the iteration.
pub open spec fn heights_kept(phase: DumpPhase) -> bool {
    match phase {
        DumpPhase::Writing { progress, floor: Some(height) } => height <= height_of(progress),
        _ => true,
    }
}

/// The progress of a shard never falls back to a lower epoch.
///
/// Over a chain whose heights grow: the height of the progress that was read
/// at the start of an iteration stays known until the iteration ends, and
/// progress that the task writes in the iteration is of that height or a
/// higher one; a task that has not begun writes nothing. So the heights of
/// the progress that a task writes, one after the other, never fall.
pub proof fn lemma_progress_heights_never_fall(
    state: TaskState,
    event: DumpEvent,
    keep_running: bool,
    now: u64,
    pick: int,
)
    requires
        heights_grow(state.phase, event),
        heights_kept(state.phase),
    ensures
        heights_kept(DumpPhase::New),
        ({
            let after = state.next(event, keep_running, now, pick).0;
            &&& heights_kept(after.phase)
            &&& event matches DumpEvent::Progress(ProgressRead::Found(progress)) ==> (state.phase
                is Reading ==> floor_of(after.phase) == Some(height_of(progress)))
            &&& floor_of(state.phase) matches Some(height) ==> floor_of(after.phase) is None
                || floor_of(after.phase) == Some(height)
            &&& after.phase matches DumpPhase::Writing { progress, floor } ==> (floor matches Some(
                height,
            ) ==> height <= height_of(progress))
        }),
{
}

/// A task that shall not keep running winds down.
///
/// Once `keep_running` is false, no answer makes the task read the progress
/// or obtain another part: at the start of an iteration it ends, and in the
/// midst of dumping parts it writes its progress and then ends.
pub proof fn lemma_stop_is_observed(state: TaskState, event: DumpEvent, now: u64, pick: int)
    requires
        answers(state.phase, event),
    ensures
        ({
            let (after, action) = state.next(event, false, now, pick);
            &&& !(action is ReadProgress)
            &&& !(action is ObtainPart)
            &&& (state.phase is Sleeping || state.phase is Clearing || (state.phase is New
                && !state.restart) || (state.phase is Writing && event == DumpEvent::ProgressWritten(
                true,
            ))) ==> after.phase is Stopped && action is Stop
            &&& (state.phase is AwaitUpload || state.phase is AwaitPart) ==> (after.phase
                is Writing || after.phase is AwaitUpload)
        }),
{
}

/// A shard that the account does not care about is never dumped.
///
/// When the epoch to dump was read and the account does not care about the
/// shard, the task writes that all of the epoch is dumped, with no parts; no
/// part is obtained or uploaded for it.
pub proof fn lemma_untracked_shard_has_no_parts(
    state: TaskState,
    event: DumpEvent,
    keep_running: bool,
    now: u64,
    pick: int,
)
    requires
        state.phase is AwaitEpoch,
        event matches DumpEvent::Epoch(Some(info)) && !info.cares_about_shard,
    ensures
        state.next(event, keep_running, now, pick).1 == (ActionView::WriteProgress {
            progress: StateSyncDumpProgress::AllDumped {
                epoch_id: state.phase->AwaitEpoch_epoch_id,
                epoch_height: event->Epoch_0->Some_0.epoch_height,
                num_parts: 0,
            },
        }),
{
}

/// Parts are drawn without replacement, and only an upload takes one out.
///
/// While the parts of an epoch are dumped, the parts that are left change
/// only when the upload of a part has succeeded; then that part, and no
/// other, leaves them. The task says that all is dumped only when no part is
/// left.
pub proof fn lemma_parts_leave_by_upload(
    state: TaskState,
    event: DumpEvent,
    keep_running: bool,
    now: u64,
    pick: int,
)
    requires
        state.wf(),
        state.phase is AwaitPart || state.phase is AwaitUpload,
    ensures
        ({
            let (after, action) = state.next(event, keep_running, now, pick);
            &&& after.parts_to_dump != state.parts_to_dump ==> {
                &&& state.phase matches DumpPhase::AwaitUpload {
                    job,
                    part_id,
                    selected_idx,
                    part_len,
                }
                &&& event == DumpEvent::Uploaded(true)
                &&& !after.parts_to_dump.contains(part_id)
                &&& forall|part: u64|
                    after.parts_to_dump.contains(part) <==> state.parts_to_dump.contains(part)
                        && part != part_id
            }
            &&& action matches ActionView::WriteProgress {
                progress: StateSyncDumpProgress::AllDumped { epoch_id, epoch_height, num_parts },
            } ==> after.parts_to_dump.len() == 0
        }),
{
    if let DumpPhase::AwaitUpload { job, part_id, selected_idx, part_len } = state.phase {
        crate::state_sync::lemma_swap_remove_distinct(state.parts_to_dump, selected_idx as int);
    }
}

} // verus!
