//! Dumping the state of a shard to external storage, epoch by epoch.
//!
//! One task per shard. The task is a state machine: it is told what
//! happened, and says what to do next. Whoever runs it reads the chain, the
//! progress store and the clock, obtains and uploads the parts, sleeps, and
//! reports back.

use crate::bytes::{put_bytes, put_u64_le, u64_le};
use crate::dump_progress::{EpochId, ProgressRead, StateSyncDumpProgress};
use crate::hash::ValueHash;
use crate::migration_stats::sat_add;
use crate::part_names::{
    external_storage_location, external_storage_location_directory, get_missing_part_ids_for_epoch,
    is_part_filename, location, location_directory, missing_parts, parse_part_name,
};
use crate::store::{DBCol, OpView, Store};
use rand::Rng;
use vstd::prelude::*;

verus! {

/// After this many seconds the dumping of parts is interrupted, and the
/// progress is written.
pub const STATE_DUMP_ITERATION_TIME_LIMIT_SECS: u64 = 300;

/// The number of bytes of state that go into one part.
pub const STATE_PART_MEMORY_LIMIT: u64 = 31457280;

/// Epoch heights from here on are taken for a fault.
pub const EPOCH_HEIGHT_LIMIT: u64 = 10000;

/// The number of parts of a state of `memory_usage` bytes: as many parts of
/// `STATE_PART_MEMORY_LIMIT` bytes as it takes to hold it.
pub open spec fn num_state_parts(memory_usage: u64) -> u64 {
    ((memory_usage + STATE_PART_MEMORY_LIMIT - 1) / STATE_PART_MEMORY_LIMIT as int) as u64
}

/// The number of parts of a state of `memory_usage` bytes.
pub fn get_num_state_parts(memory_usage: u64) -> (num_parts: u64)
    ensures
        num_parts == num_state_parts(memory_usage),
        num_parts * STATE_PART_MEMORY_LIMIT >= memory_usage,
        num_parts > 0 ==> (num_parts - 1) * STATE_PART_MEMORY_LIMIT < memory_usage,
{
    let whole: u64 = memory_usage / STATE_PART_MEMORY_LIMIT;
    if memory_usage % STATE_PART_MEMORY_LIMIT == 0 {
        whole
    } else {
        whole + 1
    }
}

/// The key of a state part: the block that pins the state, then the shard
/// and the part number, each as eight little-endian bytes.
pub open spec fn state_part_key(sync_hash: Seq<u8>, shard_id: u64, part_id: u64) -> Seq<u8> {
    sync_hash + u64_le(shard_id) + u64_le(part_id)
}

/// The key of part `part_id` of shard `shard_id` in the state pinned by
/// `sync_hash`.
pub fn get_state_part_key(sync_hash: &ValueHash, shard_id: u64, part_id: u64) -> (key: Vec<u8>)
    ensures
        key@ == state_part_key(sync_hash@, shard_id, part_id),
        key@.len() == 48,
{
    let mut key: Vec<u8> = Vec::new();
    put_bytes(&mut key, sync_hash.as_bytes());
    put_u64_le(&mut key, shard_id);
    put_u64_le(&mut key, part_id);
    key
}

/// Keeps an obtained state part: stores its bytes under its key in the
/// column of state parts, and hands them back for the upload.
pub fn obtain_and_store_state_part(
    store: &mut Store,
    shard_id: u64,
    sync_hash: &ValueHash,
    part_id: u64,
    state_part: Vec<u8>,
) -> (stored: Vec<u8>)
    ensures
        stored@ == state_part@,
        final(store)@.wf(),
        final(store)@ == old(store)@.apply(
            OpView::Put {
                col: DBCol::StateParts,
                key: state_part_key(sync_hash@, shard_id, part_id),
                value: state_part@,
            },
        ),
{
    let key = get_state_part_key(sync_hash, shard_id, part_id);
    let mut store_update = store.store_update();
    store_update.set(DBCol::StateParts, key.as_slice(), state_part.as_slice());
    proof {
        assert(old(store)@.apply_all(store_update@.drop_last()) == old(store)@);
    }
    store_update.commit(store);
    state_part
}

/// Calls `rand::thread_rng()` and `Rng::gen_range` on `0..len`. Trusted: the
/// number that comes back lies in the range. Which one it is, is chance.
#[verifier::external_body]
fn random_index(len: usize) -> (index: usize)
    requires
        len > 0,
    ensures
        index < len,
{
    rand::thread_rng().gen_range(0..len)
}

/// Picks one of the parts that are left, by chance, and returns it with its
/// position.
pub fn select_random_part_id_with_index(parts_to_be_dumped: &Vec<u64>) -> (selected: (u64, usize))
    requires
        parts_to_be_dumped@.len() > 0,
    ensures
        selected.1 < parts_to_be_dumped@.len(),
        selected.0 == parts_to_be_dumped@[selected.1 as int],
{
    let selected_idx = random_index(parts_to_be_dumped.len());
    let selected_element = parts_to_be_dumped[selected_idx];
    (selected_element, selected_idx)
}

/// What is known of the dump of one shard, for whoever watches it.
#[derive(Clone, Copy, Debug, PartialEq, Eq, Structural)]
pub struct DumpMetrics {
    /// Parts of the current epoch that were dumped.
    pub num_parts_dumped: u64,
    /// Parts of the current epoch.
    pub num_parts_total: u64,
    /// Height of the current epoch.
    pub epoch_height: u64,
    /// Bytes that were uploaded.
    pub dumped_size_total: u64,
}

/// The metrics after the given values were set; a value that is `None`
/// leaves its metric as it is.
pub open spec fn metrics_set(
    metrics: DumpMetrics,
    parts_dumped: Option<u64>,
    num_parts: Option<u64>,
    epoch_height: Option<u64>,
) -> DumpMetrics {
    DumpMetrics {
        num_parts_dumped: match parts_dumped {
            Some(n) => n,
            None => metrics.num_parts_dumped,
        },
        num_parts_total: match num_parts {
            Some(n) => n,
            None => metrics.num_parts_total,
        },
        epoch_height: match epoch_height {
            Some(h) => h,
            None => metrics.epoch_height,
        },
        dumped_size_total: metrics.dumped_size_total,
    }
}

/// The metrics after one more part of `part_len` bytes was uploaded.
pub open spec fn metrics_after_part(metrics: DumpMetrics, part_len: u64) -> DumpMetrics {
    DumpMetrics {
        num_parts_dumped: sat_add(metrics.num_parts_dumped, 1),
        dumped_size_total: sat_add(metrics.dumped_size_total, part_len as int),
        ..metrics
    }
}

/// Sets the metrics that are given. An epoch height of `EPOCH_HEIGHT_LIMIT`
/// or more is a fault of the caller.
pub fn set_metrics(
    metrics: &mut DumpMetrics,
    parts_dumped: Option<u64>,
    num_parts: Option<u64>,
    epoch_height: Option<u64>,
)
    requires
        epoch_height matches Some(height) ==> height < EPOCH_HEIGHT_LIMIT,
    ensures
        *final(metrics) == metrics_set(*old(metrics), parts_dumped, num_parts, epoch_height),
{
    if let Some(parts_dumped) = parts_dumped {
        metrics.num_parts_dumped = parts_dumped;
    }
    if let Some(num_parts) = num_parts {
        metrics.num_parts_total = num_parts;
    }
    if let Some(epoch_height) = epoch_height {
        metrics.epoch_height = epoch_height;
    }
}

/// Counts one uploaded part of `part_len` bytes.
pub fn update_dumped_size_and_cnt_metrics(metrics: &mut DumpMetrics, part_len: u64)
    ensures
        *final(metrics) == metrics_after_part(*old(metrics), part_len),
{
    metrics.dumped_size_total = metrics.dumped_size_total.saturating_add(part_len);
    metrics.num_parts_dumped = metrics.num_parts_dumped.saturating_add(1);
}

/// The epoch that was dumped last.
#[derive(Clone, Copy, Debug, PartialEq, Eq)]
pub struct LastDumped {
    pub epoch_id: EpochId,
    pub epoch_height: u64,
    pub num_parts: u64,
}

/// The epoch whose parts are being dumped.
#[derive(Clone, Copy, Debug, PartialEq, Eq)]
pub struct DumpJob {
    pub epoch_id: EpochId,
    pub epoch_height: u64,
    pub sync_hash: ValueHash,
    pub num_parts: u64,
}

/// Where the first block of an epoch is, and which epoch that is.
#[derive(Clone, Copy, Debug, PartialEq, Eq)]
pub struct SyncInfo {
    pub sync_hash: ValueHash,
    pub epoch_id: EpochId,
}

/// What the chain says of an epoch that may be dumped.
#[derive(Clone, Copy, Debug, PartialEq, Eq)]
pub struct EpochInfo {
    pub epoch_height: u64,
    /// Bytes that the state of the shard takes.
    pub memory_usage: u64,
    /// Whether the account of this node cares about the shard.
    pub cares_about_shard: bool,
}

/// What the task waits for.
#[derive(Clone, Copy, Debug, PartialEq, Eq)]
pub enum DumpPhase {
    /// The task has not begun.
    New,
    /// The old progress is being cleared.
    Clearing,
    /// The progress is being read.
    Reading,
    /// Progress that could not be read is being deleted.
    Deleting,
    /// The head of the chain is being read.
    AwaitHead { last: Option<LastDumped> },
    /// The first block of the epoch of the last final block is being found.
    AwaitSyncHash { last: Option<LastDumped>, head_epoch_id: EpochId },
    /// The epoch to dump is being read.
    AwaitEpoch { last: Option<LastDumped>, epoch_id: EpochId, sync_hash: ValueHash },
    /// The size of the state that is being dumped is being read.
    AwaitInProgressData { epoch_id: EpochId, epoch_height: u64, sync_hash: ValueHash },
    /// The parts in external storage are being listed.
    AwaitListing { job: DumpJob },
    /// A part is being obtained and stored.
    AwaitPart { job: DumpJob, part_id: u64, selected_idx: usize },
    /// A part is being uploaded.
    AwaitUpload { job: DumpJob, part_id: u64, selected_idx: usize, part_len: u64 },
    /// The progress is being written.
    Writing { progress: StateSyncDumpProgress, floor: Option<u64> },
    /// The task sleeps.
    Sleeping,
    /// The task has ended.
    Stopped,
    /// The task has met a fault and does nothing more.
    Aborted,
}

/// What happened.
#[derive(Clone, Debug, PartialEq, Eq)]
pub enum DumpEvent {
    /// The task begins.
    Started,
    /// The old progress was cleared.
    ProgressCleared,
    /// The progress was read.
    Progress(ProgressRead),
    /// The progress was deleted, or the attempt failed.
    ProgressDeleted,
    /// The epoch of the head was read; `None` where the chain gave an error.
    Head(Option<EpochId>),
    /// The first block of the epoch was found; `None` where the chain gave
    /// an error.
    SyncHash(Option<SyncInfo>),
    /// The epoch was read; `None` where the chain gave an error.
    Epoch(Option<EpochInfo>),
    /// The number of bytes of the state was read; `None` where the chain
    /// gave an error.
    InProgressData(Option<u64>),
    /// The directory was listed; `None` where external storage gave an
    /// error.
    Listing(Option<Vec<Vec<u8>>>),
    /// The part was obtained and stored, and has this many bytes; `None`
    /// where that failed.
    Part(Option<u64>),
    /// The part was uploaded, or the upload failed.
    Uploaded(bool),
    /// The progress was written, or the write failed.
    ProgressWritten(bool),
    /// The sleep is over.
    Woke,
}

/// What to do next.
#[derive(Clone, Debug, PartialEq, Eq)]
pub enum DumpAction {
    /// Remove the progress of the shard, then report `ProgressCleared`.
    ClearProgress,
    /// Read the progress of the shard, then report `Progress`.
    ReadProgress,
    /// Try to remove the progress of the shard, then report
    /// `ProgressDeleted`.
    DeleteProgress,
    /// Read the epoch of the head of the chain, then report `Head`.
    ReadHead,
    /// Find the first block of the epoch of the head's last final block,
    /// then report `SyncHash`.
    FindSyncHash,
    /// Read height, state size and tracking of the epoch, then report
    /// `Epoch`.
    ReadEpoch { epoch_id: EpochId, sync_hash: ValueHash },
    /// Read the state size at `sync_hash`, then report `InProgressData`.
    ReadInProgressData { sync_hash: ValueHash },
    /// List `directory` in external storage, then report `Listing`.
    ListParts { directory: Vec<u8> },
    /// Obtain the part and store it, then report `Part`.
    ObtainPart { sync_hash: ValueHash, part_id: u64, num_parts: u64 },
    /// Upload the part to `location`, then report `Uploaded`.
    UploadPart { location: Vec<u8> },
    /// Write the progress of the shard, then report `ProgressWritten`.
    WriteProgress { progress: StateSyncDumpProgress },
    /// Sleep for the delay between iterations, then report `Woke`.
    Sleep,
    /// The task has ended.
    Stop,
    /// The task has met a fault: an epoch height that cannot be, or a
    /// listing with a name that is no part's.
    Abort,
}

/// What a `DumpAction` stands for.
pub enum ActionView {
    ClearProgress,
    ReadProgress,
    DeleteProgress,
    ReadHead,
    FindSyncHash,
    ReadEpoch { epoch_id: EpochId, sync_hash: ValueHash },
    ReadInProgressData { sync_hash: ValueHash },
    ListParts { directory: Seq<u8> },
    ObtainPart { sync_hash: ValueHash, part_id: u64, num_parts: u64 },
    UploadPart { location: Seq<u8> },
    WriteProgress { progress: StateSyncDumpProgress },
    Sleep,
    Stop,
    Abort,
}

impl View for DumpAction {
    type V = ActionView;

    open spec fn view(&self) -> ActionView {
        match self {
            DumpAction::ClearProgress => ActionView::ClearProgress,
            DumpAction::ReadProgress => ActionView::ReadProgress,
            DumpAction::DeleteProgress => ActionView::DeleteProgress,
            DumpAction::ReadHead => ActionView::ReadHead,
            DumpAction::FindSyncHash => ActionView::FindSyncHash,
            DumpAction::ReadEpoch { epoch_id, sync_hash } => ActionView::ReadEpoch {
                epoch_id: *epoch_id,
                sync_hash: *sync_hash,
            },
            DumpAction::ReadInProgressData { sync_hash } => ActionView::ReadInProgressData {
                sync_hash: *sync_hash,
            },
            DumpAction::ListParts { directory } => ActionView::ListParts { directory: directory@ },
            DumpAction::ObtainPart { sync_hash, part_id, num_parts } => ActionView::ObtainPart {
                sync_hash: *sync_hash,
                part_id: *part_id,
                num_parts: *num_parts,
            },
            DumpAction::UploadPart { location } => ActionView::UploadPart { location: location@ },
            DumpAction::WriteProgress { progress } => ActionView::WriteProgress {
                progress: *progress,
            },
            DumpAction::Sleep => ActionView::Sleep,
            DumpAction::Stop => ActionView::Stop,
            DumpAction::Abort => ActionView::Abort,
        }
    }
}

/// The state of a task.
pub struct TaskState {
    pub shard_id: u64,
    pub chain_id: Seq<u8>,
    /// Whether old progress is cleared when the task begins.
    pub restart: bool,
    pub phase: DumpPhase,
    /// The parts of the current epoch that are left to dump.
    pub parts_to_dump: Seq<u64>,
    /// When the dumping of parts began, in seconds.
    pub started_at: u64,
    pub metrics: DumpMetrics,
}

/// A state with what follows it: the next state and the action.
pub type Outcome = (TaskState, ActionView);

impl TaskState {
    /// What every state of a task satisfies: no part is left twice, and
    /// while a part is obtained or uploaded, it is the part at the position
    /// that was drawn.
    pub open spec fn wf(self) -> bool {
        &&& self.parts_to_dump.no_duplicates()
        &&& match self.phase {
            DumpPhase::AwaitPart { job, part_id, selected_idx } => selected_idx
                < self.parts_to_dump.len() && self.parts_to_dump[selected_idx as int] == part_id,
            DumpPhase::AwaitUpload { job, part_id, selected_idx, part_len } => selected_idx
                < self.parts_to_dump.len() && self.parts_to_dump[selected_idx as int] == part_id,
            _ => true,
        }
    }

    /// The state in another phase.
    pub open spec fn in_phase(self, phase: DumpPhase) -> TaskState {
        TaskState { phase, ..self }
    }

    /// The task goes to sleep.
    pub open spec fn sleep(self) -> Outcome {
        (self.in_phase(DumpPhase::Sleeping), ActionView::Sleep)
    }

    /// The task stops on a fault.
    pub open spec fn abort(self) -> Outcome {
        (self.in_phase(DumpPhase::Aborted), ActionView::Abort)
    }

    /// The task writes progress; `floor` is the height of the progress that
    /// was read at the start of the iteration.
    pub open spec fn write(self, progress: StateSyncDumpProgress, floor: Option<u64>) -> Outcome {
        (
            self.in_phase(DumpPhase::Writing { progress, floor }),
            ActionView::WriteProgress { progress },
        )
    }

    /// The start of an iteration: the task ends if it shall not keep
    /// running, and reads the progress otherwise.
    pub open spec fn loop_top(self, keep_running: bool) -> Outcome {
        if keep_running {
            (self.in_phase(DumpPhase::Reading), ActionView::ReadProgress)
        } else {
            (self.in_phase(DumpPhase::Stopped), ActionView::Stop)
        }
    }

    /// The progress was read: a finished or unknown epoch leads to a look at
    /// the head of the chain, an epoch in progress to its parts, and a
    /// failed read to the deletion of the progress.
    pub open spec fn on_progress(self, read: ProgressRead) -> Outcome {
        match read {
            ProgressRead::Found(
                StateSyncDumpProgress::AllDumped { epoch_id, epoch_height, num_parts },
            ) => (
                self.in_phase(
                    DumpPhase::AwaitHead {
                        last: Some(LastDumped { epoch_id, epoch_height, num_parts }),
                    },
                ),
                ActionView::ReadHead,
            ),
            ProgressRead::Found(
                StateSyncDumpProgress::InProgress { epoch_id, epoch_height, sync_hash },
            ) => (
                self.in_phase(DumpPhase::AwaitInProgressData { epoch_id, epoch_height, sync_hash }),
                ActionView::ReadInProgressData { sync_hash },
            ),
            ProgressRead::Absent | ProgressRead::Undecodable => (
                self.in_phase(DumpPhase::AwaitHead { last: None }),
                ActionView::ReadHead,
            ),
            ProgressRead::Failed => (
                self.in_phase(DumpPhase::Deleting),
                ActionView::DeleteProgress,
            ),
        }
    }

    /// The head was read. Where its epoch is the epoch dumped last, there is
    /// nothing to do but to set the metrics; else the first block of the
    /// epoch is looked for.
    pub open spec fn on_head(self, last: Option<LastDumped>, head: Option<EpochId>) -> Outcome {
        match head {
            None => self.sleep(),
            Some(head_epoch_id) => match last {
                Some(dumped) => if dumped.epoch_id == head_epoch_id {
                    if dumped.epoch_height < EPOCH_HEIGHT_LIMIT {
                        TaskState {
                            metrics: metrics_set(
                                self.metrics,
                                Some(dumped.num_parts),
                                Some(dumped.num_parts),
                                Some(dumped.epoch_height),
                            ),
                            ..self
                        }.sleep()
                    } else {
                        self.abort()
                    }
                } else {
                    (
                        self.in_phase(DumpPhase::AwaitSyncHash { last, head_epoch_id }),
                        ActionView::FindSyncHash,
                    )
                },
                None => (
                    self.in_phase(DumpPhase::AwaitSyncHash { last, head_epoch_id }),
                    ActionView::FindSyncHash,
                ),
            },
        }
    }

    /// The first block of the epoch was found. Where it lies in the epoch
    /// dumped last, there is nothing to do; else the epoch of the head is
    /// read.
    pub open spec fn on_sync_hash(
        self,
        last: Option<LastDumped>,
        head_epoch_id: EpochId,
        found: Option<SyncInfo>,
    ) -> Outcome {
        match found {
            None => self.sleep(),
            Some(info) => if last is Some && last->Some_0.epoch_id == info.epoch_id {
                self.sleep()
            } else {
                (
                    self.in_phase(
                        DumpPhase::AwaitEpoch {
                            last,
                            epoch_id: head_epoch_id,
                            sync_hash: info.sync_hash,
                        },
                    ),
                    ActionView::ReadEpoch { epoch_id: head_epoch_id, sync_hash: info.sync_hash },
                )
            },
        }
    }

    /// The epoch was read. A shard that the account cares about is set in
    /// progress; for any other shard the epoch counts as dumped, with no
    /// parts.
    pub open spec fn on_epoch(
        self,
        last: Option<LastDumped>,
        epoch_id: EpochId,
        sync_hash: ValueHash,
        epoch: Option<EpochInfo>,
    ) -> Outcome {
        let floor = match last {
            Some(dumped) => Some(dumped.epoch_height),
            None => None,
        };
        match epoch {
            None => self.sleep(),
            Some(info) => if info.cares_about_shard {
                if info.epoch_height < EPOCH_HEIGHT_LIMIT {
                    TaskState {
                        metrics: metrics_set(
                            self.metrics,
                            Some(0),
                            Some(num_state_parts(info.memory_usage)),
                            Some(info.epoch_height),
                        ),
                        ..self
                    }.write(
                        StateSyncDumpProgress::InProgress {
                            epoch_id,
                            epoch_height: info.epoch_height,
                            sync_hash,
                        },
                        floor,
                    )
                } else {
                    self.abort()
                }
            } else {
                self.write(
                    StateSyncDumpProgress::AllDumped {
                        epoch_id,
                        epoch_height: info.epoch_height,
                        num_parts: 0,
                    },
                    floor,
                )
            },
        }
    }

    /// The size of the state was read: the directory of the epoch is listed.
    pub open spec fn on_in_progress_data(
        self,
        epoch_id: EpochId,
        epoch_height: u64,
        sync_hash: ValueHash,
        memory_usage: Option<u64>,
    ) -> Outcome {
        match memory_usage {
            None => self.sleep(),
            Some(bytes) => (
                self.in_phase(
                    DumpPhase::AwaitListing {
                        job: DumpJob {
                            epoch_id,
                            epoch_height,
                            sync_hash,
                            num_parts: num_state_parts(bytes),
                        },
                    },
                ),
                ActionView::ListParts {
                    directory: location_directory(self.chain_id, epoch_height, self.shard_id),
                },
            ),
        }
    }

    /// The progress that ends the dumping of parts: all dumped where no part
    /// is left, in progress as before otherwise.
    pub open spec fn finish(self, job: DumpJob) -> Outcome {
        if self.parts_to_dump.len() == 0 {
            self.write(
                StateSyncDumpProgress::AllDumped {
                    epoch_id: job.epoch_id,
                    epoch_height: job.epoch_height,
                    num_parts: job.num_parts,
                },
                Some(job.epoch_height),
            )
        } else {
            self.write(
                StateSyncDumpProgress::InProgress {
                    epoch_id: job.epoch_id,
                    epoch_height: job.epoch_height,
                    sync_hash: job.sync_hash,
                },
                Some(job.epoch_height),
            )
        }
    }

    /// Whether another part is dumped: the task shall keep running, the time
    /// for dumping is not over, and a part is left.
    pub open spec fn goes_on(self, keep_running: bool, now: u64) -> bool {
        &&& keep_running
        &&& now - self.started_at < STATE_DUMP_ITERATION_TIME_LIMIT_SECS
        &&& self.parts_to_dump.len() > 0
    }

    /// Before each part: the part at position `pick` is obtained where the
    /// dumping goes on, and the progress is written where it does not.
    pub open spec fn next_part(self, job: DumpJob, keep_running: bool, now: u64, pick: int) -> Outcome {
        if self.goes_on(keep_running, now) {
            (
                self.in_phase(
                    DumpPhase::AwaitPart {
                        job,
                        part_id: self.parts_to_dump[pick],
                        selected_idx: pick as usize,
                    },
                ),
                ActionView::ObtainPart {
                    sync_hash: job.sync_hash,
                    part_id: self.parts_to_dump[pick],
                    num_parts: job.num_parts,
                },
            )
        } else {
            self.finish(job)
        }
    }

    /// The directory was listed: the parts that are not there are left to
    /// dump. With none left the epoch is dumped.
    pub open spec fn on_listing(
        self,
        job: DumpJob,
        listing: Option<Vec<Vec<u8>>>,
        keep_running: bool,
        now: u64,
        pick: int,
    ) -> Outcome {
        match listing {
            None => self.sleep(),
            Some(file_names) => if !all_part_names(file_names@) {
                self.abort()
            } else {
                let left = TaskState {
                    parts_to_dump: missing_parts(job.num_parts, file_names@),
                    started_at: now,
                    ..self
                };
                left.next_part(job, keep_running, now, pick)
            },
        }
    }

    /// The part was obtained, or not. An obtained part is uploaded; a part
    /// that cannot be obtained ends the dumping of parts for now.
    pub open spec fn on_part(self, job: DumpJob, part_id: u64, selected_idx: usize, part: Option<u64>) -> Outcome {
        match part {
            None => self.finish(job),
            Some(part_len) => (
                self.in_phase(DumpPhase::AwaitUpload { job, part_id, selected_idx, part_len }),
                ActionView::UploadPart {
                    location: location(
                        self.chain_id,
                        job.epoch_height,
                        self.shard_id,
                        part_id,
                        job.num_parts,
                    ),
                },
            ),
        }
    }

    /// The part was uploaded, or not. An uploaded part leaves the parts that
    /// are left, and is counted; a part whose upload failed stays.
    pub open spec fn on_uploaded(
        self,
        job: DumpJob,
        selected_idx: usize,
        part_len: u64,
        uploaded: bool,
        keep_running: bool,
        now: u64,
        pick: int,
    ) -> Outcome {
        if uploaded {
            TaskState {
                parts_to_dump: self.parts_to_dump.update(
                    selected_idx as int,
                    self.parts_to_dump.last(),
                ).drop_last(),
                metrics: metrics_after_part(self.metrics, part_len),
                ..self
            }.next_part(job, keep_running, now, pick)
        } else {
            self.next_part(job, keep_running, now, pick)
        }
    }

    /// What the task waits for in its phase.
    pub open spec fn pending(self) -> ActionView {
        match self.phase {
            DumpPhase::New => ActionView::Sleep,
            DumpPhase::Clearing => ActionView::ClearProgress,
            DumpPhase::Reading => ActionView::ReadProgress,
            DumpPhase::Deleting => ActionView::DeleteProgress,
            DumpPhase::AwaitHead { last } => ActionView::ReadHead,
            DumpPhase::AwaitSyncHash { last, head_epoch_id } => ActionView::FindSyncHash,
            DumpPhase::AwaitEpoch { last, epoch_id, sync_hash } => ActionView::ReadEpoch {
                epoch_id,
                sync_hash,
            },
            DumpPhase::AwaitInProgressData {
                epoch_id,
                epoch_height,
                sync_hash,
            } => ActionView::ReadInProgressData { sync_hash },
            DumpPhase::AwaitListing { job } => ActionView::ListParts {
                directory: location_directory(self.chain_id, job.epoch_height, self.shard_id),
            },
            DumpPhase::AwaitPart { job, part_id, selected_idx } => ActionView::ObtainPart {
                sync_hash: job.sync_hash,
                part_id,
                num_parts: job.num_parts,
            },
            DumpPhase::AwaitUpload { job, part_id, selected_idx, part_len } => ActionView::UploadPart {
                location: location(
                    self.chain_id,
                    job.epoch_height,
                    self.shard_id,
                    part_id,
                    job.num_parts,
                ),
            },
            DumpPhase::Writing { progress, floor } => ActionView::WriteProgress { progress },
            DumpPhase::Sleeping => ActionView::Sleep,
            DumpPhase::Stopped => ActionView::Stop,
            DumpPhase::Aborted => ActionView::Abort,
        }
    }

    /// The next state and the action, for a state and what happened. `pick`
    /// is the position that chance draws where a part is to be obtained. An
    /// event that does not answer what the task waits for changes nothing,
    /// and the task asks again.
    pub open spec fn next(self, event: DumpEvent, keep_running: bool, now: u64, pick: int) -> Outcome {
        match (self.phase, event) {
            (DumpPhase::New, DumpEvent::Started) => if self.restart {
                (self.in_phase(DumpPhase::Clearing), ActionView::ClearProgress)
            } else {
                self.loop_top(keep_running)
            },
            (DumpPhase::Clearing, DumpEvent::ProgressCleared) => self.loop_top(keep_running),
            (DumpPhase::Reading, DumpEvent::Progress(read)) => self.on_progress(read),
            (DumpPhase::Deleting, DumpEvent::ProgressDeleted) => self.sleep(),
            (DumpPhase::AwaitHead { last }, DumpEvent::Head(head)) => self.on_head(last, head),
            (
                DumpPhase::AwaitSyncHash { last, head_epoch_id },
                DumpEvent::SyncHash(found),
            ) => self.on_sync_hash(last, head_epoch_id, found),
            (DumpPhase::AwaitEpoch { last, epoch_id, sync_hash }, DumpEvent::Epoch(epoch)) => self.on_epoch(
                last,
                epoch_id,
                sync_hash,
                epoch,
            ),
            (
                DumpPhase::AwaitInProgressData { epoch_id, epoch_height, sync_hash },
                DumpEvent::InProgressData(memory_usage),
            ) => self.on_in_progress_data(epoch_id, epoch_height, sync_hash, memory_usage),
            (DumpPhase::AwaitListing { job }, DumpEvent::Listing(listing)) => self.on_listing(
                job,
                listing,
                keep_running,
                now,
                pick,
            ),
            (DumpPhase::AwaitPart { job, part_id, selected_idx }, DumpEvent::Part(part)) => self.on_part(
                job,
                part_id,
                selected_idx,
                part,
            ),
            (
                DumpPhase::AwaitUpload { job, part_id, selected_idx, part_len },
                DumpEvent::Uploaded(uploaded),
            ) => self.on_uploaded(job, selected_idx, part_len, uploaded, keep_running, now, pick),
            (DumpPhase::Writing { progress, floor }, DumpEvent::ProgressWritten(written)) => if written {
                self.loop_top(keep_running)
            } else {
                self.sleep()
            },
            (DumpPhase::Sleeping, DumpEvent::Woke) => self.loop_top(keep_running),
            _ => (self, self.pending()),
        }
    }
}

/// Whether every name is the name of a part.
pub open spec fn all_part_names(file_names: Seq<Vec<u8>>) -> bool {
    forall|i: int| 0 <= i < file_names.len() ==> parse_part_name((#[trigger] file_names[i])@) is Some
}

/// The position that was drawn, where a part is being obtained.
pub open spec fn picked(phase: DumpPhase) -> int {
    match phase {
        DumpPhase::AwaitPart { job, part_id, selected_idx } => selected_idx as int,
        _ => 0,
    }
}

/// Whether every name in `file_names` is the name of a part.
pub fn are_part_filenames(file_names: &Vec<Vec<u8>>) -> (all: bool)
    ensures
        all == all_part_names(file_names@),
{
    let mut i: usize = 0;
    while i < file_names.len()
        invariant
            i <= file_names@.len(),
            forall|k: int| 0 <= k < i ==> parse_part_name((#[trigger] file_names@[k])@) is Some,
        decreases file_names@.len() - i,
    {
        if !is_part_filename(file_names[i].as_slice()) {
            return false;
        }
        i += 1;
    }
    true
}

/// Whether `shard_id` is among the shards whose dump is to start afresh.
pub fn is_restarted(restart_dump_for_shards: &Vec<u64>, shard_id: u64) -> (restart: bool)
    ensures
        restart == restart_dump_for_shards@.contains(shard_id),
{
    let mut i: usize = 0;
    while i < restart_dump_for_shards.len()
        invariant
            i <= restart_dump_for_shards@.len(),
            forall|k: int| 0 <= k < i ==> restart_dump_for_shards@[k] != shard_id,
        decreases restart_dump_for_shards@.len() - i,
    {
        if restart_dump_for_shards[i] == shard_id {
            return true;
        }
        i += 1;
    }
    false
}

/// The task that dumps the state of one shard.
pub struct DumpTask {
    shard_id: u64,
    chain_id: Vec<u8>,
    restart: bool,
    phase: DumpPhase,
    parts_to_dump: Vec<u64>,
    started_at: u64,
    metrics: DumpMetrics,
}

impl View for DumpTask {
    type V = TaskState;

    closed spec fn view(&self) -> TaskState {
        TaskState {
            shard_id: self.shard_id,
            chain_id: self.chain_id@,
            restart: self.restart,
            phase: self.phase,
            parts_to_dump: self.parts_to_dump@,
            started_at: self.started_at,
            metrics: self.metrics,
        }
    }
}

impl DumpTask {
    #[verifier::type_invariant]
    spec fn valid(&self) -> bool {
        self@.wf()
    }

    /// A task for shard `shard_id` of chain `chain_id` that has not begun.
    /// It clears old progress when it begins if the shard is among
    /// `restart_dump_for_shards`.
    pub fn new(shard_id: u64, chain_id: Vec<u8>, restart_dump_for_shards: &Vec<u64>) -> (task: DumpTask)
        ensures
            task@ == (TaskState {
                shard_id,
                chain_id: chain_id@,
                restart: restart_dump_for_shards@.contains(shard_id),
                phase: DumpPhase::New,
                parts_to_dump: Seq::<u64>::empty(),
                started_at: 0,
                metrics: DumpMetrics {
                    num_parts_dumped: 0,
                    num_parts_total: 0,
                    epoch_height: 0,
                    dumped_size_total: 0,
                },
            }),
            task@.wf(),
    {
        let restart = is_restarted(restart_dump_for_shards, shard_id);
        DumpTask {
            shard_id,
            chain_id,
            restart,
            phase: DumpPhase::New,
            parts_to_dump: Vec::new(),
            started_at: 0,
            metrics: DumpMetrics {
                num_parts_dumped: 0,
                num_parts_total: 0,
                epoch_height: 0,
                dumped_size_total: 0,
            },
        }
    }

    /// What the task waits for.
    pub fn phase(&self) -> (phase: DumpPhase)
        ensures
            phase == self@.phase,
            self@.wf(),
    {
        proof {
            use_type_invariant(self);
        }
        self.phase
    }

    /// The metrics of the task.
    pub fn metrics(&self) -> (metrics: DumpMetrics)
        ensures
            metrics == self@.metrics,
    {
        self.metrics
    }

    /// The parts of the current epoch that are left to dump.
    pub fn parts_to_dump(&self) -> (parts: &Vec<u64>)
        ensures
            parts@ == self@.parts_to_dump,
    {
        &self.parts_to_dump
    }

    /// The action that the task waits for.
    pub fn pending_action(&self) -> (action: DumpAction)
        ensures
            action@ == self@.pending(),
    {
        match self.phase {
            DumpPhase::New => DumpAction::Sleep,
            DumpPhase::Clearing => DumpAction::ClearProgress,
            DumpPhase::Reading => DumpAction::ReadProgress,
            DumpPhase::Deleting => DumpAction::DeleteProgress,
            DumpPhase::AwaitHead { last } => DumpAction::ReadHead,
            DumpPhase::AwaitSyncHash { last, head_epoch_id } => DumpAction::FindSyncHash,
            DumpPhase::AwaitEpoch { last, epoch_id, sync_hash } => DumpAction::ReadEpoch {
                epoch_id,
                sync_hash,
            },
            DumpPhase::AwaitInProgressData {
                epoch_id,
                epoch_height,
                sync_hash,
            } => DumpAction::ReadInProgressData { sync_hash },
            DumpPhase::AwaitListing { job } => DumpAction::ListParts {
                directory: external_storage_location_directory(
                    self.chain_id.as_slice(),
                    &job.epoch_id,
                    job.epoch_height,
                    self.shard_id,
                ),
            },
            DumpPhase::AwaitPart { job, part_id, selected_idx } => DumpAction::ObtainPart {
                sync_hash: job.sync_hash,
                part_id,
                num_parts: job.num_parts,
            },
            DumpPhase::AwaitUpload { job, part_id, selected_idx, part_len } => DumpAction::UploadPart {
                location: external_storage_location(
                    self.chain_id.as_slice(),
                    &job.epoch_id,
                    job.epoch_height,
                    self.shard_id,
                    part_id,
                    job.num_parts,
                ),
            },
            DumpPhase::Writing { progress, floor } => DumpAction::WriteProgress { progress },
            DumpPhase::Sleeping => DumpAction::Sleep,
            DumpPhase::Stopped => DumpAction::Stop,
            DumpPhase::Aborted => DumpAction::Abort,
        }
    }

    /// Takes the task one step on: from its state and what happened to the
    /// next state and the action. `keep_running` says whether the task shall
    /// keep running, `now` is the time in seconds. Where a part is to be
    /// obtained, chance draws it from the parts that are left.
    pub fn step(self, event: DumpEvent, keep_running: bool, now: u64) -> (next: (DumpTask, DumpAction))
        ensures
            (next.0@, next.1@) == self@.next(event, keep_running, now, picked(next.0@.phase)),
            next.0@.wf(),
    {
        proof {
            use_type_invariant(&self);
        }
        let ghost before = self@;
        let DumpTask { shard_id, chain_id, restart, phase, parts_to_dump, started_at, metrics } =
            self;
        let mut parts_to_dump = parts_to_dump;
        let mut started_at = started_at;
        let mut metrics = metrics;
        // What the step decides: the next phase and the action, or that the
        // next part is to be drawn for a job, or that the task asks again.
        let mut decided: Option<(DumpPhase, DumpAction)> = None;
        let mut draw_for: Option<DumpJob> = None;
        match (phase, event) {
            (DumpPhase::New, DumpEvent::Started) => {
                decided =
                Some(
                    if restart {
                        (DumpPhase::Clearing, DumpAction::ClearProgress)
                    } else {
                        loop_top(keep_running)
                    },
                );
            },
            (DumpPhase::Clearing, DumpEvent::ProgressCleared) => {
                decided = Some(loop_top(keep_running));
            },
            (DumpPhase::Reading, DumpEvent::Progress(read)) => {
                decided = Some(dispatch_progress(read));
            },
            (DumpPhase::Deleting, DumpEvent::ProgressDeleted) => {
                decided = Some((DumpPhase::Sleeping, DumpAction::Sleep));
            },
            (DumpPhase::AwaitHead { last }, DumpEvent::Head(head)) => {
                decided = Some(check_new_epoch(last, head, &mut metrics));
            },
            (DumpPhase::AwaitSyncHash { last, head_epoch_id }, DumpEvent::SyncHash(found)) => {
                decided = Some(check_sync_hash(last, head_epoch_id, found));
            },
            (DumpPhase::AwaitEpoch { last, epoch_id, sync_hash }, DumpEvent::Epoch(epoch)) => {
                decided = Some(start_dumping(last, epoch_id, sync_hash, epoch, &mut metrics));
            },
            (
                DumpPhase::AwaitInProgressData { epoch_id, epoch_height, sync_hash },
                DumpEvent::InProgressData(memory_usage),
            ) => {
                decided =
                Some(
                    match memory_usage {
                        None => (DumpPhase::Sleeping, DumpAction::Sleep),
                        Some(bytes) => {
                            let job = DumpJob {
                                epoch_id,
                                epoch_height,
                                sync_hash,
                                num_parts: get_num_state_parts(bytes),
                            };
                            (
                                DumpPhase::AwaitListing { job },
                                DumpAction::ListParts {
                                    directory: external_storage_location_directory(
                                        chain_id.as_slice(),
                                        &epoch_id,
                                        epoch_height,
                                        shard_id,
                                    ),
                                },
                            )
                        },
                    },
                );
            },
            (DumpPhase::AwaitListing { job }, DumpEvent::Listing(listing)) => {
                match listing {
                    None => {
                        decided = Some((DumpPhase::Sleeping, DumpAction::Sleep));
                    },
                    Some(file_names) => {
                        if !are_part_filenames(&file_names) {
                            decided = Some((DumpPhase::Aborted, DumpAction::Abort));
                        } else {
                            parts_to_dump = get_missing_part_ids_for_epoch(job.num_parts, &file_names);
                            started_at = now;
                            draw_for = Some(job);
                            proof {
                                crate::part_names::lemma_increasing_is_distinct(parts_to_dump@);
                            }
                        }
                    },
                }
            },
            (DumpPhase::AwaitPart { job, part_id, selected_idx }, DumpEvent::Part(part)) => {
                decided =
                Some(
                    match part {
                        None => finish(job, parts_to_dump.len() == 0),
                        Some(part_len) => (
                            DumpPhase::AwaitUpload { job, part_id, selected_idx, part_len },
                            DumpAction::UploadPart {
                                location: external_storage_location(
                                    chain_id.as_slice(),
                                    &job.epoch_id,
                                    job.epoch_height,
                                    shard_id,
                                    part_id,
                                    job.num_parts,
                                ),
                            },
                        ),
                    },
                );
            },
            (
                DumpPhase::AwaitUpload { job, part_id, selected_idx, part_len },
                DumpEvent::Uploaded(uploaded),
            ) => {
                if uploaded {
                    let ghost parts = parts_to_dump@;
                    parts_to_dump.swap_remove(selected_idx);
                    update_dumped_size_and_cnt_metrics(&mut metrics, part_len);
                    proof {
                        lemma_swap_remove_distinct(parts, selected_idx as int);
                    }
                }
                draw_for = Some(job);
            },
            (DumpPhase::Writing { progress, floor }, DumpEvent::ProgressWritten(written)) => {
                decided =
                Some(
                    if written {
                        loop_top(keep_running)
                    } else {
                        (DumpPhase::Sleeping, DumpAction::Sleep)
                    },
                );
            },
            (DumpPhase::Sleeping, DumpEvent::Woke) => {
                decided = Some(loop_top(keep_running));
            },
            _ => {},
        }
        if let Some(job) = draw_for {
            let elapsed: u64 = if now >= started_at {
                now - started_at
            } else {
                0
            };
            let goes_on = keep_running && elapsed < STATE_DUMP_ITERATION_TIME_LIMIT_SECS
                && parts_to_dump.len() > 0;
            decided =
            Some(
                if goes_on {
                    let (part_id, selected_idx) = select_random_part_id_with_index(&parts_to_dump);
                    (
                        DumpPhase::AwaitPart { job, part_id, selected_idx },
                        DumpAction::ObtainPart {
                            sync_hash: job.sync_hash,
                            part_id,
                            num_parts: job.num_parts,
                        },
                    )
                } else {
                    finish(job, parts_to_dump.len() == 0)
                },
            );
        }
        match decided {
            Some((next_phase, action)) => {
                let task = DumpTask {
                    shard_id,
                    chain_id,
                    restart,
                    phase: next_phase,
                    parts_to_dump,
                    started_at,
                    metrics,
                };
                (task, action)
            },
            None => {
                let task = DumpTask {
                    shard_id,
                    chain_id,
                    restart,
                    phase,
                    parts_to_dump,
                    started_at,
                    metrics,
                };
                let action = task.pending_action();
                (task, action)
            },
        }
    }
}

/// The start of an iteration: the task ends if it shall not keep running,
/// and reads the progress otherwise.
pub fn loop_top(keep_running: bool) -> (next: (DumpPhase, DumpAction))
    ensures
        next.0 == if keep_running {
            DumpPhase::Reading
        } else {
            DumpPhase::Stopped
        },
        next.1@ == if keep_running {
            ActionView::ReadProgress
        } else {
            ActionView::Stop
        },
{
    if keep_running {
        (DumpPhase::Reading, DumpAction::ReadProgress)
    } else {
        (DumpPhase::Stopped, DumpAction::Stop)
    }
}

/// What follows a read of the progress: a finished or unknown epoch leads to
/// a look at the head of the chain, an epoch in progress to its parts, and a
/// failed read to the deletion of the progress.
pub fn dispatch_progress(read: ProgressRead) -> (next: (DumpPhase, DumpAction))
    ensures
        !(next.0 is AwaitPart),
        !(next.0 is AwaitUpload),
        forall|state: TaskState|
            #![trigger state.on_progress(read)]
            state.on_progress(read) == (state.in_phase(next.0), next.1@),
{
    match read {
        ProgressRead::Found(StateSyncDumpProgress::AllDumped { epoch_id, epoch_height, num_parts }) => (
            DumpPhase::AwaitHead { last: Some(LastDumped { epoch_id, epoch_height, num_parts }) },
            DumpAction::ReadHead,
        ),
        ProgressRead::Found(
            StateSyncDumpProgress::InProgress { epoch_id, epoch_height, sync_hash },
        ) => (
            DumpPhase::AwaitInProgressData { epoch_id, epoch_height, sync_hash },
            DumpAction::ReadInProgressData { sync_hash },
        ),
        ProgressRead::Absent => (DumpPhase::AwaitHead { last: None }, DumpAction::ReadHead),
        ProgressRead::Undecodable => (DumpPhase::AwaitHead { last: None }, DumpAction::ReadHead),
        ProgressRead::Failed => (DumpPhase::Deleting, DumpAction::DeleteProgress),
    }
}

/// Looks at the head of the chain for a new epoch. `last` is the epoch that
/// was dumped last. Where the head is still in that epoch, the metrics are
/// set and the task sleeps; else the first block of the epoch is looked for.
pub fn check_new_epoch(last: Option<LastDumped>, head: Option<EpochId>, metrics: &mut DumpMetrics) -> (next:
    (DumpPhase, DumpAction))
    ensures
        !(next.0 is AwaitPart),
        !(next.0 is AwaitUpload),
        forall|state: TaskState|
            #![trigger state.on_head(last, head)]
            state.metrics == *old(metrics) ==> state.on_head(last, head) == (
                TaskState { metrics: *final(metrics), phase: next.0, ..state },
                next.1@,
            ),
{
    match head {
        None => (DumpPhase::Sleeping, DumpAction::Sleep),
        Some(head_epoch_id) => {
            if let Some(dumped) = last {
                if dumped.epoch_id.same_as(&head_epoch_id) {
                    if dumped.epoch_height < EPOCH_HEIGHT_LIMIT {
                        set_metrics(
                            metrics,
                            Some(dumped.num_parts),
                            Some(dumped.num_parts),
                            Some(dumped.epoch_height),
                        );
                        return (DumpPhase::Sleeping, DumpAction::Sleep);
                    } else {
                        return (DumpPhase::Aborted, DumpAction::Abort);
                    }
                }
            }
            (DumpPhase::AwaitSyncHash { last, head_epoch_id }, DumpAction::FindSyncHash)
        },
    }
}

/// Looks at the first block of the epoch of the last final block. Where it
/// lies in the epoch that was dumped last, the task sleeps; else the epoch
/// of the head is read.
pub fn check_sync_hash(last: Option<LastDumped>, head_epoch_id: EpochId, found: Option<SyncInfo>) -> (next:
    (DumpPhase, DumpAction))
    ensures
        !(next.0 is AwaitPart),
        !(next.0 is AwaitUpload),
        forall|state: TaskState|
            #![trigger state.on_sync_hash(last, head_epoch_id, found)]
            state.on_sync_hash(last, head_epoch_id, found) == (state.in_phase(next.0), next.1@),
{
    match found {
        None => (DumpPhase::Sleeping, DumpAction::Sleep),
        Some(info) => {
            if let Some(dumped) = last {
                if dumped.epoch_id.same_as(&info.epoch_id) {
                    return (DumpPhase::Sleeping, DumpAction::Sleep);
                }
            }
            (
                DumpPhase::AwaitEpoch { last, epoch_id: head_epoch_id, sync_hash: info.sync_hash },
                DumpAction::ReadEpoch { epoch_id: head_epoch_id, sync_hash: info.sync_hash },
            )
        },
    }
}

/// Begins the dump of an epoch. A shard that the account cares about is set
/// in progress, and the metrics are set; for any other shard the epoch
/// counts as dumped, with no parts.
pub fn start_dumping(
    last: Option<LastDumped>,
    epoch_id: EpochId,
    sync_hash: ValueHash,
    epoch: Option<EpochInfo>,
    metrics: &mut DumpMetrics,
) -> (next: (DumpPhase, DumpAction))
    ensures
        !(next.0 is AwaitPart),
        !(next.0 is AwaitUpload),
        forall|state: TaskState|
            #![trigger state.on_epoch(last, epoch_id, sync_hash, epoch)]
            state.metrics == *old(metrics) ==> state.on_epoch(last, epoch_id, sync_hash, epoch)
                == (TaskState { metrics: *final(metrics), phase: next.0, ..state }, next.1@),
{
    let floor: Option<u64> = match last {
        Some(dumped) => Some(dumped.epoch_height),
        None => None,
    };
    match epoch {
        None => (DumpPhase::Sleeping, DumpAction::Sleep),
        Some(info) => {
            if info.cares_about_shard {
                if info.epoch_height < EPOCH_HEIGHT_LIMIT {
                    let num_parts = get_num_state_parts(info.memory_usage);
                    set_metrics(metrics, Some(0), Some(num_parts), Some(info.epoch_height));
                    let progress = StateSyncDumpProgress::InProgress {
                        epoch_id,
                        epoch_height: info.epoch_height,
                        sync_hash,
                    };
                    (DumpPhase::Writing { progress, floor }, DumpAction::WriteProgress { progress })
                } else {
                    (DumpPhase::Aborted, DumpAction::Abort)
                }
            } else {
                let progress = StateSyncDumpProgress::AllDumped {
                    epoch_id,
                    epoch_height: info.epoch_height,
                    num_parts: 0,
                };
                (DumpPhase::Writing { progress, floor }, DumpAction::WriteProgress { progress })
            }
        },
    }
}

/// The progress that ends the dumping of parts: all dumped where no part is
/// left, in progress as before otherwise.
pub fn finish(job: DumpJob, none_left: bool) -> (next: (DumpPhase, DumpAction))
    ensures
        !(next.0 is AwaitPart),
        !(next.0 is AwaitUpload),
        forall|state: TaskState|
            #![trigger state.finish(job)]
            (state.parts_to_dump.len() == 0) == none_left ==> state.finish(job) == (
                state.in_phase(next.0),
                next.1@,
            ),
{
    let progress = if none_left {
        StateSyncDumpProgress::AllDumped {
            epoch_id: job.epoch_id,
            epoch_height: job.epoch_height,
            num_parts: job.num_parts,
        }
    } else {
        StateSyncDumpProgress::InProgress {
            epoch_id: job.epoch_id,
            epoch_height: job.epoch_height,
            sync_hash: job.sync_hash,
        }
    };
    (
        DumpPhase::Writing { progress, floor: Some(job.epoch_height) },
        DumpAction::WriteProgress { progress },
    )
}

/// Taking one part out of parts without duplicates, by putting the last in
/// its place, leaves parts without duplicates: the others, and not that one.
pub proof fn lemma_swap_remove_distinct(parts: Seq<u64>, at: int)
    requires
        parts.no_duplicates(),
        0 <= at < parts.len(),
    ensures
        parts.update(at, parts.last()).drop_last().no_duplicates(),
        !parts.update(at, parts.last()).drop_last().contains(parts[at]),
        forall|part: u64|
            parts.contains(part) && part != parts[at] ==> parts.update(
                at,
                parts.last(),
            ).drop_last().contains(part),
        forall|part: u64|
            parts.update(at, parts.last()).drop_last().contains(part) ==> parts.contains(part),
{
    let left = parts.update(at, parts.last()).drop_last();
    let last = parts.len() - 1;
    assert forall|i: int, j: int| 0 <= i < left.len() && 0 <= j < left.len() && i != j implies left[i]
        != left[j] by {
        let from_i = if i == at { last } else { i };
        let from_j = if j == at { last } else { j };
        assert(left[i] == parts[from_i] && left[j] == parts[from_j]);
    }
    assert forall|part: u64| parts.contains(part) && part != parts[at] implies left.contains(
        part,
    ) by {
        let i = choose|i: int| 0 <= i < parts.len() && parts[i] == part;
        if i == last {
            assert(left[at] == part);
        } else {
            assert(left[i] == part);
        }
    }
    assert forall|part: u64| left.contains(part) implies parts.contains(part) && part != parts[at] by {
        let i = choose|i: int| 0 <= i < left.len() && left[i] == part;
        let from = if i == at { last } else { i };
        assert(parts[from] == part);
    }
}

/// The delay between iterations where none is configured, in milliseconds.
pub const DEFAULT_ITERATION_DELAY_MILLIS: u64 = 10000;

/// The delay between iterations in milliseconds: the configured one, or
/// `DEFAULT_ITERATION_DELAY_MILLIS`.
pub fn iteration_delay_millis(configured: Option<u64>) -> (delay: u64)
    ensures
        delay == match configured {
            Some(millis) => millis,
            None => DEFAULT_ITERATION_DELAY_MILLIS,
        },
{
    match configured {
        Some(millis) => millis,
        None => DEFAULT_ITERATION_DELAY_MILLIS,
    }
}

/// The state of a task that has not begun.
pub open spec fn initial_state(shard_id: u64, chain_id: Seq<u8>, restart: bool) -> TaskState {
    TaskState {
        shard_id,
        chain_id,
        restart,
        phase: DumpPhase::New,
        parts_to_dump: Seq::<u64>::empty(),
        started_at: 0,
        metrics: DumpMetrics {
            num_parts_dumped: 0,
            num_parts_total: 0,
            epoch_height: 0,
            dumped_size_total: 0,
        },
    }
}

/// The tasks of a chain with `num_shards` shards: one for each shard, in the
/// order of the shard numbers. `restart_dump_for_shards` names the shards
/// whose old progress is cleared; without a list no progress is cleared.
pub fn dump_tasks(chain_id: &[u8], restart_dump_for_shards: &Option<Vec<u64>>, num_shards: u64) -> (tasks:
    Vec<DumpTask>)
    ensures
        tasks@.len() == num_shards,
        forall|shard_id: int|
            0 <= shard_id < num_shards ==> (#[trigger] tasks@[shard_id])@ == initial_state(
                shard_id as u64,
                chain_id@,
                match restart_dump_for_shards {
                    Some(shards) => shards@.contains(shard_id as u64),
                    None => false,
                },
            ),
{
    let none: Vec<u64> = Vec::new();
    let restart: &Vec<u64> = match restart_dump_for_shards {
        Some(shards) => shards,
        None => &none,
    };
    let mut tasks: Vec<DumpTask> = Vec::new();
    let mut shard_id: u64 = 0;
    while shard_id < num_shards
        invariant
            shard_id <= num_shards,
            tasks@.len() == shard_id,
            restart@ == match restart_dump_for_shards {
                Some(shards) => shards@,
                None => Seq::<u64>::empty(),
            },
            forall|k: int|
                0 <= k < shard_id ==> (#[trigger] tasks@[k])@ == initial_state(
                    k as u64,
                    chain_id@,
                    restart@.contains(k as u64),
                ),
        decreases num_shards - shard_id,
    {
        let task = DumpTask::new(shard_id, crate::bytes::copy_bytes(chain_id), restart);
        tasks.push(task);
        shard_id += 1;
    }
    tasks
}

} // verus!
