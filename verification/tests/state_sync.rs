use shard_state::dump_progress::{
    get_state_sync_dump_progress, set_state_sync_dump_progress, EpochId, ProgressRead,
    StateSyncDumpProgress,
};
use shard_state::hash::{hash, ValueHash};
use shard_state::part_names::external_storage_location;
use shard_state::state_sync::{
    check_new_epoch, check_sync_hash, dispatch_progress, dump_tasks, finish, get_num_state_parts,
    get_state_part_key, iteration_delay_millis, loop_top, obtain_and_store_state_part,
    select_random_part_id_with_index, set_metrics, start_dumping, update_dumped_size_and_cnt_metrics,
    DumpAction, DumpEvent, DumpJob, DumpMetrics, DumpPhase, DumpTask, EpochInfo, LastDumped,
    SyncInfo, DEFAULT_ITERATION_DELAY_MILLIS, EPOCH_HEIGHT_LIMIT,
    STATE_DUMP_ITERATION_TIME_LIMIT_SECS, STATE_PART_MEMORY_LIMIT,
};
use shard_state::store::{DBCol, Store};

const MIB: u64 = 1024 * 1024;

fn epoch(name: &str) -> EpochId {
    EpochId(hash(name.as_bytes()))
}

fn zero_metrics() -> DumpMetrics {
    DumpMetrics { num_parts_dumped: 0, num_parts_total: 0, epoch_height: 0, dumped_size_total: 0 }
}

/// A chain, a store and an external storage for one shard, as the task sees
/// them.
struct World {
    store: Store,
    shard_id: u64,
    head: Option<EpochId>,
    sync: Option<SyncInfo>,
    epoch: Option<EpochInfo>,
    memory_usage: Option<u64>,
    uploaded: Vec<Vec<u8>>,
    failing_uploads: Vec<u64>,
    failing_parts: Vec<u64>,
    listing_fails: bool,
    keep_running: bool,
    now: u64,
    seconds_per_part: u64,
    actions: Vec<DumpAction>,
    obtaining: Option<(ValueHash, u64)>,
}

impl World {
    fn new(shard_id: u64) -> World {
        World {
            store: Store::new(),
            shard_id,
            head: Some(epoch("first")),
            sync: Some(SyncInfo { sync_hash: hash(b"sync"), epoch_id: epoch("first") }),
            epoch: Some(EpochInfo { epoch_height: 3, memory_usage: 70 * MIB, cares_about_shard: true }),
            memory_usage: Some(70 * MIB),
            uploaded: Vec::new(),
            failing_uploads: Vec::new(),
            failing_parts: Vec::new(),
            listing_fails: false,
            keep_running: true,
            now: 1000,
            seconds_per_part: 1,
            actions: Vec::new(),
            obtaining: None,
        }
    }

    /// Does what the task asks for and says what happened; `None` where the
    /// task has ended.
    fn perform(&mut self, action: &DumpAction) -> Option<DumpEvent> {
        self.actions.push(action.clone());
        match action {
            DumpAction::ClearProgress => {
                set_state_sync_dump_progress(&mut self.store, self.shard_id, None);
                Some(DumpEvent::ProgressCleared)
            }
            DumpAction::ReadProgress => {
                Some(DumpEvent::Progress(get_state_sync_dump_progress(&self.store, self.shard_id)))
            }
            DumpAction::DeleteProgress => {
                set_state_sync_dump_progress(&mut self.store, self.shard_id, None);
                Some(DumpEvent::ProgressDeleted)
            }
            DumpAction::ReadHead => Some(DumpEvent::Head(self.head)),
            DumpAction::FindSyncHash => Some(DumpEvent::SyncHash(self.sync)),
            DumpAction::ReadEpoch { .. } => Some(DumpEvent::Epoch(self.epoch)),
            DumpAction::ReadInProgressData { .. } => Some(DumpEvent::InProgressData(self.memory_usage)),
            DumpAction::ListParts { directory } => {
                if self.listing_fails {
                    return Some(DumpEvent::Listing(None));
                }
                let mut prefix = directory.clone();
                prefix.push(b'/');
                let names = self
                    .uploaded
                    .iter()
                    .filter(|location| location.starts_with(&prefix))
                    .map(|location| location[prefix.len()..].to_vec())
                    .collect();
                Some(DumpEvent::Listing(Some(names)))
            }
            DumpAction::ObtainPart { sync_hash, part_id, .. } => {
                self.now += self.seconds_per_part;
                if self.failing_parts.contains(part_id) {
                    return Some(DumpEvent::Part(None));
                }
                let part = vec![*part_id as u8; 10 + *part_id as usize];
                let stored = obtain_and_store_state_part(
                    &mut self.store,
                    self.shard_id,
                    sync_hash,
                    *part_id,
                    part,
                );
                self.obtaining = Some((*sync_hash, *part_id));
                Some(DumpEvent::Part(Some(stored.len() as u64)))
            }
            DumpAction::UploadPart { location } => {
                let (_, part_id) = self.obtaining.take().unwrap();
                if self.failing_uploads.contains(&part_id) {
                    return Some(DumpEvent::Uploaded(false));
                }
                self.uploaded.push(location.clone());
                Some(DumpEvent::Uploaded(true))
            }
            DumpAction::WriteProgress { progress } => {
                set_state_sync_dump_progress(&mut self.store, self.shard_id, Some(*progress));
                Some(DumpEvent::ProgressWritten(true))
            }
            DumpAction::Sleep => {
                self.now += 10;
                Some(DumpEvent::Woke)
            }
            DumpAction::Stop | DumpAction::Abort => None,
        }
    }

    /// Runs the task until it sleeps or ends, at most `max_steps` steps.
    fn run(&mut self, task: DumpTask, first: DumpEvent, max_steps: usize) -> (DumpTask, DumpAction) {
        let mut task = task;
        let mut event = first;
        for _ in 0..max_steps {
            let (next, action) = task.step(event, self.keep_running, self.now);
            task = next;
            if action == DumpAction::Sleep {
                self.actions.push(action.clone());
                return (task, action);
            }
            match self.perform(&action) {
                Some(answer) => event = answer,
                None => return (task, action),
            }
        }
        panic!("the task neither slept nor ended: {:?}", self.actions);
    }

    fn progress(&self) -> ProgressRead {
        get_state_sync_dump_progress(&self.store, self.shard_id)
    }

    fn count(&self, wanted: fn(&DumpAction) -> bool) -> usize {
        self.actions.iter().filter(|action| wanted(action)).count()
    }
}

fn is_obtain(action: &DumpAction) -> bool {
    matches!(action, DumpAction::ObtainPart { .. })
}

fn is_upload(action: &DumpAction) -> bool {
    matches!(action, DumpAction::UploadPart { .. })
}

fn task_for(shard_id: u64, restart: &[u64]) -> DumpTask {
    DumpTask::new(shard_id, b"unittest".to_vec(), &restart.to_vec())
}

#[test]
fn number_of_state_parts() {
    assert_eq!(STATE_PART_MEMORY_LIMIT, 30 * MIB);
    assert_eq!(get_num_state_parts(0), 0);
    assert_eq!(get_num_state_parts(1), 1);
    assert_eq!(get_num_state_parts(30 * MIB - 1), 1);
    assert_eq!(get_num_state_parts(30 * MIB), 1);
    assert_eq!(get_num_state_parts(30 * MIB + 1), 2);
    assert_eq!(get_num_state_parts(70 * MIB), 3);
    assert_eq!(get_num_state_parts(u64::MAX), u64::MAX / (30 * MIB) + 1);
}

#[test]
fn state_part_key_is_block_shard_part() {
    let key = get_state_part_key(&hash(b"sync"), 0x0102, 3);
    let mut expected = hash(b"sync").0.to_vec();
    expected.extend_from_slice(&[2, 1, 0, 0, 0, 0, 0, 0]);
    expected.extend_from_slice(&[3, 0, 0, 0, 0, 0, 0, 0]);
    assert_eq!(key, expected);
}

#[test]
fn obtained_part_is_stored_under_its_key() {
    let mut store = Store::new();
    let part = obtain_and_store_state_part(&mut store, 1, &hash(b"sync"), 2, vec![5, 6, 7]);
    assert_eq!(part, vec![5, 6, 7]);
    let key = get_state_part_key(&hash(b"sync"), 1, 2);
    assert_eq!(store.get(DBCol::StateParts, &key), Some(vec![5, 6, 7]));
    assert_eq!(store.iter(DBCol::StateParts).len(), 1);
}

#[test]
fn random_part_is_one_of_the_parts() {
    let parts = vec![10u64, 20, 30];
    let mut seen = [false; 3];
    for _ in 0..1000 {
        let (part_id, index) = select_random_part_id_with_index(&parts);
        assert!(index < parts.len());
        assert_eq!(part_id, parts[index]);
        seen[index] = true;
    }
    assert_eq!(seen, [true; 3]);
    assert_eq!(select_random_part_id_with_index(&vec![7]), (7, 0));
}

#[test]
fn metrics_are_set_and_counted() {
    let mut metrics = zero_metrics();
    set_metrics(&mut metrics, Some(2), Some(5), Some(9999));
    assert_eq!(
        metrics,
        DumpMetrics { num_parts_dumped: 2, num_parts_total: 5, epoch_height: 9999, dumped_size_total: 0 }
    );
    set_metrics(&mut metrics, None, Some(6), None);
    assert_eq!(
        metrics,
        DumpMetrics { num_parts_dumped: 2, num_parts_total: 6, epoch_height: 9999, dumped_size_total: 0 }
    );
    update_dumped_size_and_cnt_metrics(&mut metrics, 100);
    update_dumped_size_and_cnt_metrics(&mut metrics, 11);
    assert_eq!(
        metrics,
        DumpMetrics { num_parts_dumped: 4, num_parts_total: 6, epoch_height: 9999, dumped_size_total: 111 }
    );
    update_dumped_size_and_cnt_metrics(&mut metrics, u64::MAX);
    assert_eq!(metrics.dumped_size_total, u64::MAX);
    assert_eq!(EPOCH_HEIGHT_LIMIT, 10000);
}

#[test]
fn delay_between_iterations() {
    assert_eq!(iteration_delay_millis(None), 10_000);
    assert_eq!(iteration_delay_millis(Some(250)), 250);
    assert_eq!(iteration_delay_millis(Some(0)), 0);
    assert_eq!(DEFAULT_ITERATION_DELAY_MILLIS, 10_000);
}

#[test]
fn one_task_per_shard() {
    let tasks = dump_tasks(b"unittest", &Some(vec![2, 0]), 4);
    assert_eq!(tasks.len(), 4);
    let mut first_actions = Vec::new();
    for task in tasks {
        assert_eq!(task.phase(), DumpPhase::New);
        let (_, action) = task.step(DumpEvent::Started, true, 0);
        first_actions.push(action);
    }
    assert_eq!(
        first_actions,
        vec![
            DumpAction::ClearProgress,
            DumpAction::ReadProgress,
            DumpAction::ClearProgress,
            DumpAction::ReadProgress,
        ]
    );
    assert_eq!(dump_tasks(b"unittest", &None, 0).len(), 0);
    let (_, action) = dump_tasks(b"unittest", &None, 1).pop().unwrap().step(DumpEvent::Started, true, 0);
    assert_eq!(action, DumpAction::ReadProgress);
}

#[test]
fn decisions_one_by_one() {
    assert_eq!(loop_top(true), (DumpPhase::Reading, DumpAction::ReadProgress));
    assert_eq!(loop_top(false), (DumpPhase::Stopped, DumpAction::Stop));
    let dumped = LastDumped { epoch_id: epoch("first"), epoch_height: 3, num_parts: 4 };
    let all_dumped =
        StateSyncDumpProgress::AllDumped { epoch_id: epoch("first"), epoch_height: 3, num_parts: 4 };
    let in_progress = StateSyncDumpProgress::InProgress {
        epoch_id: epoch("first"),
        epoch_height: 3,
        sync_hash: hash(b"sync"),
    };
    assert_eq!(
        dispatch_progress(ProgressRead::Found(all_dumped)),
        (DumpPhase::AwaitHead { last: Some(dumped) }, DumpAction::ReadHead)
    );
    assert_eq!(
        dispatch_progress(ProgressRead::Found(in_progress)),
        (
            DumpPhase::AwaitInProgressData {
                epoch_id: epoch("first"),
                epoch_height: 3,
                sync_hash: hash(b"sync")
            },
            DumpAction::ReadInProgressData { sync_hash: hash(b"sync") }
        )
    );
    assert_eq!(
        dispatch_progress(ProgressRead::Absent),
        (DumpPhase::AwaitHead { last: None }, DumpAction::ReadHead)
    );
    assert_eq!(
        dispatch_progress(ProgressRead::Undecodable),
        (DumpPhase::AwaitHead { last: None }, DumpAction::ReadHead)
    );
    assert_eq!(
        dispatch_progress(ProgressRead::Failed),
        (DumpPhase::Deleting, DumpAction::DeleteProgress)
    );

    let mut metrics = zero_metrics();
    assert_eq!(
        check_new_epoch(Some(dumped), Some(epoch("first")), &mut metrics),
        (DumpPhase::Sleeping, DumpAction::Sleep)
    );
    assert_eq!(
        metrics,
        DumpMetrics { num_parts_dumped: 4, num_parts_total: 4, epoch_height: 3, dumped_size_total: 0 }
    );
    let mut metrics = zero_metrics();
    assert_eq!(
        check_new_epoch(Some(dumped), Some(epoch("second")), &mut metrics),
        (
            DumpPhase::AwaitSyncHash { last: Some(dumped), head_epoch_id: epoch("second") },
            DumpAction::FindSyncHash
        )
    );
    assert_eq!(
        check_new_epoch(None, Some(epoch("second")), &mut metrics),
        (
            DumpPhase::AwaitSyncHash { last: None, head_epoch_id: epoch("second") },
            DumpAction::FindSyncHash
        )
    );
    assert_eq!(
        check_new_epoch(Some(dumped), None, &mut metrics),
        (DumpPhase::Sleeping, DumpAction::Sleep)
    );
    assert_eq!(metrics, zero_metrics());
    let too_high = LastDumped { epoch_id: epoch("first"), epoch_height: 10_000, num_parts: 4 };
    assert_eq!(
        check_new_epoch(Some(too_high), Some(epoch("first")), &mut metrics),
        (DumpPhase::Aborted, DumpAction::Abort)
    );

    let found = SyncInfo { sync_hash: hash(b"sync"), epoch_id: epoch("first") };
    assert_eq!(
        check_sync_hash(Some(dumped), epoch("second"), Some(found)),
        (DumpPhase::Sleeping, DumpAction::Sleep)
    );
    assert_eq!(
        check_sync_hash(Some(dumped), epoch("second"), None),
        (DumpPhase::Sleeping, DumpAction::Sleep)
    );
    let newer = SyncInfo { sync_hash: hash(b"sync2"), epoch_id: epoch("second") };
    assert_eq!(
        check_sync_hash(Some(dumped), epoch("second"), Some(newer)),
        (
            DumpPhase::AwaitEpoch {
                last: Some(dumped),
                epoch_id: epoch("second"),
                sync_hash: hash(b"sync2")
            },
            DumpAction::ReadEpoch { epoch_id: epoch("second"), sync_hash: hash(b"sync2") }
        )
    );

    let job = DumpJob {
        epoch_id: epoch("first"),
        epoch_height: 3,
        sync_hash: hash(b"sync"),
        num_parts: 4,
    };
    assert_eq!(
        finish(job, true),
        (
            DumpPhase::Writing { progress: all_dumped, floor: Some(3) },
            DumpAction::WriteProgress { progress: all_dumped }
        )
    );
    assert_eq!(
        finish(job, false),
        (
            DumpPhase::Writing { progress: in_progress, floor: Some(3) },
            DumpAction::WriteProgress { progress: in_progress }
        )
    );
}

#[test]
fn start_dumping_sets_progress_and_metrics() {
    let mut metrics = zero_metrics();
    let info = EpochInfo { epoch_height: 7, memory_usage: 70 * MIB, cares_about_shard: true };
    let progress = StateSyncDumpProgress::InProgress {
        epoch_id: epoch("second"),
        epoch_height: 7,
        sync_hash: hash(b"sync2"),
    };
    assert_eq!(
        start_dumping(None, epoch("second"), hash(b"sync2"), Some(info), &mut metrics),
        (DumpPhase::Writing { progress, floor: None }, DumpAction::WriteProgress { progress })
    );
    assert_eq!(
        metrics,
        DumpMetrics { num_parts_dumped: 0, num_parts_total: 3, epoch_height: 7, dumped_size_total: 0 }
    );
    let mut metrics = zero_metrics();
    assert_eq!(
        start_dumping(None, epoch("second"), hash(b"sync2"), None, &mut metrics),
        (DumpPhase::Sleeping, DumpAction::Sleep)
    );
    let too_high = EpochInfo { epoch_height: 10_000, memory_usage: 1, cares_about_shard: true };
    assert_eq!(
        start_dumping(None, epoch("second"), hash(b"sync2"), Some(too_high), &mut metrics),
        (DumpPhase::Aborted, DumpAction::Abort)
    );
    assert_eq!(metrics, zero_metrics());
}

#[test]
fn resumable_dump() {
    let mut world = World::new(0);
    let (task, action) = world.run(task_for(0, &[]), DumpEvent::Started, 100);
    assert_eq!(action, DumpAction::Sleep);
    assert_eq!(
        world.progress(),
        ProgressRead::Found(StateSyncDumpProgress::AllDumped {
            epoch_id: epoch("first"),
            epoch_height: 3,
            num_parts: 3
        })
    );
    for part_id in 0..3u64 {
        let path = external_storage_location(b"unittest", &epoch("first"), 3, 0, part_id, 3);
        assert!(world.uploaded.contains(&path), "Missing {:?}", String::from_utf8(path));
        let key = get_state_part_key(&hash(b"sync"), 0, part_id);
        assert_eq!(
            world.store.get(DBCol::StateParts, &key),
            Some(vec![part_id as u8; 10 + part_id as usize])
        );
    }
    assert_eq!(world.uploaded.len(), 3);
    assert_eq!(
        task.metrics(),
        DumpMetrics { num_parts_dumped: 3, num_parts_total: 3, epoch_height: 3, dumped_size_total: 33 }
    );
    assert_eq!(task.parts_to_dump().len(), 0);
    assert_eq!(task.phase(), DumpPhase::Sleeping);
}

#[test]
fn dump_goes_on_where_it_stopped() {
    let mut world = World::new(0);
    world.memory_usage = Some(150 * MIB);
    world.epoch = Some(EpochInfo { epoch_height: 3, memory_usage: 150 * MIB, cares_about_shard: true });
    for part_id in [1u64, 3] {
        world.uploaded.push(external_storage_location(b"unittest", &epoch("first"), 3, 0, part_id, 5));
    }
    world.uploaded.push(external_storage_location(b"unittest", &epoch("first"), 3, 1, 0, 5));
    world.uploaded.push(external_storage_location(b"unittest", &epoch("first"), 4, 0, 0, 5));
    let in_progress = StateSyncDumpProgress::InProgress {
        epoch_id: epoch("first"),
        epoch_height: 3,
        sync_hash: hash(b"sync"),
    };
    set_state_sync_dump_progress(&mut world.store, 0, Some(in_progress));
    let (_, action) = world.run(task_for(0, &[]), DumpEvent::Started, 100);
    assert_eq!(action, DumpAction::Sleep);
    assert_eq!(world.count(is_obtain), 3);
    assert_eq!(world.count(is_upload), 3);
    assert_eq!(world.uploaded.len(), 7);
    for part_id in 0..5u64 {
        let path = external_storage_location(b"unittest", &epoch("first"), 3, 0, part_id, 5);
        assert_eq!(world.uploaded.iter().filter(|location| **location == path).count(), 1);
    }
    assert_eq!(
        world.progress(),
        ProgressRead::Found(StateSyncDumpProgress::AllDumped {
            epoch_id: epoch("first"),
            epoch_height: 3,
            num_parts: 5
        })
    );
}

#[test]
fn failed_uploads_are_tried_again() {
    let mut world = World::new(0);
    world.failing_uploads = vec![1];
    world.seconds_per_part = 60;
    let mut task = task_for(0, &[]);
    let mut event = DumpEvent::Started;
    let mut kept_in_progress = 0;
    // While the upload of part 1 fails, the part is drawn again and again;
    // whenever the time for dumping is over, the progress is written as it
    // was, and the next iteration lists what is there.
    while kept_in_progress < 3 {
        let (next, action) = task.step(event, true, world.now);
        task = next;
        assert_ne!(action, DumpAction::Sleep);
        if let DumpAction::WriteProgress { progress } = &action {
            assert!(matches!(progress, StateSyncDumpProgress::InProgress { .. }));
            kept_in_progress += 1;
        }
        event = world.perform(&action).unwrap();
    }
    assert_eq!(world.uploaded.len(), 2);
    assert!(world.count(is_obtain) > 3);
    assert_eq!(task.parts_to_dump(), &vec![1]);
    world.failing_uploads.clear();
    let (task, action) = world.run(task, event, 100);
    assert_eq!(action, DumpAction::Sleep);
    assert_eq!(world.uploaded.len(), 3);
    assert_eq!(task.parts_to_dump().len(), 0);
    assert_eq!(
        world.progress(),
        ProgressRead::Found(StateSyncDumpProgress::AllDumped {
            epoch_id: epoch("first"),
            epoch_height: 3,
            num_parts: 3
        })
    );
}

#[test]
fn part_that_cannot_be_obtained_ends_the_dumping() {
    let mut world = World::new(0);
    world.failing_parts = vec![0, 1, 2];
    let task = task_for(0, &[]);
    let mut task = task;
    let mut event = DumpEvent::Started;
    let mut writes = 0;
    for _ in 0..12 {
        let (next, action) = task.step(event, true, world.now);
        task = next;
        if let DumpAction::WriteProgress { progress } = &action {
            writes += 1;
            if writes == 2 {
                assert_eq!(
                    *progress,
                    StateSyncDumpProgress::InProgress {
                        epoch_id: epoch("first"),
                        epoch_height: 3,
                        sync_hash: hash(b"sync")
                    }
                );
                break;
            }
        }
        event = world.perform(&action).unwrap();
    }
    assert_eq!(writes, 2);
    assert_eq!(world.count(is_obtain), 1);
    assert_eq!(world.count(is_upload), 0);
    assert_eq!(task.parts_to_dump(), &vec![0, 1, 2]);
}

#[test]
fn redump_opt_in() {
    let mut world = World::new(0);
    let dumped = StateSyncDumpProgress::AllDumped {
        epoch_id: epoch("first"),
        epoch_height: 3,
        num_parts: 3,
    };
    set_state_sync_dump_progress(&mut world.store, 0, Some(dumped));
    set_state_sync_dump_progress(&mut world.store, 1, Some(dumped));
    let task = dump_tasks(b"unittest", &Some(vec![0]), 1).pop().unwrap();
    let (task, action) = task.step(DumpEvent::Started, true, world.now);
    assert_eq!(action, DumpAction::ClearProgress);
    let mut event = world.perform(&action).unwrap();
    assert_eq!(world.progress(), ProgressRead::Absent);
    assert_eq!(get_state_sync_dump_progress(&world.store, 1), ProgressRead::Found(dumped));
    let mut task = task;
    loop {
        let (next, action) = task.step(event, true, world.now);
        task = next;
        event = world.perform(&action).unwrap();
        if let DumpAction::WriteProgress { progress } = action {
            assert_eq!(
                progress,
                StateSyncDumpProgress::InProgress {
                    epoch_id: epoch("first"),
                    epoch_height: 3,
                    sync_hash: hash(b"sync")
                }
            );
            break;
        }
    }
    assert_eq!(world.progress(), ProgressRead::Found(StateSyncDumpProgress::InProgress {
        epoch_id: epoch("first"),
        epoch_height: 3,
        sync_hash: hash(b"sync")
    }));
    assert_eq!(
        world.actions,
        vec![
            DumpAction::ClearProgress,
            DumpAction::ReadProgress,
            DumpAction::ReadHead,
            DumpAction::FindSyncHash,
            DumpAction::ReadEpoch { epoch_id: epoch("first"), sync_hash: hash(b"sync") },
            DumpAction::WriteProgress {
                progress: StateSyncDumpProgress::InProgress {
                    epoch_id: epoch("first"),
                    epoch_height: 3,
                    sync_hash: hash(b"sync")
                }
            },
        ]
    );
}

#[test]
fn without_opt_in_a_dumped_epoch_is_left_alone() {
    let mut world = World::new(0);
    let dumped = StateSyncDumpProgress::AllDumped {
        epoch_id: epoch("first"),
        epoch_height: 3,
        num_parts: 3,
    };
    set_state_sync_dump_progress(&mut world.store, 0, Some(dumped));
    let (task, action) = world.run(task_for(0, &[1, 2]), DumpEvent::Started, 100);
    assert_eq!(action, DumpAction::Sleep);
    assert_eq!(world.actions, vec![DumpAction::ReadProgress, DumpAction::ReadHead, DumpAction::Sleep]);
    assert_eq!(world.progress(), ProgressRead::Found(dumped));
    assert_eq!(
        task.metrics(),
        DumpMetrics { num_parts_dumped: 3, num_parts_total: 3, epoch_height: 3, dumped_size_total: 0 }
    );
}

#[test]
fn stop_latency() {
    // At the start of an iteration the task ends at once.
    let (task, action) = task_for(0, &[]).step(DumpEvent::Started, false, 0);
    assert_eq!(action, DumpAction::Stop);
    assert_eq!(task.phase(), DumpPhase::Stopped);
    let (task, action) = task.step(DumpEvent::Woke, true, 0);
    assert_eq!(action, DumpAction::Stop);
    assert_eq!(task.phase(), DumpPhase::Stopped);

    // A sleeping task ends when it wakes.
    let mut world = World::new(0);
    world.head = None;
    let (task, action) = world.run(task_for(0, &[]), DumpEvent::Started, 100);
    assert_eq!(action, DumpAction::Sleep);
    let (_, action) = task.step(DumpEvent::Woke, false, world.now);
    assert_eq!(action, DumpAction::Stop);

    // In the midst of dumping parts the task finishes the part at hand,
    // writes its progress and ends.
    let mut world = World::new(0);
    let mut task = task_for(0, &[]);
    let mut event = DumpEvent::Started;
    loop {
        let (next, action) = task.step(event, true, world.now);
        task = next;
        event = world.perform(&action).unwrap();
        if is_obtain(&action) {
            break;
        }
    }
    world.keep_running = false;
    world.actions.clear();
    let (task, action) = world.run(task, event, 100);
    assert_eq!(action, DumpAction::Stop);
    assert_eq!(task.phase(), DumpPhase::Stopped);
    assert_eq!(world.actions.len(), 3);
    assert!(is_upload(&world.actions[0]));
    assert_eq!(
        world.actions[1],
        DumpAction::WriteProgress {
            progress: StateSyncDumpProgress::InProgress {
                epoch_id: epoch("first"),
                epoch_height: 3,
                sync_hash: hash(b"sync")
            }
        }
    );
    assert_eq!(world.actions[2], DumpAction::Stop);
    assert_eq!(world.uploaded.len(), 1);
}

#[test]
fn time_limit_interrupts_the_dumping() {
    let mut world = World::new(0);
    world.memory_usage = Some(300 * MIB);
    world.seconds_per_part = STATE_DUMP_ITERATION_TIME_LIMIT_SECS;
    let mut task = task_for(0, &[]);
    let mut event = DumpEvent::Started;
    let mut written = Vec::new();
    while written.len() < 2 {
        let (next, action) = task.step(event, true, world.now);
        task = next;
        event = world.perform(&action).unwrap();
        if let DumpAction::WriteProgress { progress } = action {
            written.push((progress, world.uploaded.len()));
        }
    }
    let in_progress = StateSyncDumpProgress::InProgress {
        epoch_id: epoch("first"),
        epoch_height: 3,
        sync_hash: hash(b"sync"),
    };
    assert_eq!(written, vec![(in_progress, 0), (in_progress, 1)]);
    assert_eq!(task.parts_to_dump().len(), 9);
}

#[test]
fn shard_not_tracked() {
    let mut world = World::new(1);
    world.epoch = Some(EpochInfo { epoch_height: 3, memory_usage: 70 * MIB, cares_about_shard: false });
    let (task, action) = world.run(task_for(1, &[]), DumpEvent::Started, 100);
    assert_eq!(action, DumpAction::Sleep);
    assert_eq!(
        world.progress(),
        ProgressRead::Found(StateSyncDumpProgress::AllDumped {
            epoch_id: epoch("first"),
            epoch_height: 3,
            num_parts: 0
        })
    );
    assert_eq!(world.count(is_obtain), 0);
    assert_eq!(world.count(is_upload), 0);
    assert_eq!(world.uploaded.len(), 0);
    assert_eq!(world.store.iter(DBCol::StateParts), vec![]);
    assert_eq!(task.metrics().num_parts_total, 0);
}

#[test]
fn new_epoch_is_dumped_after_the_old() {
    let mut world = World::new(0);
    let (task, _) = world.run(task_for(0, &[]), DumpEvent::Started, 100);
    world.head = Some(epoch("second"));
    world.sync = Some(SyncInfo { sync_hash: hash(b"sync2"), epoch_id: epoch("second") });
    world.epoch = Some(EpochInfo { epoch_height: 4, memory_usage: 31 * MIB, cares_about_shard: true });
    world.memory_usage = Some(31 * MIB);
    world.actions.clear();
    let (task, action) = world.run(task, DumpEvent::Woke, 100);
    assert_eq!(action, DumpAction::Sleep);
    assert_eq!(
        world.progress(),
        ProgressRead::Found(StateSyncDumpProgress::AllDumped {
            epoch_id: epoch("second"),
            epoch_height: 4,
            num_parts: 2
        })
    );
    let written: Vec<u64> = world
        .actions
        .iter()
        .filter_map(|action| match action {
            DumpAction::WriteProgress { progress } => Some(match progress {
                StateSyncDumpProgress::AllDumped { epoch_height, .. } => *epoch_height,
                StateSyncDumpProgress::InProgress { epoch_height, .. } => *epoch_height,
            }),
            _ => None,
        })
        .collect();
    assert_eq!(written, vec![4, 4]);
    assert_eq!(world.uploaded.len(), 5);
    assert_eq!(task.metrics().epoch_height, 4);
    assert_eq!(task.metrics().num_parts_dumped, 2);
    // The first block of the epoch still lies in the dumped epoch: nothing to do.
    world.head = Some(epoch("third"));
    world.actions.clear();
    let (_, action) = world.run(task, DumpEvent::Woke, 100);
    assert_eq!(action, DumpAction::Sleep);
    assert_eq!(
        world.actions,
        vec![DumpAction::ReadProgress, DumpAction::ReadHead, DumpAction::FindSyncHash, DumpAction::Sleep]
    );
}

#[test]
fn errors_send_the_task_to_sleep() {
    let mut world = World::new(0);
    world.head = None;
    let (task, action) = world.run(task_for(0, &[]), DumpEvent::Started, 100);
    assert_eq!(action, DumpAction::Sleep);
    assert_eq!(world.progress(), ProgressRead::Absent);
    world.head = Some(epoch("first"));
    world.sync = None;
    let (task, _) = world.run(task, DumpEvent::Woke, 100);
    world.sync = Some(SyncInfo { sync_hash: hash(b"sync"), epoch_id: epoch("first") });
    world.epoch = None;
    let (task, _) = world.run(task, DumpEvent::Woke, 100);
    assert_eq!(world.progress(), ProgressRead::Absent);
    world.epoch = Some(EpochInfo { epoch_height: 3, memory_usage: 70 * MIB, cares_about_shard: true });
    world.memory_usage = None;
    let (task, _) = world.run(task, DumpEvent::Woke, 100);
    assert!(matches!(
        world.progress(),
        ProgressRead::Found(StateSyncDumpProgress::InProgress { .. })
    ));
    world.memory_usage = Some(70 * MIB);
    world.listing_fails = true;
    let (task, action) = world.run(task, DumpEvent::Woke, 100);
    assert_eq!(action, DumpAction::Sleep);
    assert_eq!(world.count(is_obtain), 0);
    world.listing_fails = false;
    let (task, _) = world.run(task, DumpEvent::Woke, 100);
    assert_eq!(world.uploaded.len(), 3);

    // A write that fails sends the task to sleep, a read that fails deletes first.
    let (task, action) = task.step(DumpEvent::Woke, true, world.now);
    assert_eq!(action, DumpAction::ReadProgress);
    let (task, action) = task.step(DumpEvent::Progress(ProgressRead::Failed), true, world.now);
    assert_eq!(action, DumpAction::DeleteProgress);
    let (task, action) = task.step(DumpEvent::ProgressDeleted, true, world.now);
    assert_eq!(action, DumpAction::Sleep);
    let (task, action) = task.step(DumpEvent::Woke, true, world.now);
    assert_eq!(action, DumpAction::ReadProgress);
    let (task, _) = task.step(DumpEvent::Progress(ProgressRead::Undecodable), true, world.now);
    let (task, _) = task.step(DumpEvent::Head(Some(epoch("first"))), true, world.now);
    let (task, _) = task.step(DumpEvent::SyncHash(world.sync), true, world.now);
    let (task, action) = task.step(
        DumpEvent::Epoch(Some(EpochInfo { epoch_height: 5, memory_usage: 0, cares_about_shard: false })),
        true,
        world.now,
    );
    assert!(matches!(action, DumpAction::WriteProgress { .. }));
    let (task, action) = task.step(DumpEvent::ProgressWritten(false), true, world.now);
    assert_eq!(action, DumpAction::Sleep);
    assert_eq!(task.phase(), DumpPhase::Sleeping);
}

#[test]
fn unexpected_events_change_nothing() {
    let task = task_for(0, &[]);
    let (task, action) = task.step(DumpEvent::Woke, true, 0);
    assert_eq!(task.phase(), DumpPhase::New);
    assert_eq!(action, DumpAction::Sleep);
    let (task, action) = task.step(DumpEvent::Started, true, 0);
    assert_eq!(action, DumpAction::ReadProgress);
    let (task, action) = task.step(DumpEvent::Uploaded(true), true, 0);
    assert_eq!(task.phase(), DumpPhase::Reading);
    assert_eq!(action, DumpAction::ReadProgress);
    assert_eq!(task.pending_action(), DumpAction::ReadProgress);
}

#[test]
fn faults_end_the_task() {
    let mut world = World::new(0);
    world.uploaded.push(b"unittest/epoch_height=3/shard_id=0/state_part_0_of_3".to_vec());
    world.uploaded.push(b"unittest/epoch_height=3/shard_id=0/notes.txt".to_vec());
    let (task, action) = world.run(task_for(0, &[]), DumpEvent::Started, 100);
    assert_eq!(action, DumpAction::Abort);
    assert_eq!(task.phase(), DumpPhase::Aborted);
    let (task, action) = task.step(DumpEvent::Woke, true, 0);
    assert_eq!(action, DumpAction::Abort);
    assert_eq!(task.phase(), DumpPhase::Aborted);

    let mut world = World::new(0);
    world.epoch = Some(EpochInfo { epoch_height: 10_000, memory_usage: 1, cares_about_shard: true });
    let (_, action) = world.run(task_for(0, &[]), DumpEvent::Started, 100);
    assert_eq!(action, DumpAction::Abort);
    assert_eq!(world.progress(), ProgressRead::Absent);
}
