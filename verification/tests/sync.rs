use snapmirror::actions::sync::{
    chunk_path, clear_command, create_command, failure_message, producer_args, receive_command,
    run, send_snapshot, snapshot_name, staging_dir, Effect, Event, Failure, SendJob, Stage,
    Step, Transfer, CHUNK_SIZE, MAX_CHUNKS, QUEUE_DEPTH,
};
use snapmirror::inventory::{FileList, TimeStamp};

fn list(stamps: &[i64]) -> FileList {
    let mut l = FileList::new();
    for &s in stamps {
        l.insert(TimeStamp::from_secs(s), format!("snap-{}", s));
    }
    l
}

fn names(jobs: &[SendJob]) -> Vec<(String, Option<String>)> {
    jobs.iter().map(|j| (j.snapshot.clone(), j.parent.clone())).collect()
}

#[test]
fn run_names_each_snapshot_and_its_parent() {
    let jobs = run(&list(&[10, 20, 30]), &list(&[10]), false);
    assert_eq!(
        names(&jobs),
        vec![
            ("snap-20".to_string(), Some("snap-10".to_string())),
            ("snap-30".to_string(), Some("snap-20".to_string())),
        ]
    );
}

#[test]
fn run_starts_with_a_full_transfer_without_common_snapshot() {
    let jobs = run(&list(&[10, 20]), &list(&[]), false);
    assert_eq!(
        names(&jobs),
        vec![("snap-10".to_string(), None), ("snap-20".to_string(), Some("snap-10".to_string()))]
    );
}

#[test]
fn run_with_all_fills_gaps() {
    let jobs = run(&list(&[10, 20, 30, 40]), &list(&[10, 30]), true);
    assert_eq!(
        names(&jobs),
        vec![
            ("snap-20".to_string(), Some("snap-10".to_string())),
            ("snap-40".to_string(), Some("snap-20".to_string())),
        ]
    );
}

#[test]
fn run_twice_finds_nothing_to_do() {
    let local = list(&[10, 20, 30]);
    let mut remote = list(&[10]);
    let jobs = run(&local, &remote, false);
    assert_eq!(jobs.len(), 2);
    remote.insert(TimeStamp::from_secs(20), "snap-20".to_string());
    remote.insert(TimeStamp::from_secs(30), "snap-30".to_string());
    assert!(run(&local, &remote, false).is_empty());
    assert!(run(&local, &remote, true).is_empty());
}

#[test]
fn snapshot_name_prefers_the_local_inventory() {
    let mut local = FileList::new();
    local.insert(TimeStamp::from_secs(1), "here".to_string());
    let mut remote = FileList::new();
    remote.insert(TimeStamp::from_secs(1), "there".to_string());
    remote.insert(TimeStamp::from_secs(2), "only-there".to_string());
    assert_eq!(snapshot_name(&local, &remote, TimeStamp::from_secs(1)), Some("here".to_string()));
    assert_eq!(
        snapshot_name(&local, &remote, TimeStamp::from_secs(2)),
        Some("only-there".to_string())
    );
    assert_eq!(snapshot_name(&local, &remote, TimeStamp::from_secs(3)), None);
}

#[test]
fn staging_directory_lies_under_the_remote_root() {
    assert_eq!(staging_dir("/srv/backup"), "/srv/backup/.tmp");
    assert_eq!(staging_dir("/srv/backup/"), "/srv/backup/.tmp");
    assert_eq!(staging_dir("/"), "/.tmp");
    assert_eq!(staging_dir(""), ".tmp");
    assert_eq!(staging_dir("rel"), "rel/.tmp");
}

#[test]
fn remote_commands_quote_their_paths() {
    assert_eq!(clear_command("/srv/backup"), "rm -r \"/srv/backup/.tmp\"");
    assert_eq!(create_command("/srv/backup"), "mkdir \"/srv/backup/.tmp\"");
    assert_eq!(
        receive_command("/srv/backup"),
        "cat \"/srv/backup/.tmp\"/* | btrfs receive -e \"/srv/backup\""
    );
}

#[test]
fn chunk_files_are_named_by_zero_padded_number() {
    assert_eq!(chunk_path("/srv/backup", 0), "/srv/backup/.tmp/0000000000000000");
    assert_eq!(chunk_path("/srv/backup", 12), "/srv/backup/.tmp/0000000000000012");
    assert_eq!(
        chunk_path("/srv/backup/", MAX_CHUNKS - 1),
        "/srv/backup/.tmp/9999999999999999"
    );
    let mut paths: Vec<String> = (0..120).map(|i| chunk_path("r", i)).collect();
    let in_order = paths.clone();
    paths.sort();
    assert_eq!(paths, in_order);
}

#[test]
fn producer_arguments_name_the_parent_of_a_delta() {
    let delta = SendJob { snapshot: "b".to_string(), parent: Some("a".to_string()) };
    assert_eq!(producer_args(&delta), vec!["send", "-p", "a", "b"]);
    let full = SendJob { snapshot: "b".to_string(), parent: None };
    assert_eq!(producer_args(&full), vec!["send", "b"]);
}

#[test]
fn limits_of_the_pipeline() {
    assert_eq!(CHUNK_SIZE, 100 * 1024 * 1024);
    assert_eq!(QUEUE_DEPTH, 10);
    assert_eq!(MAX_CHUNKS, 10u64.pow(16));
}

fn drive(events: &[Event]) -> Vec<Step> {
    let mut state = Transfer::new();
    let mut steps = Vec::new();
    for &e in events {
        let step = send_snapshot(&state, e);
        state = step.state;
        steps.push(step);
    }
    steps
}

#[test]
fn transfer_of_two_chunks_runs_to_the_end() {
    let steps = drive(&[
        Event::Start,
        Event::CommandExited { status: 1 },
        Event::CommandExited { status: 0 },
        Event::ProducerStarted,
        Event::Chunk { len: 100 },
        Event::Uploaded,
        Event::Chunk { len: 0 },
        Event::Uploaded,
        Event::EndOfStream,
        Event::CommandExited { status: 0 },
        Event::ProducerExited { success: true },
        Event::CommandExited { status: 0 },
    ]);
    let effects: Vec<Effect> = steps.iter().map(|s| s.effect).collect();
    assert_eq!(
        effects,
        vec![
            Effect::ClearStaging,
            Effect::CreateStaging,
            Effect::StartProducer,
            Effect::NextChunk,
            Effect::Upload { index: 0, size: 100 },
            Effect::NextChunk,
            Effect::Upload { index: 1, size: 0 },
            Effect::NextChunk,
            Effect::Reassemble,
            Effect::AwaitProducer,
            Effect::ClearStaging,
            Effect::Finish { bytes: 100 },
        ]
    );
    let stages: Vec<Stage> = steps.iter().map(|s| s.state.stage).collect();
    assert_eq!(
        stages,
        vec![
            Stage::Clearing,
            Stage::Creating,
            Stage::StagingPrepared,
            Stage::Streaming,
            Stage::Uploading,
            Stage::Streaming,
            Stage::Uploading,
            Stage::Streaming,
            Stage::Reassembling,
            Stage::Draining,
            Stage::Cleaning,
            Stage::Cleaned,
        ]
    );
    assert!(steps.iter().all(|s| !s.stale_staging));
    assert_eq!(steps[11].state, Transfer { stage: Stage::Cleaned, chunks: 2, bytes: 100 });
}

#[test]
fn stale_staging_directory_is_reported_and_not_fatal() {
    let steps = drive(&[Event::Start, Event::CommandExited { status: 0 }]);
    assert!(steps[1].stale_staging);
    assert_eq!(steps[1].effect, Effect::CreateStaging);
    assert_eq!(steps[1].state.stage, Stage::Creating);
}

#[test]
fn failing_to_create_the_staging_directory_aborts() {
    let steps = drive(&[
        Event::Start,
        Event::CommandExited { status: 1 },
        Event::CommandExited { status: 1 },
    ]);
    assert_eq!(steps[2].effect, Effect::Abort(Failure::CreateStaging));
    assert_eq!(steps[2].state.stage, Stage::Failed);
}

#[test]
fn failing_receiver_producer_and_cleanup_abort() {
    let ready = [
        Event::Start,
        Event::CommandExited { status: 1 },
        Event::CommandExited { status: 0 },
        Event::ProducerStarted,
        Event::EndOfStream,
    ];
    let mut events = ready.to_vec();
    events.push(Event::CommandExited { status: 2 });
    assert_eq!(drive(&events)[5].effect, Effect::Abort(Failure::Receive));

    let mut events = ready.to_vec();
    events.push(Event::CommandExited { status: 0 });
    events.push(Event::ProducerExited { success: false });
    assert_eq!(drive(&events)[6].effect, Effect::Abort(Failure::Producer));

    let mut events = ready.to_vec();
    events.push(Event::CommandExited { status: 0 });
    events.push(Event::ProducerExited { success: true });
    events.push(Event::CommandExited { status: 1 });
    let steps = drive(&events);
    assert_eq!(steps[7].effect, Effect::Abort(Failure::RemoveStaging));
    assert_eq!(steps[7].state.stage, Stage::Failed);
}

#[test]
fn events_out_of_turn_and_faults_abort() {
    let steps = drive(&[Event::Uploaded]);
    assert_eq!(steps[0].effect, Effect::Abort(Failure::OutOfTurn));
    let steps = drive(&[Event::Start, Event::Fault, Event::Start]);
    assert_eq!(steps[1].effect, Effect::Abort(Failure::Fault));
    assert_eq!(steps[2].effect, Effect::Abort(Failure::OutOfTurn));
    assert_eq!(steps[2].state.stage, Stage::Failed);
}

#[test]
fn chunk_numbers_run_out_at_the_width_of_a_name() {
    let state = Transfer { stage: Stage::Streaming, chunks: MAX_CHUNKS, bytes: 5 };
    let step = send_snapshot(&state, Event::Chunk { len: 1 });
    assert_eq!(step.effect, Effect::Abort(Failure::TooManyChunks));
    let state = Transfer { stage: Stage::Streaming, chunks: MAX_CHUNKS - 1, bytes: u64::MAX - 1 };
    let step = send_snapshot(&state, Event::Chunk { len: 7 });
    assert_eq!(step.effect, Effect::Upload { index: MAX_CHUNKS - 1, size: 7 });
    assert_eq!(step.state.bytes, u64::MAX);
    assert_eq!(step.state.chunks, MAX_CHUNKS);
}

#[test]
fn failure_messages_carry_the_captured_output() {
    assert_eq!(
        failure_message(Failure::Receive, "out", "err"),
        "btrfs receive failed\nstdout:\nout\nstderr:\nerr"
    );
    assert_eq!(failure_message(Failure::Producer, "", "boom"), "btrfs send failed\nstderr:\nboom");
    assert_eq!(
        failure_message(Failure::CreateStaging, "", ""),
        "failed to create .tmp dir on remote"
    );
    assert_eq!(failure_message(Failure::RemoveStaging, "", ""), "failed to remove .tmp dir");
    assert_eq!(
        failure_message(Failure::TooManyChunks, "", ""),
        "snapshot stream has too many chunks"
    );
    assert_eq!(failure_message(Failure::Fault, "", ""), "transfer interrupted");
    assert_eq!(failure_message(Failure::OutOfTurn, "", ""), "transfer out of step");
}
