//! The sync engine: which snapshots to send, the remote commands of one
//! transfer, and what to do next after each thing that happened.

use crate::inventory::{FileList, TimeStamp};
use crate::planner::{
    chain, kind_at, last_common_of, lemma_last_common, lemma_pending_local, pending, plan,
    TransferKind,
};
use crate::util::{
    lemma_zero_padded_order, pow10, sorts_before, texts, zero_padded, zero_padded_string,
};
use vstd::prelude::*;

verus! {

/// The size of a full chunk, in bytes.
pub const CHUNK_SIZE: usize = 104_857_600;

/// How many finished chunks may wait for their upload.
pub const QUEUE_DEPTH: usize = 10;

/// The width of a chunk's file name.
pub const CHUNK_NAME_WIDTH: usize = 16;

/// The number of chunk names of that width.
pub const MAX_CHUNKS: u64 = 10_000_000_000_000_000;

/// The access mode of an uploaded chunk file.
pub const CHUNK_FILE_MODE: u32 = 0o600;

/// One snapshot to send: its name, and the name of the parent that the
/// delta is taken from, if it is not sent whole.
pub struct SendJob {
    pub snapshot: String,
    pub parent: Option<String>,
}

/// The text of a parent's name, where there is a parent.
pub open spec fn parent_text(parent: Option<String>) -> Option<Seq<char>> {
    match parent {
        Some(p) => Some(p@),
        None => None,
    }
}

/// The job names `snapshot` and `parent`.
pub open spec fn job_is(job: SendJob, snapshot: Seq<char>, parent: Option<Seq<char>>) -> bool {
    &&& job.snapshot@ == snapshot
    &&& parent_text(job.parent) == parent
}

/// The name of the parent of a transfer of the given kind, looked up in
/// the local inventory.
pub open spec fn parent_of(local: &FileList, kind: TransferKind) -> Option<Seq<char>> {
    match kind {
        TransferKind::Full => None,
        TransferKind::DeltaFrom(p) => Some(local.name_of(p)),
    }
}

/// The name of the snapshot taken at `t`: the local one where the local
/// side holds it, else the remote one.
pub fn snapshot_name(local: &FileList, remote: &FileList, t: TimeStamp) -> (r: Option<String>)
    requires
        local.wf(),
        remote.wf(),
    ensures
        r.is_some() == (local.has(t) || remote.has(t)),
        r matches Some(s) ==> s@ == (if local.has(t) {
            local.name_of(t)
        } else {
            remote.name_of(t)
        }),
{
    match local.get(t) {
        Some(name) => Some(name.clone()),
        None => match remote.get(t) {
            Some(name) => Some(name.clone()),
            None => None,
        },
    }
}

/// Plans the backup and names, for each planned transfer in order, the
/// snapshot to send and the parent it leans on. Nothing to do gives no job.
pub fn run(local: &FileList, remote: &FileList, sync_all: bool) -> (jobs: Vec<SendJob>)
    requires
        local.wf(),
        remote.wf(),
    ensures
        jobs.len() == pending(local.keys(), remote.keys(), sync_all).len(),
        forall|i: int|
            0 <= i < jobs.len() ==> job_is(
                #[trigger] jobs[i],
                local.name_of(pending(local.keys(), remote.keys(), sync_all)[i]),
                parent_of(
                    local,
                    kind_at(
                        pending(local.keys(), remote.keys(), sync_all),
                        last_common_of(
                            local.keys(),
                            pending(local.keys(), remote.keys(), sync_all),
                        ),
                        i,
                    ),
                ),
            ),
{
    let ghost pend = pending(local.keys(), remote.keys(), sync_all);
    let ghost common = last_common_of(local.keys(), pend);
    let p = plan(local, remote, sync_all);
    proof {
        lemma_pending_local(local.keys(), remote.keys(), sync_all);
        lemma_last_common(local.keys(), remote.keys(), sync_all);
    }
    let mut jobs: Vec<SendJob> = Vec::new();
    let mut i: usize = 0;
    while i < p.transfers.len()
        invariant
            local.wf(),
            remote.wf(),
            i <= p.transfers.len(),
            jobs.len() == i,
            p.transfers@ == chain(pend, common),
            forall|t: TimeStamp| pend.contains(t) ==> local.has(t),
            common matches Some(c) ==> local.has(c),
            forall|m: int|
                0 <= m < i ==> job_is(
                    #[trigger] jobs[m],
                    local.name_of(pend[m]),
                    parent_of(local, kind_at(pend, common, m)),
                ),
        decreases p.transfers.len() - i,
    {
        let (item, kind) = p.transfers[i];
        proof {
            assert(p.transfers@[i as int] == (pend[i as int], kind_at(pend, common, i as int)));
            assert(pend.contains(pend[i as int]));
            if i > 0 {
                assert(pend.contains(pend[i - 1]));
            }
        }
        let parent = match kind {
            TransferKind::Full => None,
            TransferKind::DeltaFrom(from) => snapshot_name(local, remote, from),
        };
        let snapshot = snapshot_name(local, remote, item).unwrap();
        jobs.push(SendJob { snapshot, parent });
        i += 1;
    }
    jobs
}

/// The staging directory under the remote root.
pub open spec fn staging_dir_text(root: Seq<char>) -> Seq<char> {
    if root.len() == 0 || root.last() == '/' {
        root + ".tmp"@
    } else {
        root + "/"@ + ".tmp"@
    }
}

/// The command that removes the staging directory and all in it.
pub open spec fn clear_command_text(root: Seq<char>) -> Seq<char> {
    "rm -r \""@ + staging_dir_text(root) + "\""@
}

/// The command that creates the staging directory.
pub open spec fn create_command_text(root: Seq<char>) -> Seq<char> {
    "mkdir \""@ + staging_dir_text(root) + "\""@
}

/// The command that joins the staged chunks in the order of their names
/// and feeds them to the receiver, which writes below the remote root.
pub open spec fn receive_command_text(root: Seq<char>) -> Seq<char> {
    "cat \""@ + staging_dir_text(root) + "\"/* | btrfs receive -e \""@ + root + "\""@
}

/// The file of the chunk with the given number.
pub open spec fn chunk_path_text(root: Seq<char>, index: nat) -> Seq<char> {
    staging_dir_text(root) + "/"@ + chunk_name_text(index)
}

/// The arguments of the producer for one job.
pub open spec fn producer_args_text(snapshot: Seq<char>, parent: Option<Seq<char>>) -> Seq<
    Seq<char>,
> {
    match parent {
        Some(p) => seq!["send"@, "-p"@, p, snapshot],
        None => seq!["send"@, snapshot],
    }
}

pub fn staging_dir(root: &str) -> (s: String)
    ensures
        s@ == staging_dir_text(root@),
{
    let n = root.unicode_len();
    let mut s = String::from_str(root);
    if n > 0 && root.get_char(n - 1) != '/' {
        s.append("/");
    }
    s.append(".tmp");
    s
}

pub fn clear_command(root: &str) -> (s: String)
    ensures
        s@ == clear_command_text(root@),
{
    let mut s = String::from_str("rm -r \"");
    s.append(staging_dir(root).as_str());
    s.append("\"");
    s
}

pub fn create_command(root: &str) -> (s: String)
    ensures
        s@ == create_command_text(root@),
{
    let mut s = String::from_str("mkdir \"");
    s.append(staging_dir(root).as_str());
    s.append("\"");
    s
}

pub fn receive_command(root: &str) -> (s: String)
    ensures
        s@ == receive_command_text(root@),
{
    let mut s = String::from_str("cat \"");
    s.append(staging_dir(root).as_str());
    s.append("\"/* | btrfs receive -e \"");
    s.append(root);
    s.append("\"");
    s
}

pub fn chunk_path(root: &str, index: u64) -> (s: String)
    ensures
        s@ == chunk_path_text(root@, index as nat),
{
    let mut s = staging_dir(root);
    s.append("/");
    s.append(zero_padded_string(index, CHUNK_NAME_WIDTH).as_str());
    s
}

pub fn producer_args(job: &SendJob) -> (args: Vec<String>)
    ensures
        texts(args@) == producer_args_text(job.snapshot@, parent_text(job.parent)),
{
    let mut args: Vec<String> = Vec::new();
    args.push(String::from_str("send"));
    match &job.parent {
        Some(p) => {
            args.push(String::from_str("-p"));
            args.push(p.clone());
        },
        None => {},
    }
    args.push(job.snapshot.clone());
    proof {
        match parent_text(job.parent) {
            Some(p) => {
                assert(texts(args@) =~= seq!["send"@, "-p"@, p, job.snapshot@]);
            },
            None => {
                assert(texts(args@) =~= seq!["send"@, job.snapshot@]);
            },
        }
    }
    args
}

/// How far the transfer of one snapshot has come. Each stage names what
/// the engine waits for.
#[derive(Clone, Copy, Debug, PartialEq, Eq, Structural)]
pub enum Stage {
    /// Nothing was done yet.
    Idle,
    /// The removal of a staging directory that an earlier run may have left.
    Clearing,
    /// The creation of the fresh staging directory.
    Creating,
    /// The staging directory is there; the start of the producer.
    StagingPrepared,
    /// The next chunk of the producer's stream, or its end.
    Streaming,
    /// The upload of a chunk.
    Uploading,
    /// The receiver on the remote side, fed with the staged chunks.
    Reassembling,
    /// The exit of the producer.
    Draining,
    /// The removal of the staging directory.
    Cleaning,
    /// The snapshot is on the remote side and the staging directory is gone.
    Cleaned,
    /// The transfer failed; the whole run stops.
    Failed,
}

/// What happened since the last effect.
#[derive(Clone, Copy, Debug, PartialEq, Eq, Structural)]
pub enum Event {
    /// The transfer is to begin.
    Start,
    /// The remote command ran and exited with this status.
    CommandExited { status: i32 },
    /// The producer runs and its output can be read.
    ProducerStarted,
    /// A chunk of this many bytes came out of the queue.
    Chunk { len: u64 },
    /// The queue is closed: the stream has ended.
    EndOfStream,
    /// The chunk is stored on the remote side.
    Uploaded,
    /// The producer exited.
    ProducerExited { success: bool },
    /// The session, the producer or the queue broke.
    Fault,
}

/// Why a transfer failed.
#[derive(Clone, Copy, Debug, PartialEq, Eq, Structural)]
pub enum Failure {
    /// The staging directory could not be created.
    CreateStaging,
    /// The receiver exited with an error.
    Receive,
    /// The producer exited with an error.
    Producer,
    /// The staging directory could not be removed.
    RemoveStaging,
    /// The stream has more chunks than there are chunk names.
    TooManyChunks,
    /// The session, the producer or the queue broke.
    Fault,
    /// Something happened that the stage did not wait for.
    OutOfTurn,
}

/// What the caller is to do next.
#[derive(Clone, Copy, Debug, PartialEq, Eq, Structural)]
pub enum Effect {
    /// Run the command that removes the staging directory.
    ClearStaging,
    /// Run the command that creates the staging directory.
    CreateStaging,
    /// Start the producer and the worker that cuts its stream into chunks.
    StartProducer,
    /// Take the next chunk out of the queue.
    NextChunk,
    /// Copy the chunk to the staging file with this number.
    Upload { index: u64, size: u64 },
    /// Run the command that feeds the staged chunks to the receiver.
    Reassemble,
    /// Wait for the producer to exit.
    AwaitProducer,
    /// Report the transfer as done.
    Finish { bytes: u64 },
    /// Stop the whole run with this failure.
    Abort(Failure),
}

/// The state of the transfer of one snapshot.
#[derive(Clone, Copy, Debug, PartialEq, Eq, Structural)]
pub struct Transfer {
    pub stage: Stage,
    /// The number of chunks handed to the upload so far.
    pub chunks: u64,
    /// The number of bytes handed to the upload so far.
    pub bytes: u64,
}

/// The outcome of one decision.
#[derive(Clone, Copy, Debug, PartialEq, Eq, Structural)]
pub struct Step {
    pub state: Transfer,
    pub effect: Effect,
    /// A staging directory was found: an earlier upload did not finish.
    pub stale_staging: bool,
}

/// The transfer in the given stage, counters unchanged, with an effect.
pub open spec fn advance(t: Transfer, stage: Stage, effect: Effect) -> Step {
    Step { state: Transfer { stage, chunks: t.chunks, bytes: t.bytes }, effect, stale_staging: false }
}

/// The transfer failed.
pub open spec fn fail(t: Transfer, failure: Failure) -> Step {
    advance(t, Stage::Failed, Effect::Abort(failure))
}

/// The sum of two byte counts, held at the largest count where it would
/// pass it.
pub open spec fn capped_sum(a: u64, b: u64) -> u64 {
    if a + b > u64::MAX {
        u64::MAX
    } else {
        (a + b) as u64
    }
}

/// The decision table of a transfer: the next state and the effect, for
/// each stage and each event.
pub open spec fn next_step(t: Transfer, event: Event) -> Step {
    match (t.stage, event) {
        (Stage::Failed, _) => fail(t, Failure::OutOfTurn),
        (Stage::Cleaned, _) => fail(t, Failure::OutOfTurn),
        (_, Event::Fault) => fail(t, Failure::Fault),
        (Stage::Idle, Event::Start) => advance(t, Stage::Clearing, Effect::ClearStaging),
        (Stage::Clearing, Event::CommandExited { status }) => Step {
            state: Transfer { stage: Stage::Creating, chunks: t.chunks, bytes: t.bytes },
            effect: Effect::CreateStaging,
            stale_staging: status == 0,
        },
        (Stage::Creating, Event::CommandExited { status }) => if status == 0 {
            advance(t, Stage::StagingPrepared, Effect::StartProducer)
        } else {
            fail(t, Failure::CreateStaging)
        },
        (Stage::StagingPrepared, Event::ProducerStarted) => advance(
            t,
            Stage::Streaming,
            Effect::NextChunk,
        ),
        (Stage::Streaming, Event::Chunk { len }) => if t.chunks < MAX_CHUNKS {
            Step {
                state: Transfer {
                    stage: Stage::Uploading,
                    chunks: (t.chunks + 1) as u64,
                    bytes: capped_sum(t.bytes, len),
                },
                effect: Effect::Upload { index: t.chunks, size: len },
                stale_staging: false,
            }
        } else {
            fail(t, Failure::TooManyChunks)
        },
        (Stage::Streaming, Event::EndOfStream) => advance(
            t,
            Stage::Reassembling,
            Effect::Reassemble,
        ),
        (Stage::Uploading, Event::Uploaded) => advance(t, Stage::Streaming, Effect::NextChunk),
        (Stage::Reassembling, Event::CommandExited { status }) => if status == 0 {
            advance(t, Stage::Draining, Effect::AwaitProducer)
        } else {
            fail(t, Failure::Receive)
        },
        (Stage::Draining, Event::ProducerExited { success }) => if success {
            advance(t, Stage::Cleaning, Effect::ClearStaging)
        } else {
            fail(t, Failure::Producer)
        },
        (Stage::Cleaning, Event::CommandExited { status }) => if status == 0 {
            advance(t, Stage::Cleaned, Effect::Finish { bytes: t.bytes })
        } else {
            fail(t, Failure::RemoveStaging)
        },
        _ => fail(t, Failure::OutOfTurn),
    }
}

impl Transfer {
    /// A transfer that has not begun.
    pub fn new() -> (t: Transfer)
        ensures
            t == (Transfer { stage: Stage::Idle, chunks: 0, bytes: 0 }),
    {
        Transfer { stage: Stage::Idle, chunks: 0, bytes: 0 }
    }

    fn advance(&self, stage: Stage, effect: Effect) -> (s: Step)
        ensures
            s == advance(*self, stage, effect),
    {
        Step {
            state: Transfer { stage, chunks: self.chunks, bytes: self.bytes },
            effect,
            stale_staging: false,
        }
    }

    fn fail(&self, failure: Failure) -> (s: Step)
        ensures
            s == fail(*self, failure),
    {
        self.advance(Stage::Failed, Effect::Abort(failure))
    }
}

/// Decides the next move in the transfer of one snapshot: the caller does
/// what the effect says and comes back with what happened. The stale
/// staging directory of an earlier run is removed with a warning; every
/// other failure stops the run.
pub fn send_snapshot(state: &Transfer, event: Event) -> (step: Step)
    ensures
        step == next_step(*state, event),
{
    match (state.stage, event) {
        (Stage::Failed, _) => state.fail(Failure::OutOfTurn),
        (Stage::Cleaned, _) => state.fail(Failure::OutOfTurn),
        (_, Event::Fault) => state.fail(Failure::Fault),
        (Stage::Idle, Event::Start) => state.advance(Stage::Clearing, Effect::ClearStaging),
        (Stage::Clearing, Event::CommandExited { status }) => Step {
            state: Transfer { stage: Stage::Creating, chunks: state.chunks, bytes: state.bytes },
            effect: Effect::CreateStaging,
            stale_staging: status == 0,
        },
        (Stage::Creating, Event::CommandExited { status }) => if status == 0 {
            state.advance(Stage::StagingPrepared, Effect::StartProducer)
        } else {
            state.fail(Failure::CreateStaging)
        },
        (Stage::StagingPrepared, Event::ProducerStarted) => state.advance(
            Stage::Streaming,
            Effect::NextChunk,
        ),
        (Stage::Streaming, Event::Chunk { len }) => if state.chunks < MAX_CHUNKS {
            let bytes: u64 = if len > u64::MAX - state.bytes {
                u64::MAX
            } else {
                state.bytes + len
            };
            Step {
                state: Transfer { stage: Stage::Uploading, chunks: state.chunks + 1, bytes },
                effect: Effect::Upload { index: state.chunks, size: len },
                stale_staging: false,
            }
        } else {
            state.fail(Failure::TooManyChunks)
        },
        (Stage::Streaming, Event::EndOfStream) => state.advance(
            Stage::Reassembling,
            Effect::Reassemble,
        ),
        (Stage::Uploading, Event::Uploaded) => state.advance(Stage::Streaming, Effect::NextChunk),
        (Stage::Reassembling, Event::CommandExited { status }) => if status == 0 {
            state.advance(Stage::Draining, Effect::AwaitProducer)
        } else {
            state.fail(Failure::Receive)
        },
        (Stage::Draining, Event::ProducerExited { success }) => if success {
            state.advance(Stage::Cleaning, Effect::ClearStaging)
        } else {
            state.fail(Failure::Producer)
        },
        (Stage::Cleaning, Event::CommandExited { status }) => if status == 0 {
            state.advance(Stage::Cleaned, Effect::Finish { bytes: state.bytes })
        } else {
            state.fail(Failure::RemoveStaging)
        },
        _ => state.fail(Failure::OutOfTurn),
    }
}

/// The numbers of the chunks whose upload a series of events brings
/// about, in the order of the uploads.
pub open spec fn uploaded(t: Transfer, events: Seq<Event>) -> Seq<u64>
    decreases events.len(),
{
    if events.len() == 0 {
        Seq::empty()
    } else {
        let step = next_step(t, events[0]);
        let rest = uploaded(step.state, events.drop_first());
        match step.effect {
            Effect::Upload { index, size } => seq![index] + rest,
            _ => rest,
        }
    }
}

/// Whatever happens, the chunks of a transfer are uploaded under
/// consecutive numbers: the first under the number of chunks uploaded
/// before, each later one under the next number.
pub proof fn lemma_uploads_numbered(t: Transfer, events: Seq<Event>)
    ensures
        forall|k: int|
            0 <= k < uploaded(t, events).len() ==> #[trigger] uploaded(t, events)[k] == t.chunks
                + k,
    decreases events.len(),
{
    if events.len() > 0 {
        let step = next_step(t, events[0]);
        let rest = uploaded(step.state, events.drop_first());
        lemma_uploads_numbered(step.state, events.drop_first());
        match step.effect {
            Effect::Upload { index, size } => {
                assert(index == t.chunks && step.state.chunks == t.chunks + 1);
                assert forall|k: int| 0 <= k < uploaded(t, events).len() implies #[trigger] uploaded(
                    t,
                    events,
                )[k] == t.chunks + k by {
                    if k > 0 {
                        assert(uploaded(t, events)[k] == rest[k - 1]);
                    }
                }
            },
            _ => {
                assert(step.state.chunks == t.chunks);
            },
        }
    }
}

/// The message of a failure, with the output that the failed command or
/// producer left, word for word.
pub open spec fn failure_text(failure: Failure, stdout: Seq<char>, stderr: Seq<char>) -> Seq<char> {
    match failure {
        Failure::CreateStaging => "failed to create .tmp dir on remote"@,
        Failure::Receive => "btrfs receive failed\nstdout:\n"@ + stdout + "\nstderr:\n"@ + stderr,
        Failure::Producer => "btrfs send failed\nstderr:\n"@ + stderr,
        Failure::RemoveStaging => "failed to remove .tmp dir"@,
        Failure::TooManyChunks => "snapshot stream has too many chunks"@,
        Failure::Fault => "transfer interrupted"@,
        Failure::OutOfTurn => "transfer out of step"@,
    }
}

pub fn failure_message(failure: Failure, stdout: &str, stderr: &str) -> (s: String)
    ensures
        s@ == failure_text(failure, stdout@, stderr@),
{
    match failure {
        Failure::CreateStaging => String::from_str("failed to create .tmp dir on remote"),
        Failure::Receive => {
            let mut s = String::from_str("btrfs receive failed\nstdout:\n");
            s.append(stdout);
            s.append("\nstderr:\n");
            s.append(stderr);
            s
        },
        Failure::Producer => {
            let mut s = String::from_str("btrfs send failed\nstderr:\n");
            s.append(stderr);
            s
        },
        Failure::RemoveStaging => String::from_str("failed to remove .tmp dir"),
        Failure::TooManyChunks => String::from_str("snapshot stream has too many chunks"),
        Failure::Fault => String::from_str("transfer interrupted"),
        Failure::OutOfTurn => String::from_str("transfer out of step"),
    }
}

/// A staging directory left by an earlier run does not stop a transfer:
/// whether or not the removal found one, the fresh directory is created
/// next, and a directory that was found is reported.
pub proof fn lemma_stale_staging_tolerated(t: Transfer, status: i32)
    requires
        t.stage == Stage::Clearing,
    ensures
        next_step(t, Event::CommandExited { status }).state.stage == Stage::Creating,
        next_step(t, Event::CommandExited { status }).effect == Effect::CreateStaging,
        next_step(t, Event::CommandExited { status }).stale_staging == (status == 0),
{
}

/// The stages in the order in which a transfer passes through them; the
/// wait for a chunk and the upload of a chunk take turns.
pub open spec fn follows(from: Stage, to: Stage) -> bool {
    match (from, to) {
        (Stage::Idle, Stage::Clearing) => true,
        (Stage::Clearing, Stage::Creating) => true,
        (Stage::Creating, Stage::StagingPrepared) => true,
        (Stage::StagingPrepared, Stage::Streaming) => true,
        (Stage::Streaming, Stage::Uploading) => true,
        (Stage::Uploading, Stage::Streaming) => true,
        (Stage::Streaming, Stage::Reassembling) => true,
        (Stage::Reassembling, Stage::Draining) => true,
        (Stage::Draining, Stage::Cleaning) => true,
        (Stage::Cleaning, Stage::Cleaned) => true,
        _ => false,
    }
}

/// No stage is skipped: a step leads to the stage that follows, or the
/// transfer fails. So a transfer is cleaned up only after the staging
/// directory was made afresh, the stream was uploaded to its end, and the
/// receiver and the producer have succeeded, in this order.
pub proof fn lemma_no_stage_skipped(t: Transfer, event: Event)
    ensures
        next_step(t, event).state.stage == Stage::Failed || follows(
            t.stage,
            next_step(t, event).state.stage,
        ),
        next_step(t, event).state.chunks >= t.chunks,
        next_step(t, event).state.bytes >= t.bytes,
{
}

/// A transfer that failed or was cleaned up takes no further step, and a
/// failure is never undone.
pub proof fn lemma_final_stages(t: Transfer, event: Event)
    ensures
        t.stage == Stage::Failed || t.stage == Stage::Cleaned ==> next_step(t, event).state.stage
            == Stage::Failed,
        next_step(t, event).state.stage == Stage::Failed <==> next_step(t, event).effect is Abort,
        next_step(t, event).state.stage == Stage::Cleaned ==> t.stage == Stage::Cleaning && event
            == (Event::CommandExited { status: 0 }),
{
}

/// The name of the chunk file with the given number.
pub open spec fn chunk_name_text(index: nat) -> Seq<char> {
    zero_padded(index, CHUNK_NAME_WIDTH as nat)
}

/// The chunk files that an upload can name are listed in the order of
/// their numbers where their names are sorted, so joining them in that
/// order joins the chunks as they came.
pub proof fn lemma_chunk_names_ascend(i: nat, j: nat)
    requires
        i < j < MAX_CHUNKS,
    ensures
        chunk_name_text(i).len() == CHUNK_NAME_WIDTH,
        chunk_name_text(j).len() == CHUNK_NAME_WIDTH,
        sorts_before(chunk_name_text(i), chunk_name_text(j)),
{
    assert(pow10(16) == MAX_CHUNKS) by {
        reveal_with_fuel(pow10, 17);
    }
    lemma_zero_padded_order(i, j, 16);
}

/// Chunks are numbered in the order in which they arrive, from zero, and
/// every byte handed to the upload is counted.
pub proof fn lemma_upload_order(t: Transfer, len: u64)
    requires
        t.stage == Stage::Streaming,
        t.chunks < MAX_CHUNKS,
    ensures
        next_step(t, Event::Chunk { len }).effect == (Effect::Upload { index: t.chunks, size: len }),
        next_step(t, Event::Chunk { len }).state.chunks == t.chunks + 1,
        next_step(t, Event::Chunk { len }).state.bytes == capped_sum(t.bytes, len),
        next_step(
            next_step(t, Event::Chunk { len }).state,
            Event::Uploaded,
        ).state.stage == Stage::Streaming,
{
}

} // verus!
