//! One transcoding job: the paths it touches, the state machine that orders
//! its side effects, and the invocation it hands the external transcoder.
//! The filesystem copies, the existence test, the process spawn and the
//! ledger append are the caller's I/O; each is reported back to the machine
//! as an event, and the machine fixes what happens next.

use vstd::prelude::*;
use crate::gpu::Capability;
use crate::invocation::{
    lemma_codec_selection, lemma_subtitle_args, lemma_video_stream_kept, spec_transcode_args,
    video_codec_of,
};
use crate::ledger::{ledger_has, Ledger};
use crate::paths::{
    base_name, base_name_of, join_path, join_under, lemma_join_keeps_dot, lemma_with_ext_has_dot,
    replace_ext, with_ext,
};
use crate::text::has_char;

verus! {

/// What one job binds: the identifier, the container path and the optional
/// subtitle path, fixed when the scheduler fans out.
pub struct JobSpec {
    pub stem: String,
    pub input_path: String,
    pub subtitle_path: Option<String>,
}

impl View for JobSpec {
    type V = (Seq<char>, Seq<char>, Option<Seq<char>>);

    open spec fn view(&self) -> (Seq<char>, Seq<char>, Option<Seq<char>>) {
        (
            self.stem@,
            self.input_path@,
            match self.subtitle_path {
                Some(ref p) => Some(p@),
                None => None,
            },
        )
    }
}

impl DeepView for JobSpec {
    type V = (Seq<char>, Seq<char>, Option<Seq<char>>);

    open spec fn deep_view(&self) -> (Seq<char>, Seq<char>, Option<Seq<char>>) {
        self.view()
    }
}

/// The scratch copy of the container: its file name placed under the scratch
/// directory.
pub open spec fn spec_temp_input(temp_dir: Seq<char>, input: Seq<char>) -> Seq<char> {
    join_path(temp_dir, base_name_of(input))
}

/// The derived output path: the container path with its extension replaced.
pub open spec fn spec_output(input: Seq<char>) -> Seq<char> {
    with_ext(input, "mp4"@)
}

/// The per-item log path: the output path with its extension replaced.
pub open spec fn spec_log(input: Seq<char>) -> Seq<char> {
    with_ext(spec_output(input), "log"@)
}

/// The adjacent converted-marker path.
pub open spec fn spec_converted_marker(input: Seq<char>) -> Seq<char> {
    with_ext(input, "converted.mp4"@)
}

/// The filesystem locations one job touches.
pub struct JobPaths {
    /// The scratch copy of the container handed to the transcoder.
    pub temp_input: String,
    /// The scratch copy of the subtitle, for jobs that have one.
    pub temp_subtitle: Option<String>,
    /// Where the transcoder writes its output.
    pub output: String,
    /// Where the transcoder's diagnostics are captured.
    pub log: String,
    /// The best-effort marker copy adjacent to the input.
    pub converted_marker: String,
}

/// Derive every path one job touches from its binding and the scratch
/// directory.
pub fn derive_paths(temp_dir: &str, job: &JobSpec) -> (r: JobPaths)
    ensures
        r.temp_input@ == spec_temp_input(temp_dir@, job.input_path@),
        match (&r.temp_subtitle, &job.subtitle_path) {
            (Some(t), Some(s)) => t@ == spec_temp_input(temp_dir@, s@),
            (None, None) => true,
            _ => false,
        },
        r.output@ == spec_output(job.input_path@),
        r.log@ == spec_log(job.input_path@),
        r.converted_marker@ == spec_converted_marker(job.input_path@),
{
    let input_name = base_name(job.input_path.as_str());
    let temp_input = join_under(temp_dir, input_name.as_str());
    let temp_subtitle = match &job.subtitle_path {
        Some(s) => {
            let sub_name = base_name(s.as_str());
            Some(join_under(temp_dir, sub_name.as_str()))
        },
        None => None,
    };
    let output = replace_ext(job.input_path.as_str(), "mp4");
    let log = replace_ext(output.as_str(), "log");
    let converted_marker = replace_ext(job.input_path.as_str(), "converted.mp4");
    JobPaths { temp_input, temp_subtitle, output, log, converted_marker }
}

/// The outcome one job body returns.
#[derive(Clone, Copy, PartialEq, Eq, Structural, Debug)]
pub enum JobOutcome {
    /// The identifier was already in the ledger snapshot; no side effects.
    Skipped,
    /// The scratch copy of the container failed; retried next pass.
    InputCopyFailed,
    /// The derived output already existed; ledgered without a spawn.
    AlreadyConverted,
    /// The scratch copy of the subtitle failed; retried next pass.
    SubtitleCopyFailed,
    /// The external process could not be spawned or waited on.
    SpawnFailed,
    /// The external process exited non-zero.
    TranscodeFailed,
    /// Transcoded, marker copied best-effort, and ledgered.
    Converted,
}

/// Where one job stands; each non-terminal phase names the single side effect
/// the executor performs next.
#[derive(Clone, Copy, PartialEq, Eq, Structural, Debug)]
pub enum JobPhase {
    /// Copy the container into the scratch area.
    CopyingInput,
    /// Test whether the derived output path already exists.
    CheckingOutput,
    /// Copy the subtitle into the scratch area (jobs with one only).
    CopyingSubtitle,
    /// Spawn the external transcoder and wait for its exit.
    Transcoding,
    /// Best-effort copy of the output to the converted marker.
    CopyingMarker,
    /// Append the identifier to the ledger, then end in the given outcome.
    AppendingLedger(JobOutcome),
    /// The job body returned.
    Done(JobOutcome),
}

/// What the executor reports back after performing a phase's side effect.
#[derive(Clone, Copy, PartialEq, Eq, Structural, Debug)]
pub enum JobEvent {
    /// A filesystem copy succeeded or failed.
    Copied(bool),
    /// Whether the derived output path exists.
    OutputPresent(bool),
    /// The transcoder ran: whether it could be spawned and waited on at all,
    /// and whether it exited zero.
    Ran { spawned: bool, exit_ok: bool },
    /// The best-effort ledger append was attempted.
    Appended,
}

/// The phase a job starts in: returned at once, with no side effects, when
/// its identifier was already ledgered.
pub open spec fn spec_init_phase(in_ledger: bool) -> JobPhase {
    if in_ledger {
        JobPhase::Done(JobOutcome::Skipped)
    } else {
        JobPhase::CopyingInput
    }
}

/// The cheapest gate, checked first: an identifier already in the snapshot
/// is done with no side effects; anything else begins with the scratch copy.
pub open spec fn spec_start(snapshot: Seq<Seq<char>>, stem: Seq<char>) -> JobPhase {
    spec_init_phase(ledger_has(snapshot, stem))
}

/// Begin one job against the pass's ledger snapshot.
pub fn start_job(snapshot: &Ledger, stem: &str) -> (r: JobPhase)
    ensures
        r == spec_start(snapshot@, stem@),
{
    if snapshot.contains(stem) {
        JobPhase::Done(JobOutcome::Skipped)
    } else {
        JobPhase::CopyingInput
    }
}

/// The transition relation of one job. A failed input or subtitle copy and a
/// failed spawn or exit end the job unledgered, eligible for retry next pass;
/// an already-present output and a successful run both pass through the
/// ledger append; a failed marker copy is absorbed, never blocking the
/// append. An event that cannot answer the phase leaves the phase unchanged.
pub open spec fn spec_step(has_subtitle: bool, phase: JobPhase, ev: JobEvent) -> JobPhase {
    match (phase, ev) {
        (JobPhase::CopyingInput, JobEvent::Copied(ok)) => if ok {
            JobPhase::CheckingOutput
        } else {
            JobPhase::Done(JobOutcome::InputCopyFailed)
        },
        (JobPhase::CheckingOutput, JobEvent::OutputPresent(p)) => if p {
            JobPhase::AppendingLedger(JobOutcome::AlreadyConverted)
        } else if has_subtitle {
            JobPhase::CopyingSubtitle
        } else {
            JobPhase::Transcoding
        },
        (JobPhase::CopyingSubtitle, JobEvent::Copied(ok)) => if ok {
            JobPhase::Transcoding
        } else {
            JobPhase::Done(JobOutcome::SubtitleCopyFailed)
        },
        (JobPhase::Transcoding, JobEvent::Ran { spawned, exit_ok }) => if !spawned {
            JobPhase::Done(JobOutcome::SpawnFailed)
        } else if exit_ok {
            JobPhase::CopyingMarker
        } else {
            JobPhase::Done(JobOutcome::TranscodeFailed)
        },
        (JobPhase::CopyingMarker, JobEvent::Copied(_)) => JobPhase::AppendingLedger(
            JobOutcome::Converted,
        ),
        (JobPhase::AppendingLedger(o), JobEvent::Appended) => JobPhase::Done(o),
        _ => phase,
    }
}

/// Advance one job by the event the executor reports.
pub fn job_step(has_subtitle: bool, phase: JobPhase, ev: JobEvent) -> (r: JobPhase)
    ensures
        r == spec_step(has_subtitle, phase, ev),
{
    match (phase, ev) {
        (JobPhase::CopyingInput, JobEvent::Copied(ok)) => if ok {
            JobPhase::CheckingOutput
        } else {
            JobPhase::Done(JobOutcome::InputCopyFailed)
        },
        (JobPhase::CheckingOutput, JobEvent::OutputPresent(p)) => if p {
            JobPhase::AppendingLedger(JobOutcome::AlreadyConverted)
        } else if has_subtitle {
            JobPhase::CopyingSubtitle
        } else {
            JobPhase::Transcoding
        },
        (JobPhase::CopyingSubtitle, JobEvent::Copied(ok)) => if ok {
            JobPhase::Transcoding
        } else {
            JobPhase::Done(JobOutcome::SubtitleCopyFailed)
        },
        (JobPhase::Transcoding, JobEvent::Ran { spawned, exit_ok }) => if !spawned {
            JobPhase::Done(JobOutcome::SpawnFailed)
        } else if exit_ok {
            JobPhase::CopyingMarker
        } else {
            JobPhase::Done(JobOutcome::TranscodeFailed)
        },
        (JobPhase::CopyingMarker, JobEvent::Copied(_)) => JobPhase::AppendingLedger(
            JobOutcome::Converted,
        ),
        (JobPhase::AppendingLedger(o), JobEvent::Appended) => JobPhase::Done(o),
        _ => phase,
    }
}

/// What the surroundings answer one job: whether its identifier was in the
/// snapshot, whether each copy succeeds, whether the output already exists,
/// and how the external process run goes.
#[derive(Clone, Copy, PartialEq, Eq, Structural, Debug)]
pub struct JobEnv {
    pub in_ledger: bool,
    pub input_copy_ok: bool,
    pub output_exists: bool,
    pub subtitle_copy_ok: bool,
    pub spawned: bool,
    pub exit_ok: bool,
}

/// The outcome one job reaches against given surroundings.
pub open spec fn spec_outcome(has_subtitle: bool, env: JobEnv) -> JobOutcome {
    if env.in_ledger {
        JobOutcome::Skipped
    } else if !env.input_copy_ok {
        JobOutcome::InputCopyFailed
    } else if env.output_exists {
        JobOutcome::AlreadyConverted
    } else if has_subtitle && !env.subtitle_copy_ok {
        JobOutcome::SubtitleCopyFailed
    } else if !env.spawned {
        JobOutcome::SpawnFailed
    } else if !env.exit_ok {
        JobOutcome::TranscodeFailed
    } else {
        JobOutcome::Converted
    }
}

/// Whether an outcome appends the identifier to the ledger.
pub open spec fn outcome_ledgered(o: JobOutcome) -> bool {
    o == JobOutcome::AlreadyConverted || o == JobOutcome::Converted
}

/// The event given surroundings answer at each phase.
pub open spec fn env_event(phase: JobPhase, env: JobEnv) -> JobEvent {
    match phase {
        JobPhase::CopyingInput => JobEvent::Copied(env.input_copy_ok),
        JobPhase::CheckingOutput => JobEvent::OutputPresent(env.output_exists),
        JobPhase::CopyingSubtitle => JobEvent::Copied(env.subtitle_copy_ok),
        JobPhase::Transcoding => JobEvent::Ran { spawned: env.spawned, exit_ok: env.exit_ok },
        JobPhase::CopyingMarker => JobEvent::Copied(true),
        JobPhase::AppendingLedger(_) => JobEvent::Appended,
        JobPhase::Done(_) => JobEvent::Appended,
    }
}

/// The machine after `k` steps against fixed surroundings.
pub open spec fn run_steps(has_subtitle: bool, phase: JobPhase, env: JobEnv, k: nat) -> JobPhase
    decreases k,
{
    if k == 0 {
        phase
    } else {
        run_steps(
            has_subtitle,
            spec_step(has_subtitle, phase, env_event(phase, env)),
            env,
            (k - 1) as nat,
        )
    }
}

/// A returned job stays returned, whatever else is reported.
pub proof fn lemma_done_stays(has_subtitle: bool, env: JobEnv, o: JobOutcome, k: nat)
    ensures
        run_steps(has_subtitle, JobPhase::Done(o), env, k) == JobPhase::Done(o),
    decreases k,
{
    if k > 0 {
        lemma_done_stays(has_subtitle, env, o, (k - 1) as nat);
    }
}

/// Law: from the starting gate, a job always ends — after six or more steps
/// it is `Done`, with the outcome its own surroundings alone determine.
pub proof fn lemma_job_run(has_subtitle: bool, env: JobEnv, k: nat)
    requires
        k >= 6,
    ensures
        run_steps(has_subtitle, spec_init_phase(env.in_ledger), env, k) == JobPhase::Done(
            spec_outcome(has_subtitle, env),
        ),
{
    let h = has_subtitle;
    let p0 = spec_init_phase(env.in_ledger);
    let p1 = spec_step(h, p0, env_event(p0, env));
    let p2 = spec_step(h, p1, env_event(p1, env));
    let p3 = spec_step(h, p2, env_event(p2, env));
    let p4 = spec_step(h, p3, env_event(p3, env));
    let p5 = spec_step(h, p4, env_event(p4, env));
    let p6 = spec_step(h, p5, env_event(p5, env));
    assert(run_steps(h, p0, env, k) == run_steps(h, p1, env, (k - 1) as nat));
    assert(run_steps(h, p1, env, (k - 1) as nat) == run_steps(h, p2, env, (k - 2) as nat));
    assert(run_steps(h, p2, env, (k - 2) as nat) == run_steps(h, p3, env, (k - 3) as nat));
    assert(run_steps(h, p3, env, (k - 3) as nat) == run_steps(h, p4, env, (k - 4) as nat));
    assert(run_steps(h, p4, env, (k - 4) as nat) == run_steps(h, p5, env, (k - 5) as nat));
    assert(run_steps(h, p5, env, (k - 5) as nat) == run_steps(h, p6, env, (k - 6) as nat));
    assert(p6 == JobPhase::Done(spec_outcome(h, env)));
    lemma_done_stays(h, env, spec_outcome(h, env), (k - 6) as nat);
}

/// Law: for a job whose container and subtitle file names carry extensions —
/// as every discovered pair does — the invocation built over the derived
/// paths maps the video stream always, maps the subtitle stream exactly when
/// the job has a subtitle, and names the selected capability's video codec
/// and no other's.
pub proof fn lemma_job_invocation(
    cap: Capability,
    temp_dir: Seq<char>,
    input: Seq<char>,
    subtitle: Option<Seq<char>>,
)
    requires
        has_char(base_name_of(input), '.'),
        subtitle matches Some(s) ==> has_char(base_name_of(s), '.'),
    ensures
        ({
            let srt = match subtitle {
                Some(s) => Some(spec_temp_input(temp_dir, s)),
                None => None,
            };
            let args = spec_transcode_args(
                cap,
                spec_temp_input(temp_dir, input),
                srt,
                spec_output(input),
            );
            &&& args.contains("0:v:0"@)
            &&& subtitle is Some ==> args.contains("1:s:0"@) && args.contains("mov_text"@)
            &&& subtitle is None ==> !args.contains("1:s:0"@) && !args.contains("mov_text"@)
            &&& args.contains(video_codec_of(cap))
            &&& forall|other: Capability| other != cap ==> !args.contains(video_codec_of(other))
        }),
{
    let temp_input = spec_temp_input(temp_dir, input);
    let output = spec_output(input);
    let srt = match subtitle {
        Some(s) => Some(spec_temp_input(temp_dir, s)),
        None => None,
    };
    lemma_join_keeps_dot(temp_dir, base_name_of(input));
    lemma_with_ext_has_dot(input, "mp4"@);
    if subtitle is Some {
        lemma_join_keeps_dot(temp_dir, base_name_of(subtitle->0));
    }
    lemma_video_stream_kept(cap, temp_input, srt, output);
    lemma_subtitle_args(cap, temp_input, srt, output);
    lemma_codec_selection(cap, temp_input, srt, output);
}

/// Law: when the derived output already exists before the job asks, the job
/// ends ledgered as already converted, and the machine never stands in the
/// transcoding phase — no external process is spawned.
pub proof fn lemma_output_short_circuit(has_subtitle: bool, env: JobEnv, k: nat)
    requires
        !env.in_ledger,
        env.input_copy_ok,
        env.output_exists,
    ensures
        spec_outcome(has_subtitle, env) == JobOutcome::AlreadyConverted,
        outcome_ledgered(spec_outcome(has_subtitle, env)),
        run_steps(has_subtitle, spec_init_phase(env.in_ledger), env, k)
            != JobPhase::Transcoding,
{
    let h = has_subtitle;
    let p0 = spec_init_phase(env.in_ledger);
    let p1 = spec_step(h, p0, env_event(p0, env));
    let p2 = spec_step(h, p1, env_event(p1, env));
    let p3 = spec_step(h, p2, env_event(p2, env));
    assert(p0 == JobPhase::CopyingInput);
    assert(p1 == JobPhase::CheckingOutput);
    assert(p2 == JobPhase::AppendingLedger(JobOutcome::AlreadyConverted));
    assert(p3 == JobPhase::Done(JobOutcome::AlreadyConverted));
    if k == 0 {
    } else if k == 1 {
        assert(run_steps(h, p0, env, k) == run_steps(h, p1, env, 0nat));
    } else if k == 2 {
        assert(run_steps(h, p0, env, k) == run_steps(h, p1, env, 1nat));
        assert(run_steps(h, p1, env, 1nat) == run_steps(h, p2, env, 0nat));
    } else {
        assert(run_steps(h, p0, env, k) == run_steps(h, p1, env, (k - 1) as nat));
        assert(run_steps(h, p1, env, (k - 1) as nat) == run_steps(h, p2, env, (k - 2) as nat));
        assert(run_steps(h, p2, env, (k - 2) as nat) == run_steps(h, p3, env, (k - 3) as nat));
        lemma_done_stays(h, env, JobOutcome::AlreadyConverted, (k - 3) as nat);
    }
}

} // verus!
