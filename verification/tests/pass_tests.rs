use video_transcoder::discovery::{pair_files, FileRecord};
use video_transcoder::events::{choose_strategy, event_triggers_pass, FsEventKind, WatchStrategy};
use video_transcoder::gpu::Capability;
use video_transcoder::invocation::build_transcode_args;
use video_transcoder::job::{
    derive_paths, job_step, start_job, JobEvent, JobOutcome, JobPhase, JobSpec,
};
use video_transcoder::ledger::{parse_ledger, render_entry, Ledger};
use video_transcoder::schedule::plan_pass;

fn rec(path: &str) -> FileRecord {
    FileRecord { path: path.to_string(), is_regular: true }
}

/// Drive one job's machine, answering with the given surroundings; returns
/// the outcome, whether the transcoder phase was reached, and whether the
/// identifier was appended.
fn drive(job: &JobSpec, snapshot: &Ledger, exit_ok: bool) -> (JobOutcome, bool, bool) {
    let has_subtitle = job.subtitle_path.is_some();
    let mut phase = start_job(snapshot, &job.stem);
    let mut invoked = false;
    let mut appended = false;
    loop {
        match phase {
            JobPhase::Done(outcome) => return (outcome, invoked, appended),
            JobPhase::Transcoding => {
                invoked = true;
                phase = job_step(
                    has_subtitle,
                    phase,
                    JobEvent::Ran { spawned: true, exit_ok },
                );
            },
            JobPhase::CheckingOutput => {
                phase = job_step(has_subtitle, phase, JobEvent::OutputPresent(false));
            },
            JobPhase::AppendingLedger(_) => {
                appended = true;
                phase = job_step(has_subtitle, phase, JobEvent::Appended);
            },
            _ => {
                phase = job_step(has_subtitle, phase, JobEvent::Copied(true));
            },
        }
    }
}

#[test]
fn end_to_end_scenario_converts_once_and_ledgers_once() {
    // A directory with show.container and show.subtitle.
    let files = vec![rec("/media/show.mkv"), rec("/media/show.srt")];
    let pairing = pair_files(&files);
    let snapshot = parse_ledger(None);

    // First pass: one job, with the subtitle paired in.
    let plan = plan_pass(&pairing.containers, &pairing.subtitles, &snapshot);
    assert_eq!(plan.len(), 1);
    let job = &plan[0];
    assert_eq!(job.stem, "show");
    assert_eq!(job.subtitle_path.as_deref(), Some("/media/show.srt"));

    // Its invocation maps both the video and the subtitle stream, and its
    // diagnostics go to the derived log path.
    let paths = derive_paths("/tmp/video_convert_work", job);
    assert_eq!(paths.output, "/media/show.mp4");
    assert_eq!(paths.log, "/media/show.log");
    let args = build_transcode_args(
        Capability::Cpu,
        &paths.temp_input,
        paths.temp_subtitle.as_deref(),
        &paths.output,
    );
    assert!(args.iter().any(|a| a == "0:v:0"));
    assert!(args.iter().any(|a| a == "1:s:0"));

    // The job converts and appends exactly one ledger line.
    let (outcome, invoked, appended) = drive(job, &snapshot, true);
    assert_eq!(outcome, JobOutcome::Converted);
    assert!(invoked);
    assert!(appended);
    let ledger_text = render_entry(&job.stem);
    assert_eq!(ledger_text, "show\n");

    // Second pass against the grown ledger: nothing is planned, so no new
    // process spawn, and the ledger still holds exactly one entry.
    let grown = parse_ledger(Some(&ledger_text));
    assert_eq!(grown.len(), 1);
    let second = plan_pass(&pairing.containers, &pairing.subtitles, &grown);
    assert!(second.is_empty());
}

#[test]
fn rerun_with_first_runs_ledger_plans_nothing() {
    let files = vec![rec("/media/a.mkv"), rec("/media/b.mkv")];
    let pairing = pair_files(&files);
    let text = format!("{}{}", render_entry("a"), render_entry("b"));
    let grown = parse_ledger(Some(&text));
    let plan = plan_pass(&pairing.containers, &pairing.subtitles, &grown);
    assert!(plan.is_empty());
}

#[test]
fn failing_job_does_not_prevent_siblings_from_being_ledgered() {
    let files = vec![rec("/media/bad.mkv"), rec("/media/good.mkv")];
    let pairing = pair_files(&files);
    let snapshot = parse_ledger(None);
    let plan = plan_pass(&pairing.containers, &pairing.subtitles, &snapshot);
    assert_eq!(plan.len(), 2);
    let mut appended_stems = Vec::new();
    for job in &plan {
        let exit_ok = job.stem != "bad";
        let (outcome, _, appended) = drive(job, &snapshot, exit_ok);
        if appended {
            appended_stems.push(job.stem.clone());
        }
        if job.stem == "bad" {
            assert_eq!(outcome, JobOutcome::TranscodeFailed);
        } else {
            assert_eq!(outcome, JobOutcome::Converted);
        }
    }
    assert_eq!(appended_stems, vec!["good".to_string()]);
}

#[test]
fn planned_jobs_skip_ledgered_identifiers_and_pair_subtitles() {
    let files = vec![
        rec("/media/a.mkv"),
        rec("/media/a.srt"),
        rec("/media/b.mkv"),
        rec("/media/c.mkv"),
    ];
    let pairing = pair_files(&files);
    let snapshot = parse_ledger(Some("c\n"));
    let plan = plan_pass(&pairing.containers, &pairing.subtitles, &snapshot);
    assert_eq!(plan.len(), 2);
    assert_eq!(plan[0].stem, "a");
    assert_eq!(plan[0].subtitle_path.as_deref(), Some("/media/a.srt"));
    assert_eq!(plan[1].stem, "b");
    assert_eq!(plan[1].subtitle_path, None);
}

#[test]
fn create_and_modify_events_trigger_a_pass() {
    assert!(event_triggers_pass(FsEventKind::Create));
    assert!(event_triggers_pass(FsEventKind::Modify));
    assert!(!event_triggers_pass(FsEventKind::Remove));
    assert!(!event_triggers_pass(FsEventKind::Access));
    assert!(!event_triggers_pass(FsEventKind::Other));
}

#[test]
fn remote_mounts_poll_and_local_roots_watch() {
    assert_eq!(choose_strategy(true), WatchStrategy::PollFallback);
    assert_eq!(choose_strategy(false), WatchStrategy::Reactive);
}
