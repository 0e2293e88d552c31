use video_transcoder::job::{
    derive_paths, job_step, start_job, JobEvent, JobOutcome, JobPhase, JobSpec,
};
use video_transcoder::ledger::parse_ledger;

fn job(stem: &str, input: &str, subtitle: Option<&str>) -> JobSpec {
    JobSpec {
        stem: stem.to_string(),
        input_path: input.to_string(),
        subtitle_path: subtitle.map(|s| s.to_string()),
    }
}

#[test]
fn derived_paths_match_the_expected_locations() {
    let j = job("sample", "/mnt/smb/sample.mkv", Some("/mnt/smb/sample.srt"));
    let p = derive_paths("/tmp/video_convert_work", &j);
    assert_eq!(p.temp_input, "/tmp/video_convert_work/sample.mkv");
    assert_eq!(p.temp_subtitle.as_deref(), Some("/tmp/video_convert_work/sample.srt"));
    assert_eq!(p.output, "/mnt/smb/sample.mp4");
    assert_eq!(p.log, "/mnt/smb/sample.log");
    assert_eq!(p.converted_marker, "/mnt/smb/sample.converted.mp4");
}

#[test]
fn ledgered_identifier_is_skipped_before_any_side_effect() {
    let snapshot = parse_ledger(Some("sample\n"));
    let phase = start_job(&snapshot, "sample");
    assert_eq!(phase, JobPhase::Done(JobOutcome::Skipped));
}

#[test]
fn output_short_circuit_appends_without_transcoding() {
    let snapshot = parse_ledger(None);
    let mut phase = start_job(&snapshot, "a");
    let mut visited = Vec::new();
    while !matches!(phase, JobPhase::Done(_)) {
        visited.push(phase);
        let ev = match phase {
            JobPhase::CopyingInput => JobEvent::Copied(true),
            JobPhase::CheckingOutput => JobEvent::OutputPresent(true),
            _ => JobEvent::Appended,
        };
        phase = job_step(false, phase, ev);
    }
    assert_eq!(phase, JobPhase::Done(JobOutcome::AlreadyConverted));
    assert!(!visited.contains(&JobPhase::Transcoding));
    assert!(visited.contains(&JobPhase::AppendingLedger(JobOutcome::AlreadyConverted)));
}

#[test]
fn failed_input_copy_ends_the_job_unledgered() {
    let phase = job_step(false, JobPhase::CopyingInput, JobEvent::Copied(false));
    assert_eq!(phase, JobPhase::Done(JobOutcome::InputCopyFailed));
}

#[test]
fn failed_subtitle_copy_ends_the_job_unledgered() {
    let phase = job_step(true, JobPhase::CheckingOutput, JobEvent::OutputPresent(false));
    assert_eq!(phase, JobPhase::CopyingSubtitle);
    let phase = job_step(true, phase, JobEvent::Copied(false));
    assert_eq!(phase, JobPhase::Done(JobOutcome::SubtitleCopyFailed));
}

#[test]
fn nonzero_exit_ends_the_job_unledgered() {
    let phase = job_step(false, JobPhase::Transcoding, JobEvent::Ran {
        spawned: true,
        exit_ok: false,
    });
    assert_eq!(phase, JobPhase::Done(JobOutcome::TranscodeFailed));
    let phase = job_step(false, JobPhase::Transcoding, JobEvent::Ran {
        spawned: false,
        exit_ok: false,
    });
    assert_eq!(phase, JobPhase::Done(JobOutcome::SpawnFailed));
}

#[test]
fn successful_run_passes_through_marker_and_append() {
    let mut phase = JobPhase::CopyingInput;
    phase = job_step(true, phase, JobEvent::Copied(true));
    assert_eq!(phase, JobPhase::CheckingOutput);
    phase = job_step(true, phase, JobEvent::OutputPresent(false));
    assert_eq!(phase, JobPhase::CopyingSubtitle);
    phase = job_step(true, phase, JobEvent::Copied(true));
    assert_eq!(phase, JobPhase::Transcoding);
    phase = job_step(true, phase, JobEvent::Ran { spawned: true, exit_ok: true });
    assert_eq!(phase, JobPhase::CopyingMarker);
    phase = job_step(true, phase, JobEvent::Copied(false));
    assert_eq!(phase, JobPhase::AppendingLedger(JobOutcome::Converted));
    phase = job_step(true, phase, JobEvent::Appended);
    assert_eq!(phase, JobPhase::Done(JobOutcome::Converted));
}
