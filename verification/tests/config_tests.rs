use video_transcoder::config::config_from_settings;
use video_transcoder::text::parse_usize;

#[test]
fn config_defaults_when_unset() {
    let cfg = config_from_settings(None, None, None);
    assert_eq!(cfg.watch_dir, "/mnt/smb/Test-transcoding");
    assert_eq!(cfg.is_smb, false);
    assert!(cfg.threads >= 1);
}

#[test]
fn config_takes_explicit_settings() {
    let cfg = config_from_settings(
        Some("/custom/dir".to_string()),
        Some("true".to_string()),
        Some("4".to_string()),
    );
    assert_eq!(cfg.watch_dir, "/custom/dir");
    assert_eq!(cfg.is_smb, true);
    assert_eq!(cfg.threads, 4);
}

#[test]
fn config_threads_fallback_on_invalid_value() {
    let cfg = config_from_settings(None, None, Some("not_a_number".to_string()));
    assert!(cfg.threads >= 1);
}

#[test]
fn config_smb_flag_is_case_insensitive() {
    let cfg = config_from_settings(None, Some("TrUe".to_string()), None);
    assert!(cfg.is_smb);
    let cfg = config_from_settings(None, Some("FALSE".to_string()), None);
    assert!(!cfg.is_smb);
}

#[test]
fn parse_usize_accepts_plain_and_signed_numerals() {
    assert_eq!(parse_usize("3"), Some(3));
    assert_eq!(parse_usize("+42"), Some(42));
    assert_eq!(parse_usize("0"), Some(0));
    assert_eq!(parse_usize("18446744073709551615"), Some(usize::MAX));
}

#[test]
fn parse_usize_rejects_malformed_and_overflowing_numerals() {
    assert_eq!(parse_usize(""), None);
    assert_eq!(parse_usize("+"), None);
    assert_eq!(parse_usize("-1"), None);
    assert_eq!(parse_usize("4x"), None);
    assert_eq!(parse_usize("not_a_number"), None);
    assert_eq!(parse_usize("18446744073709551616"), None);
}
