use video_transcoder::discovery::{pair_files, FileRecord};

fn rec(path: &str, is_regular: bool) -> FileRecord {
    FileRecord { path: path.to_string(), is_regular }
}

#[test]
fn test_collect_files_finds_mkv_and_srt() {
    let files = vec![
        rec("/tmp/test_videos/video1.mkv", true),
        rec("/tmp/test_videos/video1.srt", true),
    ];
    let pairing = pair_files(&files);
    assert!(pairing.containers.get("video1").is_some());
    assert!(pairing.subtitles.get("video1").is_some());
}

#[test]
fn pairing_keys_containers_and_subtitles_by_stem() {
    let files = vec![
        rec("/media/a.mkv", true),
        rec("/media/a.srt", true),
        rec("/media/b.mkv", true),
    ];
    let pairing = pair_files(&files);
    assert_eq!(pairing.containers.len(), 2);
    assert_eq!(pairing.containers.get("a").as_deref(), Some("/media/a.mkv"));
    assert_eq!(pairing.containers.get("b").as_deref(), Some("/media/b.mkv"));
    assert_eq!(pairing.subtitles.len(), 1);
    assert_eq!(pairing.subtitles.get("a").as_deref(), Some("/media/a.srt"));
    assert!(pairing.subtitles.get("b").is_none());
}

#[test]
fn pairing_ignores_other_extensions_and_directories() {
    let files = vec![
        rec("/media/notes.txt", true),
        rec("/media/clip.mkv.backup", true),
        rec("/media/folder.mkv", false),
        rec("/media/.mkv", true),
        rec("/media/real.mkv", true),
    ];
    let pairing = pair_files(&files);
    assert_eq!(pairing.containers.len(), 1);
    assert!(pairing.containers.get("real").is_some());
    assert_eq!(pairing.subtitles.len(), 0);
}

#[test]
fn duplicate_stems_last_write_wins() {
    let files = vec![
        rec("/media/one/show.mkv", true),
        rec("/media/two/show.mkv", true),
    ];
    let pairing = pair_files(&files);
    assert_eq!(pairing.containers.len(), 1);
    assert_eq!(
        pairing.containers.get("show").as_deref(),
        Some("/media/two/show.mkv")
    );
}

#[test]
fn dotted_stems_split_at_the_last_dot() {
    let files = vec![rec("/media/season.1.episode.2.mkv", true)];
    let pairing = pair_files(&files);
    assert!(pairing.containers.get("season.1.episode.2").is_some());
}
