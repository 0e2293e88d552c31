use video_transcoder::paths::{base_name, join_under, path_ext_is, path_stem, replace_ext};

#[test]
fn base_name_takes_the_part_after_the_last_slash() {
    assert_eq!(base_name("/mnt/smb/show.mkv"), "show.mkv");
    assert_eq!(base_name("show.mkv"), "show.mkv");
    assert_eq!(base_name("/a/b/c/"), "");
}

#[test]
fn path_stem_drops_the_extension_of_the_file_name() {
    assert_eq!(path_stem("/mnt/smb/show.mkv"), "show");
    assert_eq!(path_stem("/mnt/smb/sample.converted.mp4"), "sample.converted");
    assert_eq!(path_stem("/mnt/smb/noext"), "noext");
    assert_eq!(path_stem("/mnt/smb/.hidden"), ".hidden");
}

#[test]
fn path_ext_is_matches_the_exact_extension() {
    assert!(path_ext_is("/mnt/smb/show.mkv", "mkv"));
    assert!(!path_ext_is("/mnt/smb/show.mkv", "mp4"));
    assert!(!path_ext_is("/mnt/smb/noext", "mkv"));
    assert!(!path_ext_is("/mnt/smb/.mkv", "mkv"));
    assert!(!path_ext_is("/mnt/dir.mkv/file.srt", "mkv"));
}

#[test]
fn replace_ext_rewrites_only_the_file_name() {
    assert_eq!(replace_ext("/mnt/smb/show.mkv", "mp4"), "/mnt/smb/show.mp4");
    assert_eq!(replace_ext("/mnt/smb/show.mp4", "log"), "/mnt/smb/show.log");
    assert_eq!(
        replace_ext("/mnt/smb/show.mkv", "converted.mp4"),
        "/mnt/smb/show.converted.mp4"
    );
    assert_eq!(replace_ext("show.mkv", "mp4"), "show.mp4");
    assert_eq!(replace_ext("/mnt/dir.x/noext", "mp4"), "/mnt/dir.x/noext.mp4");
}

#[test]
fn join_under_places_a_name_below_a_directory() {
    assert_eq!(
        join_under("/tmp/video_convert_work", "show.mkv"),
        "/tmp/video_convert_work/show.mkv"
    );
}
