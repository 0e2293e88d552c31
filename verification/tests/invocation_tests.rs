use video_transcoder::gpu::Capability;
use video_transcoder::invocation::build_transcode_args;

#[test]
fn software_invocation_without_subtitle_is_exact() {
    let args = build_transcode_args(
        Capability::Cpu,
        "/tmp/video_convert_work/b.mkv",
        None,
        "/media/b.mp4",
    );
    let expected = vec![
        "-y",
        "-i",
        "/tmp/video_convert_work/b.mkv",
        "-map",
        "0:v:0",
        "-map",
        "0:a?",
        "-c:v",
        "libx264",
        "-c:a",
        "aac",
        "-b:a",
        "128k",
        "-profile:v",
        "main",
        "-level:v",
        "4.0",
        "-movflags",
        "+faststart",
        "/media/b.mp4",
    ];
    assert_eq!(args, expected);
}

#[test]
fn invocation_without_subtitle_omits_all_subtitle_arguments() {
    let args = build_transcode_args(
        Capability::Nvenc,
        "/tmp/video_convert_work/b.mkv",
        None,
        "/media/b.mp4",
    );
    for subtitle_arg in ["1:s:0", "-c:s", "mov_text", "-metadata:s:s:0", "language=eng", "srt"] {
        assert!(!args.iter().any(|a| a == subtitle_arg));
    }
    assert_eq!(args.iter().filter(|a| *a == "-map").count(), 2);
    assert_eq!(args.iter().filter(|a| *a == "-i").count(), 1);
}

#[test]
fn invocation_with_subtitle_maps_both_streams() {
    let args = build_transcode_args(
        Capability::Cpu,
        "/tmp/video_convert_work/show.mkv",
        Some("/tmp/video_convert_work/show.srt"),
        "/media/show.mp4",
    );
    assert!(args.iter().any(|a| a == "0:v:0"));
    assert!(args.iter().any(|a| a == "1:s:0"));
    assert!(args.iter().any(|a| a == "mov_text"));
    assert!(args.iter().any(|a| a == "/tmp/video_convert_work/show.srt"));
    assert_eq!(args.iter().filter(|a| *a == "-map").count(), 3);
    assert_eq!(args.iter().filter(|a| *a == "-i").count(), 2);
}

#[test]
fn capability_selects_exactly_one_video_codec() {
    for (cap, own, others) in [
        (Capability::Nvenc, "h264_nvenc", ["h264_vaapi", "libx264"]),
        (Capability::Vaapi, "h264_vaapi", ["h264_nvenc", "libx264"]),
        (Capability::Cpu, "libx264", ["h264_nvenc", "h264_vaapi"]),
    ] {
        let args = build_transcode_args(cap, "/t/a.mkv", None, "/m/a.mp4");
        assert!(args.iter().any(|a| a == own));
        for other in others {
            assert!(!args.iter().any(|a| a == other));
        }
    }
}

#[test]
fn nvenc_invocation_requests_cuda_acceleration() {
    let args = build_transcode_args(Capability::Nvenc, "/t/a.mkv", None, "/m/a.mp4");
    assert_eq!(&args[..4], &["-y", "-hwaccel", "cuda", "-i"]);
}

#[test]
fn vaapi_invocation_names_the_render_node_and_upload_filter() {
    let args = build_transcode_args(Capability::Vaapi, "/t/a.mkv", None, "/m/a.mp4");
    assert!(args.iter().any(|a| a == "/dev/dri/renderD128"));
    assert!(args.iter().any(|a| a == "format=nv12,hwupload"));
    assert!(args.iter().any(|a| a == "-vaapi_device"));
}
