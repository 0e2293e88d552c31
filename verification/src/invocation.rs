//! The invocation handed to the external transcoder for one job: the exact
//! argument list, and the two invariants the pipeline owes its callers — a
//! subtitle changes the mapped input streams but never drops the video
//! stream, and the capability token selects exactly one video codec.

use vstd::prelude::*;
use crate::gpu::Capability;
use crate::text::{has_char, opt_text_view};

verus! {

/// The acceleration segment: how the container input is opened.
pub open spec fn hw_args(cap: Capability, input: Seq<char>) -> Seq<Seq<char>> {
    match cap {
        Capability::Nvenc => seq!["-hwaccel"@, "cuda"@, "-i"@, input],
        Capability::Vaapi => seq![
            "-hwaccel"@,
            "vaapi"@,
            "-vaapi_device"@,
            "/dev/dri/renderD128"@,
            "-i"@,
            input,
        ],
        Capability::Cpu => seq!["-i"@, input],
    }
}

/// The subtitle input segment, present only when the job has a subtitle.
pub open spec fn subtitle_input_args(srt: Option<Seq<char>>) -> Seq<Seq<char>> {
    match srt {
        Some(p) => seq!["-f"@, "srt"@, "-i"@, p],
        None => Seq::empty(),
    }
}

/// The stream-map segment: the video stream always, audio when present, and
/// the subtitle stream of the second input only when the job has a subtitle.
pub open spec fn map_args(has_subtitle: bool) -> Seq<Seq<char>> {
    if has_subtitle {
        seq!["-map"@, "0:v:0"@, "-map"@, "0:a?"@, "-map"@, "1:s:0"@]
    } else {
        seq!["-map"@, "0:v:0"@, "-map"@, "0:a?"@]
    }
}

/// The video codec each capability selects.
pub open spec fn video_codec_of(cap: Capability) -> Seq<char> {
    match cap {
        Capability::Nvenc => "h264_nvenc"@,
        Capability::Vaapi => "h264_vaapi"@,
        Capability::Cpu => "libx264"@,
    }
}

/// The video-codec segment.
pub open spec fn codec_args(cap: Capability) -> Seq<Seq<char>> {
    match cap {
        Capability::Nvenc => seq!["-c:v"@, "h264_nvenc"@],
        Capability::Vaapi => seq!["-vf"@, "format=nv12,hwupload"@, "-c:v"@, "h264_vaapi"@],
        Capability::Cpu => seq!["-c:v"@, "libx264"@],
    }
}

/// The subtitle-codec segment, present only when the job has a subtitle.
pub open spec fn subtitle_codec_args(has_subtitle: bool) -> Seq<Seq<char>> {
    if has_subtitle {
        seq!["-c:s"@, "mov_text"@, "-metadata:s:s:0"@, "language=eng"@]
    } else {
        Seq::empty()
    }
}

/// The fixed audio and container options, ending with the output path.
pub open spec fn tail_args(output: Seq<char>) -> Seq<Seq<char>> {
    seq![
        "-c:a"@,
        "aac"@,
        "-b:a"@,
        "128k"@,
        "-profile:v"@,
        "main"@,
        "-level:v"@,
        "4.0"@,
        "-movflags"@,
        "+faststart"@,
        output,
    ]
}

/// The whole argument list of one job's invocation (the leading overwrite
/// flag included, the program name not).
pub open spec fn spec_transcode_args(
    cap: Capability,
    input: Seq<char>,
    srt: Option<Seq<char>>,
    output: Seq<char>,
) -> Seq<Seq<char>> {
    seq!["-y"@] + hw_args(cap, input) + subtitle_input_args(srt) + map_args(srt is Some)
        + codec_args(cap) + subtitle_codec_args(srt is Some) + tail_args(output)
}

fn push_arg(args: &mut Vec<String>, s: &str)
    ensures
        final(args).deep_view() == old(args).deep_view().push(s@),
{
    args.push(s.to_owned());
    proof {
        assert(args.deep_view() =~= old(args).deep_view().push(s@));
    }
}

/// Build the argument list of one job's invocation: the capability selects
/// the acceleration flags and video codec, the subtitle (already copied into
/// the scratch area) adds its input, stream map and codec, and the fixed
/// audio and container options close the list before the output path.
#[verifier::rlimit(100)]
pub fn build_transcode_args(
    cap: Capability,
    temp_input: &str,
    temp_subtitle: Option<&str>,
    output: &str,
) -> (r: Vec<String>)
    ensures
        r.deep_view() == spec_transcode_args(
            cap,
            temp_input@,
            opt_text_view(temp_subtitle),
            output@,
        ),
{
    let ghost srt = opt_text_view(temp_subtitle);
    let mut args: Vec<String> = Vec::new();
    push_arg(&mut args, "-y");
    let ghost dv1 = seq!["-y"@];
    proof {
        assert(args.deep_view() =~= dv1);
    }
    match cap {
        Capability::Nvenc => {
            push_arg(&mut args, "-hwaccel");
            push_arg(&mut args, "cuda");
            push_arg(&mut args, "-i");
            push_arg(&mut args, temp_input);
        },
        Capability::Vaapi => {
            push_arg(&mut args, "-hwaccel");
            push_arg(&mut args, "vaapi");
            push_arg(&mut args, "-vaapi_device");
            push_arg(&mut args, "/dev/dri/renderD128");
            push_arg(&mut args, "-i");
            push_arg(&mut args, temp_input);
        },
        Capability::Cpu => {
            push_arg(&mut args, "-i");
            push_arg(&mut args, temp_input);
        },
    }
    let ghost dv2 = dv1 + hw_args(cap, temp_input@);
    proof {
        assert(args.deep_view() =~= dv2);
    }
    if let Some(s) = temp_subtitle {
        push_arg(&mut args, "-f");
        push_arg(&mut args, "srt");
        push_arg(&mut args, "-i");
        push_arg(&mut args, s);
    }
    let ghost dv3 = dv2 + subtitle_input_args(srt);
    proof {
        assert(args.deep_view() =~= dv3);
    }
    push_arg(&mut args, "-map");
    push_arg(&mut args, "0:v:0");
    push_arg(&mut args, "-map");
    push_arg(&mut args, "0:a?");
    if temp_subtitle.is_some() {
        push_arg(&mut args, "-map");
        push_arg(&mut args, "1:s:0");
    }
    let ghost dv4 = dv3 + map_args(srt is Some);
    proof {
        assert(args.deep_view() =~= dv4);
    }
    match cap {
        Capability::Nvenc => {
            push_arg(&mut args, "-c:v");
            push_arg(&mut args, "h264_nvenc");
        },
        Capability::Vaapi => {
            push_arg(&mut args, "-vf");
            push_arg(&mut args, "format=nv12,hwupload");
            push_arg(&mut args, "-c:v");
            push_arg(&mut args, "h264_vaapi");
        },
        Capability::Cpu => {
            push_arg(&mut args, "-c:v");
            push_arg(&mut args, "libx264");
        },
    }
    let ghost dv5 = dv4 + codec_args(cap);
    proof {
        assert(args.deep_view() =~= dv5);
    }
    if temp_subtitle.is_some() {
        push_arg(&mut args, "-c:s");
        push_arg(&mut args, "mov_text");
        push_arg(&mut args, "-metadata:s:s:0");
        push_arg(&mut args, "language=eng");
    }
    let ghost dv6 = dv5 + subtitle_codec_args(srt is Some);
    proof {
        assert(args.deep_view() =~= dv6);
    }
    push_arg(&mut args, "-c:a");
    push_arg(&mut args, "aac");
    push_arg(&mut args, "-b:a");
    push_arg(&mut args, "128k");
    push_arg(&mut args, "-profile:v");
    push_arg(&mut args, "main");
    push_arg(&mut args, "-level:v");
    push_arg(&mut args, "4.0");
    push_arg(&mut args, "-movflags");
    push_arg(&mut args, "+faststart");
    push_arg(&mut args, output);
    proof {
        assert(args.deep_view() =~= dv6 + tail_args(output@));
        assert(args.deep_view() =~= spec_transcode_args(cap, temp_input@, srt, output@));
    }
    args
}

/// Law: the invocation always maps the container's video stream, with or
/// without a subtitle and whatever capability was selected.
pub proof fn lemma_video_stream_kept(
    cap: Capability,
    input: Seq<char>,
    srt: Option<Seq<char>>,
    output: Seq<char>,
)
    ensures
        spec_transcode_args(cap, input, srt, output).contains("0:v:0"@),
{
    let a = spec_transcode_args(cap, input, srt, output);
    let pre = seq!["-y"@] + hw_args(cap, input) + subtitle_input_args(srt);
    let i = pre.len() + 1;
    assert(map_args(srt is Some)[1] == "0:v:0"@);
    assert(a[i as int] == "0:v:0"@);
}

/// A text with a dot differs from one without.
proof fn lemma_ne_by_dot(s: Seq<char>, t: Seq<char>)
    requires
        has_char(s, '.'),
        !has_char(t, '.'),
    ensures
        s != t,
{
    if s == t {
        let k = choose|k: int| 0 <= k < s.len() && s[k] == '.';
        assert(t[k] == '.');
    }
}

/// The subtitle stream map carries no dot.
proof fn lemma_subtitle_map_dotless()
    ensures
        !has_char("1:s:0"@, '.'),
{
    reveal_strlit("1:s:0");
    assert forall|k: int| 0 <= k < "1:s:0"@.len() implies "1:s:0"@[k] != '.' by {
        if k == 0 {
        } else if k == 1 {
        } else if k == 2 {
        } else if k == 3 {
        } else {
            assert(k == 4);
        }
    }
}

/// The subtitle codec name carries no dot.
proof fn lemma_subtitle_codec_dotless()
    ensures
        !has_char("mov_text"@, '.'),
{
    reveal_strlit("mov_text");
    assert forall|k: int| 0 <= k < "mov_text"@.len() implies "mov_text"@[k] != '.' by {
        if k == 0 {
        } else if k == 1 {
        } else if k == 2 {
        } else if k == 3 {
        } else if k == 4 {
        } else if k == 5 {
        } else if k == 6 {
        } else {
            assert(k == 7);
        }
    }
}

/// The lengths of the invocation's fixed texts, and the characters that tell
/// the same-length ones apart; exported so the distinctness of arguments is
/// ground knowledge in the laws below.
proof fn lemma_invocation_text_facts()
    ensures
        "-y"@.len() == 2,
        "-hwaccel"@.len() == 8,
        "cuda"@.len() == 4,
        "vaapi"@.len() == 5,
        "-vaapi_device"@.len() == 13,
        "/dev/dri/renderD128"@.len() == 19,
        "-i"@.len() == 2,
        "-f"@.len() == 2,
        "srt"@.len() == 3,
        "-map"@.len() == 4,
        "0:v:0"@.len() == 5,
        "0:a?"@.len() == 4,
        "1:s:0"@.len() == 5,
        "-c:v"@.len() == 4,
        "h264_nvenc"@.len() == 10,
        "-vf"@.len() == 3,
        "format=nv12,hwupload"@.len() == 20,
        "h264_vaapi"@.len() == 10,
        "libx264"@.len() == 7,
        "-c:s"@.len() == 4,
        "mov_text"@.len() == 8,
        "-metadata:s:s:0"@.len() == 15,
        "language=eng"@.len() == 12,
        "-c:a"@.len() == 4,
        "aac"@.len() == 3,
        "-b:a"@.len() == 4,
        "128k"@.len() == 4,
        "-profile:v"@.len() == 10,
        "main"@.len() == 4,
        "-level:v"@.len() == 8,
        "4.0"@.len() == 3,
        "-movflags"@.len() == 9,
        "+faststart"@.len() == 10,
        "vaapi"@[0] == 'v',
        "0:v:0"@[0] == '0',
        "1:s:0"@[0] == '1',
        "-hwaccel"@[0] == '-',
        "-level:v"@[0] == '-',
        "mov_text"@[0] == 'm',
        "-profile:v"@[0] == '-',
        "+faststart"@[0] == '+',
        "h264_nvenc"@[0] == 'h',
        "h264_vaapi"@[0] == 'h',
        "h264_nvenc"@[5] == 'n',
        "h264_vaapi"@[5] == 'v',
{
    reveal_strlit("-y");
    reveal_strlit("-hwaccel");
    reveal_strlit("cuda");
    reveal_strlit("vaapi");
    reveal_strlit("-vaapi_device");
    reveal_strlit("/dev/dri/renderD128");
    reveal_strlit("-i");
    reveal_strlit("-map");
    reveal_strlit("0:v:0");
    reveal_strlit("0:a?");
    reveal_strlit("-c:v");
    reveal_strlit("h264_nvenc");
    reveal_strlit("-vf");
    reveal_strlit("format=nv12,hwupload");
    reveal_strlit("h264_vaapi");
    reveal_strlit("libx264");
    reveal_strlit("-c:a");
    reveal_strlit("aac");
    reveal_strlit("-b:a");
    reveal_strlit("128k");
    reveal_strlit("-profile:v");
    reveal_strlit("main");
    reveal_strlit("-level:v");
    reveal_strlit("4.0");
    reveal_strlit("-movflags");
    reveal_strlit("+faststart");
    reveal_strlit("-f");
    reveal_strlit("srt");
    reveal_strlit("1:s:0");
    reveal_strlit("-c:s");
    reveal_strlit("mov_text");
    reveal_strlit("-metadata:s:s:0");
    reveal_strlit("language=eng");
}

/// Law: a subtitle changes the mapped input streams — the subtitle stream map
/// and subtitle codec stand in the invocation exactly when the job has a
/// subtitle. The path arguments are told apart from the flag texts by their
/// dot, which every derived path keeps.
#[verifier::rlimit(100)]
pub proof fn lemma_subtitle_args(
    cap: Capability,
    input: Seq<char>,
    srt: Option<Seq<char>>,
    output: Seq<char>,
)
    requires
        has_char(input, '.'),
        has_char(output, '.'),
    ensures
        srt is Some ==> spec_transcode_args(cap, input, srt, output).contains("1:s:0"@)
            && spec_transcode_args(cap, input, srt, output).contains("mov_text"@),
        srt is None ==> !spec_transcode_args(cap, input, srt, output).contains("1:s:0"@)
            && !spec_transcode_args(cap, input, srt, output).contains("mov_text"@),
{
    let a = spec_transcode_args(cap, input, srt, output);
    if srt is Some {
        let pre = seq!["-y"@] + hw_args(cap, input) + subtitle_input_args(srt);
        assert(map_args(true)[5] == "1:s:0"@);
        assert(a[pre.len() as int + 5] == "1:s:0"@);
        let pre2 = pre + map_args(true) + codec_args(cap);
        assert(subtitle_codec_args(true)[1] == "mov_text"@);
        assert(a[pre2.len() as int + 1] == "mov_text"@);
    } else {
        lemma_subtitle_map_dotless();
        lemma_subtitle_codec_dotless();
        lemma_ne_by_dot(input, "1:s:0"@);
        lemma_ne_by_dot(output, "1:s:0"@);
        lemma_ne_by_dot(input, "mov_text"@);
        lemma_ne_by_dot(output, "mov_text"@);
        lemma_invocation_text_facts();
        assert forall|i: int| 0 <= i < a.len() implies a[i] != "1:s:0"@ && a[i] != "mov_text"@ by {
            match cap {
                Capability::Nvenc => {
                    assert(a[i] != "1:s:0"@ && a[i] != "mov_text"@);
                },
                Capability::Vaapi => {
                    assert(a[i] != "1:s:0"@ && a[i] != "mov_text"@);
                },
                Capability::Cpu => {
                    assert(a[i] != "1:s:0"@ && a[i] != "mov_text"@);
                },
            }
        }
        assert(!a.contains("1:s:0"@));
        assert(!a.contains("mov_text"@));
    }
}

/// Law: the capability deterministically selects exactly one video codec —
/// the invocation names the selected capability's codec and no other's.
#[verifier::rlimit(100)]
pub proof fn lemma_codec_selection(
    cap: Capability,
    input: Seq<char>,
    srt: Option<Seq<char>>,
    output: Seq<char>,
)
    requires
        has_char(input, '.'),
        has_char(output, '.'),
        srt matches Some(p) ==> has_char(p, '.'),
    ensures
        spec_transcode_args(cap, input, srt, output).contains(video_codec_of(cap)),
        forall|other: Capability|
            other != cap ==> !spec_transcode_args(cap, input, srt, output).contains(
                video_codec_of(other),
            ),
{
    let a = spec_transcode_args(cap, input, srt, output);
    let pre = seq!["-y"@] + hw_args(cap, input) + subtitle_input_args(srt) + map_args(
        srt is Some,
    );
    match cap {
        Capability::Nvenc => {
            assert(codec_args(cap)[1] == video_codec_of(cap));
            assert(a[pre.len() as int + 1] == video_codec_of(cap));
        },
        Capability::Vaapi => {
            assert(codec_args(cap)[3] == video_codec_of(cap));
            assert(a[pre.len() as int + 3] == video_codec_of(cap));
        },
        Capability::Cpu => {
            assert(codec_args(cap)[1] == video_codec_of(cap));
            assert(a[pre.len() as int + 1] == video_codec_of(cap));
        },
    }
    lemma_nvenc_codec_dotless();
    lemma_vaapi_codec_dotless();
    lemma_cpu_codec_dotless();
    lemma_invocation_text_facts();
    assert forall|other: Capability|
        other != cap implies !a.contains(video_codec_of(other)) by {
        lemma_ne_by_dot(input, video_codec_of(other));
        lemma_ne_by_dot(output, video_codec_of(other));
        if srt is Some {
            lemma_ne_by_dot(srt->0, video_codec_of(other));
        }
        let c = video_codec_of(other);
        assert forall|i: int| 0 <= i < a.len() implies a[i] != c by {
            match cap {
                Capability::Nvenc => {
                    assert(a[i] != c);
                },
                Capability::Vaapi => {
                    assert(a[i] != c);
                },
                Capability::Cpu => {
                    assert(a[i] != c);
                },
            }
        }
    }
}

/// The primary-path codec name carries no dot.
proof fn lemma_nvenc_codec_dotless()
    ensures
        !has_char("h264_nvenc"@, '.'),
{
    reveal_strlit("h264_nvenc");
    assert forall|k: int| 0 <= k < "h264_nvenc"@.len() implies "h264_nvenc"@[k] != '.' by {
        if k == 0 {
        } else if k == 1 {
        } else if k == 2 {
        } else if k == 3 {
        } else if k == 4 {
        } else if k == 5 {
        } else if k == 6 {
        } else if k == 7 {
        } else if k == 8 {
        } else {
            assert(k == 9);
        }
    }
}

/// The secondary-path codec name carries no dot.
proof fn lemma_vaapi_codec_dotless()
    ensures
        !has_char("h264_vaapi"@, '.'),
{
    reveal_strlit("h264_vaapi");
    assert forall|k: int| 0 <= k < "h264_vaapi"@.len() implies "h264_vaapi"@[k] != '.' by {
        if k == 0 {
        } else if k == 1 {
        } else if k == 2 {
        } else if k == 3 {
        } else if k == 4 {
        } else if k == 5 {
        } else if k == 6 {
        } else if k == 7 {
        } else if k == 8 {
        } else {
            assert(k == 9);
        }
    }
}

/// The software codec name carries no dot.
proof fn lemma_cpu_codec_dotless()
    ensures
        !has_char("libx264"@, '.'),
{
    reveal_strlit("libx264");
    assert forall|k: int| 0 <= k < "libx264"@.len() implies "libx264"@[k] != '.' by {
        if k == 0 {
        } else if k == 1 {
        } else if k == 2 {
        } else if k == 3 {
        } else if k == 4 {
        } else if k == 5 {
        } else {
            assert(k == 6);
        }
    }
}

} // verus!
