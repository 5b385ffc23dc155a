use vimprover::execute::{
    absolute_paths, build_ffmpeg_args, concat_list, escape_concat_list_path, format_audio_bitrate, needs_genpts,
    partial_sibling, render_command, render_video_filter_chain,
};
use vimprover::model::Container;
use vimprover::plan::{AudioStrategy, ConcatStrategy, EncodeRecipe, VideoFilter, VideoStrategy};

fn remux_recipe_mkv() -> EncodeRecipe {
    EncodeRecipe {
        output_container: Container::Mkv,
        video_strategy: VideoStrategy::Copy,
        video_filters: Vec::new(),
        audio_strategy: AudioStrategy::Copy,
        extra_flags: Vec::new(),
        concat: None,
    }
}

fn remux_recipe_mp4() -> EncodeRecipe {
    EncodeRecipe {
        output_container: Container::Mp4,
        video_strategy: VideoStrategy::Copy,
        video_filters: Vec::new(),
        audio_strategy: AudioStrategy::Copy,
        extra_flags: vec!["-movflags".into(), "+faststart".into()],
        concat: None,
    }
}

#[test]
fn vob_remux_mkv_argv() {
    let inputs = ["/tmp/movie.vob".to_string()];
    let containers = [Container::MpegPs];
    let out = "/tmp/newname.mkv";
    let args = build_ffmpeg_args(&inputs, &containers, out, &remux_recipe_mkv(), false, None);

    assert_eq!(
        args,
        vec![
            "-hide_banner",
            "-loglevel",
            "warning",
            "-stats",
            "-n",
            "-fflags",
            "+genpts",
            "-i",
            "/tmp/movie.vob",
            "-map",
            "0:v:0",
            "-map",
            "0:a?",
            "-map",
            "0:s?",
            "-c:v",
            "copy",
            "-c:a",
            "copy",
            "-c:s",
            "copy",
            "/tmp/newname.mkv",
        ]
    );
}

#[test]
fn avi_input_gets_genpts() {
    let inputs = ["/tmp/movie.avi".to_string()];
    let containers = [Container::Avi];
    let out = "/tmp/out.mkv";
    let args = build_ffmpeg_args(&inputs, &containers, out, &remux_recipe_mkv(), false, None);
    let strs = args;

    let genpts_idx = strs
        .iter()
        .position(|s| s == "+genpts")
        .expect("AVI input should get -fflags +genpts");
    assert_eq!(strs[genpts_idx - 1], "-fflags");
    // The flag must appear before the -i that introduces the AVI input.
    let input_idx = strs.iter().position(|s| s == "/tmp/movie.avi").unwrap();
    assert!(genpts_idx < input_idx);
}

#[test]
fn modern_containers_skip_genpts() {
    // MP4/MKV/MOV/WebM all store per-packet timestamps; +genpts would be
    // a no-op but we keep the command minimal.
    for c in [
        Container::Mp4,
        Container::Mkv,
        Container::Mov,
        Container::WebM,
    ] {
        assert!(!needs_genpts(&c), "{c:?} should not request +genpts");
    }
    assert!(needs_genpts(&Container::MpegPs));
    assert!(needs_genpts(&Container::MpegTs));
    assert!(needs_genpts(&Container::Avi));
}

#[test]
fn mp4_recipe_appends_faststart() {
    let inputs = ["/tmp/in.flv".to_string()];
    let containers = [Container::Flv];
    let out = "/tmp/out.mp4";
    let args = build_ffmpeg_args(&inputs, &containers, out, &remux_recipe_mp4(), true, None);
    let strs = args;

    // Overwrite mode uses -y, not -n.
    assert!(strs.contains(&"-y".into()));
    assert!(!strs.contains(&"-n".into()));
    // No genpts for FLV.
    assert!(!strs.contains(&"-fflags".into()));
    // Faststart flag is present, just before the output.
    let faststart_idx = strs.iter().position(|s| s == "+faststart").unwrap();
    assert_eq!(strs[faststart_idx - 1], "-movflags");
    assert_eq!(strs.last().unwrap(), "/tmp/out.mp4");
}

#[test]
fn render_command_quotes_paths_with_spaces() {
    let bin = "/usr/bin/ffmpeg";
    let args: Vec<String> = vec![
        "-i".into(),
        "/tmp/movie with spaces.vob".into(),
        "-c".into(),
        "copy".into(),
        "/tmp/out's.mkv".into(),
    ];
    let cmd = render_command(bin, &args);
    assert_eq!(
        cmd,
        r"/usr/bin/ffmpeg -i '/tmp/movie with spaces.vob' -c copy '/tmp/out'\''s.mkv'"
    );
}

#[test]
fn formats_audio_bitrate_kbps() {
    assert_eq!(format_audio_bitrate(192_000), "192k");
    assert_eq!(format_audio_bitrate(128_000), "128k");
    assert_eq!(format_audio_bitrate(96_500), "96500");
}

#[test]
fn renders_filter_chain() {
    let chain = render_video_filter_chain(&[
        VideoFilter::Bwdif,
        VideoFilter::Scale { width: 1920, height: 1080 },
        VideoFilter::SetSar { num: 1, den: 1 },
    ]);
    assert_eq!(chain, "bwdif=1,scale=1920:1080,setsar=1/1");
}


fn concat_recipe_mkv() -> EncodeRecipe {
    EncodeRecipe {
        output_container: Container::Mkv,
        video_strategy: VideoStrategy::Copy,
        video_filters: Vec::new(),
        audio_strategy: AudioStrategy::Copy,
        extra_flags: Vec::new(),
        concat: Some(ConcatStrategy::Demuxer),
    }
}

#[test]
fn concat_argv_uses_concat_demuxer_with_list_file() {
    let inputs = ["/tmp/a.mp4".to_string(), "/tmp/b.mp4".to_string()];
    let containers = [Container::Mp4, Container::Mp4];
    let out = "/tmp/joined.mkv";
    let list = "/tmp/concat-list.txt";

    let args = build_ffmpeg_args(
        &inputs,
        &containers,
        out,
        &concat_recipe_mkv(),
        false,
        Some(list),
    );

    assert_eq!(
        args,
        vec![
            "-hide_banner",
            "-loglevel",
            "warning",
            "-stats",
            "-n",
            "-f",
            "concat",
            "-safe",
            "0",
            "-i",
            "/tmp/concat-list.txt",
            // single virtual input → same -map as single-file mode
            "-map",
            "0:v:0",
            "-map",
            "0:a?",
            "-map",
            "0:s?",
            "-c:v",
            "copy",
            "-c:a",
            "copy",
            "-c:s",
            "copy",
            "/tmp/joined.mkv",
        ]
    );
}

#[test]
fn concat_argv_skips_per_input_genpts_even_for_avi() {
    // Even if the inputs would normally trigger -fflags +genpts (e.g. AVI),
    // concat-demuxer mode skips them: timestamps are reconstructed from
    // the concatenated stream, not the per-input demuxers.
    let inputs = ["/tmp/a.avi".to_string(), "/tmp/b.avi".to_string()];
    let containers = [Container::Avi, Container::Avi];
    let out = "/tmp/joined.mkv";
    let list = "/tmp/list.txt";

    let args = build_ffmpeg_args(
        &inputs,
        &containers,
        out,
        &concat_recipe_mkv(),
        false,
        Some(list),
    );
    let strs = args;

    assert!(!strs.iter().any(|s| s == "-fflags"), "should not emit -fflags in concat mode: {strs:?}");
    assert!(!strs.iter().any(|s| s == "+genpts"), "should not emit +genpts in concat mode: {strs:?}");
}

#[test]
fn concat_argv_passes_through_mp4_faststart() {
    let inputs = ["/tmp/a.mp4".to_string(), "/tmp/b.mp4".to_string()];
    let containers = [Container::Mp4, Container::Mp4];
    let out = "/tmp/joined.mp4";
    let list = "/tmp/list.txt";

    let recipe = EncodeRecipe {
        output_container: Container::Mp4,
        video_strategy: VideoStrategy::Copy,
        video_filters: Vec::new(),
        audio_strategy: AudioStrategy::Copy,
        extra_flags: vec!["-movflags".into(), "+faststart".into()],
        concat: Some(ConcatStrategy::Demuxer),
    };
    let args = build_ffmpeg_args(&inputs, &containers, out, &recipe, false, Some(list));
    let strs = args;

    let faststart_idx = strs.iter().position(|s| s == "+faststart").unwrap();
    assert_eq!(strs[faststart_idx - 1], "-movflags");
    assert_eq!(strs.last().unwrap(), "/tmp/joined.mp4");
}

#[test]
fn escape_concat_list_path_passes_through_simple_paths() {
    assert_eq!(
        escape_concat_list_path("/tmp/clip1.mp4"),
        "/tmp/clip1.mp4"
    );
}

#[test]
fn escape_concat_list_path_escapes_single_quotes() {
    // 'foo' becomes '\'' (close, escaped quote, reopen) — that's three
    // chars -> four char output for one input quote.
    assert_eq!(
        escape_concat_list_path("/tmp/it's.mp4"),
        r"/tmp/it'\''s.mp4"
    );
}

#[test]
fn escape_concat_list_path_passes_spaces_and_backslashes() {
    // Spaces are fine inside single-quoted directives. Backslashes are
    // not special to ffmpeg's concat demuxer.
    assert_eq!(
        escape_concat_list_path("/tmp/with spaces.mp4"),
        "/tmp/with spaces.mp4"
    );
    assert_eq!(
        escape_concat_list_path(r"C:\videos\clip.mp4"),
        r"C:\videos\clip.mp4"
    );
}

#[test]
fn write_concat_list_emits_file_directives() {
    // Absolute inputs are written verbatim (modulo quote escaping).
    let inputs = [
        "/tmp/a.mp4".to_string(),
        "/tmp/b's.mp4".to_string(),
        "/tmp/c with space.mp4".to_string(),
    ];
    let content = concat_list(&inputs);
    let expected = "\
file '/tmp/a.mp4'
file '/tmp/b'\\''s.mp4'
file '/tmp/c with space.mp4'
";
    assert_eq!(content, expected);
}

// -----------------------------------------------------------------------
// partial_sibling
// -----------------------------------------------------------------------

#[test]
fn partial_sibling_inserts_dot_partial_before_extension() {
    assert_eq!(
        partial_sibling("/path/to/foo.mkv"),
        "/path/to/foo.partial.mkv"
    );
    assert_eq!(
        partial_sibling("/path/to/foo.mp4"),
        "/path/to/foo.partial.mp4"
    );
}

#[test]
fn partial_sibling_handles_extensionless_paths() {
    assert_eq!(
        partial_sibling("/tmp/foo"),
        "/tmp/foo.partial"
    );
}

#[test]
fn partial_sibling_handles_relative_paths() {
    assert_eq!(
        partial_sibling("foo.mkv"),
        "foo.partial.mkv"
    );
    assert_eq!(
        partial_sibling("./foo.mkv"),
        "./foo.partial.mkv"
    );
}

#[test]
fn partial_sibling_preserves_double_extensions() {
    // A user-given filename like `archive.tar.gz` has Path::extension()
    // returning "gz" and Path::file_stem() returning "archive.tar". So
    // the partial becomes `archive.tar.partial.gz`. We don't pretend to
    // be smart about double extensions; this is the correct behavior
    // for ffmpeg's purposes (the LAST component is what its muxer
    // inference looks at).
    assert_eq!(
        partial_sibling("/tmp/archive.tar.gz"),
        "/tmp/archive.tar.partial.gz"
    );
}

#[test]
fn write_concat_list_absolutizes_relative_paths() {
    let inputs = ["fo1.mkv".to_string(), "./fo2.mkv".to_string()];
    let directory = Ok("/home/me".to_string());
    let content = concat_list(&absolute_paths(&inputs, &directory).expect("absolute"));

    // Each line must start with "file '/" — i.e. the path is absolute.
    for (i, line) in content.lines().enumerate() {
        assert!(
            line.starts_with("file '/"),
            "line {i} should be absolute; got: {line}"
        );
    }
    // And the basenames must still be present at the end.
    assert!(content.contains("fo1.mkv'"), "content:\n{content}");
    assert!(content.contains("fo2.mkv'"), "content:\n{content}");
}

#[test]
fn listed_inputs_are_absolute() {
    let s = |t: &str| t.to_string();
    let home = Ok(s("/home/me"));
    let lost: Result<String, String> = Err(s("no such directory"));
    let inputs = [s("a.mp4"), s("/v/b.mp4"), s("../c.mp4"), s("./d//e/.")];
    assert_eq!(
        absolute_paths(&inputs, &home).unwrap(),
        ["/home/me/a.mp4", "/v/b.mp4", "/home/me/../c.mp4", "/home/me/d/e"]
    );
    assert_eq!(absolute_paths(&inputs, &lost).unwrap_err(), "no such directory");
    assert_eq!(absolute_paths(&[s("/v/b.mp4")], &lost).unwrap(), ["/v/b.mp4"]);
    assert_eq!(
        absolute_paths(&[s("/v"), s(""), s("a")], &lost).unwrap_err(),
        "cannot make an empty path absolute"
    );
    assert_eq!(absolute_paths(&[], &lost).unwrap(), Vec::<String>::new());
}
