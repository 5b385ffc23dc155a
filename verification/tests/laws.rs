//! What holds of the library as a whole, on concrete values.

use vimprover::execute::{
    build_ffmpeg_args, concat_list, partial_sibling, push_pair, push_shell_escaped, render_command,
};
use vimprover::format::{
    format_size, render_audio, render_completion_summary, render_recipe, render_upgrade_recipe,
    render_video,
};
use vimprover::model::{
    AudioCodec, AudioInfo, Container, FieldOrder, MediaProfile, PixFmt, Rational, Seconds,
    VideoCodec, VideoInfo,
};
use vimprover::plan::{
    build_extra_flags, container_supports_audio_copy, default_codec_choice, default_crf,
    describe_channels, describe_sample_rate, is_full_range_source, is_known_output_extension,
    is_media_extension, plan_reencode, plan_remux, plan_shrink, resolve_output_path,
    resolve_upgrade_paths, select_audio_strategy, select_audio_strategy_for_shrink,
    select_video_filters, select_video_strategy, shrink_default_crf, split_at_media_extension,
    streams_compatible, AudioStrategy, EncodeRecipe, Overrides, VideoCodecChoice, VideoFilter,
    VideoStrategy,
};

/// A span of time from a floating-point number.
fn secs(seconds: f64) -> Seconds {
    Seconds::from_bits(seconds.to_bits()).unwrap()
}

fn profile() -> MediaProfile {
    MediaProfile {
        container: Container::Mkv,
        video: VideoInfo {
            codec: VideoCodec::H264,
            width: 1920,
            height: 1080,
            field_order: FieldOrder::Progressive,
            framerate: Rational::new(24, 1),
            pix_fmt: Some(PixFmt::Yuv420p),
            sar: Rational::new(1, 1),
            is_hdr: false,
        },
        audio: vec![AudioInfo {
            codec: AudioCodec::Aac,
            channels: Some(2),
            channel_layout: None,
            sample_rate_hz: Some(44_100),
            bitrate_bps: None,
            language: None,
        }],
        duration_secs: None,
        file_size_bytes: None,
        bitrate_bps: Some(12_000_000),
    }
}

/// Split a command line the way a shell does.
fn shell_words(s: &str) -> Vec<String> {
    let mut words = Vec::new();
    let mut word: Option<String> = None;
    let mut quoted = false;
    let mut chars = s.chars();
    while let Some(c) = chars.next() {
        if quoted {
            if c == '\'' {
                quoted = false;
            } else {
                word.get_or_insert_with(String::new).push(c);
            }
        } else if c == '\'' {
            quoted = true;
            word.get_or_insert_with(String::new);
        } else if c == '\\' {
            word.get_or_insert_with(String::new).push(chars.next().unwrap());
        } else if c == ' ' {
            words.extend(word.take());
        } else {
            word.get_or_insert_with(String::new).push(c);
        }
    }
    words.extend(word);
    words
}

#[test]
fn commands_read_back_as_their_words() {
    let args: Vec<String> = ["", "a b", "it's", "''", "\\", "$(rm)", "plain", "~", "tab\there", "ü"]
        .iter()
        .map(|a| a.to_string())
        .collect();
    let command = render_command("/my dir/ffmpeg", &args);
    let mut expected = vec!["/my dir/ffmpeg".to_string()];
    expected.extend(args);
    assert_eq!(shell_words(&command), expected);
    let mut out = "x=".to_string();
    push_shell_escaped(&mut out, "plain-word_1.mkv");
    assert_eq!(out, "x=plain-word_1.mkv");
}

#[test]
fn list_lines_read_back_as_their_paths() {
    let paths = vec!["/a/it's.mp4".to_string(), "/b c.mp4".to_string(), "/'".to_string()];
    let list = concat_list(&paths);
    let read: Vec<Vec<String>> = list.lines().map(shell_words).collect();
    assert_eq!(read.len(), 3);
    for (words, path) in read.iter().zip(&paths) {
        assert_eq!(words, &["file".to_string(), path.clone()]);
    }
    assert_eq!(concat_list(&[]), "");
}

#[test]
fn names_are_kept_and_decide() {
    for name in ["yuv420p", "yuvj444p", "gray", "yuv420p12le", ""] {
        assert_eq!(PixFmt::from_ffprobe_name(name).to_string(), name);
    }
    assert_eq!(
        VideoCodec::from_ffprobe_name("cinepak").to_string(),
        "unknown video codec (cinepak)"
    );
    assert_eq!(AudioCodec::from_ffprobe_name("mp3float"), AudioCodec::Mp3);
    assert_eq!(AudioCodec::from_ffprobe_name("wma"), AudioCodec::Wma("wma".to_string()));
    assert_eq!(AudioCodec::from_ffprobe_name("pcm"), AudioCodec::Unknown("pcm".to_string()));
    assert_eq!(AudioCodec::from_ffprobe_name("pcm_s16le").to_string(), "PCM (pcm_s16le)");
    assert_eq!(Container::from_ffprobe_name(" webm , x"), Container::WebM);
    assert_eq!(Container::from_ffprobe_name("mpegts"), Container::MpegTs);
    assert_eq!(Container::from_ffprobe_name("gxf").to_string(), "unknown (gxf)");
    assert_eq!(Container::from_ffprobe_name("asf").canonical_extension(), "wmv");
    assert_eq!(Container::WebM.refine_with_filename("a.MKV"), Container::Mkv);
    assert_eq!(Container::Mp4.refine_with_filename("a.webm"), Container::Mp4);
    assert!(Container::Unknown("a".to_string()) != Container::Unknown("b".to_string()));
    assert_eq!(FieldOrder::from_ffprobe_name("bt").to_string(), "interlaced (BFF)");
}

#[test]
fn rationals_read_back() {
    for (n, d) in [(0, 1), (30000, 1001), (16, 9), (u32::MAX, 1)] {
        assert_eq!(Rational::parse(&format!("{n}/{d}")), Rational::new(n, d));
        assert_eq!(Rational::parse(&format!(" {n} : {d} ")), Rational::new(n, d));
    }
    assert_eq!(Rational::parse("1/0"), None);
    assert_eq!(Rational::parse("4294967296/1"), None);
    assert_eq!(Rational::parse("1:2/3"), None);
    assert_eq!(Rational::parse("1/2:3"), None);
    assert_eq!(Rational::parse("+1/+2"), Rational::new(1, 2));
}

#[test]
fn every_filter_chain_is_in_order_and_even() {
    let mut p = profile();
    for width in [1u32, 2, 352, 719, 1920] {
        for height in [0u32, 1, 2, 241, 1080] {
            for sar in [None, Rational::new(1, 1), Rational::new(200, 219), Rational::new(16, 11)] {
                for interlaced in [FieldOrder::Progressive, FieldOrder::InterlacedTopFirst] {
                    for target in [None, Some(0), Some(1), Some(361), Some(5000)] {
                        p.video.width = width;
                        p.video.height = height;
                        p.video.sar = sar;
                        p.video.field_order = interlaced;
                        let filters = select_video_filters(&p, target);
                        let scales: Vec<usize> = (0..filters.len())
                            .filter(|i| matches!(filters[*i], VideoFilter::Scale { .. }))
                            .collect();
                        assert!(scales.len() <= 1);
                        for f in &filters {
                            if let VideoFilter::Scale { width, height } = f {
                                assert!(width % 2 == 0 && height % 2 == 0);
                                assert!(*height <= p.video.height);
                                assert!(*width <= p.video.display_size().0);
                            }
                        }
                        assert_eq!(
                            interlaced.is_interlaced(),
                            filters.first() == Some(&VideoFilter::Bwdif)
                        );
                        if let Some(at) =
                            filters.iter().position(|f| matches!(f, VideoFilter::SetSar { .. }))
                        {
                            assert_eq!(scales, [at - 1]);
                        }
                    }
                }
            }
        }
    }
}

#[test]
fn crf_grows_with_the_height() {
    for codec in [VideoCodecChoice::X264, VideoCodecChoice::X265] {
        let heights = [0, 576, 720, 721, 1080, 1081, 2160];
        for pair in heights.windows(2) {
            assert!(default_crf(codec, pair[0]) <= default_crf(codec, pair[1]));
            assert!(shrink_default_crf(codec, pair[0]) <= shrink_default_crf(codec, pair[1]));
            assert!(default_crf(codec, pair[0]) < shrink_default_crf(codec, pair[0]));
        }
    }
    assert_eq!(shrink_default_crf(VideoCodecChoice::X264, 720), 22);
    assert_eq!(shrink_default_crf(VideoCodecChoice::X264, 1080), 23);
    assert_eq!(shrink_default_crf(VideoCodecChoice::X264, 1081), 24);
    assert_eq!(default_codec_choice(&profile()), VideoCodecChoice::X264);
    let strategy = select_video_strategy(&profile(), &Overrides::default());
    assert_eq!(strategy, VideoStrategy::ReencodeX264 { crf: 21, preset: "medium".to_string() });
}

#[test]
fn audio_is_copied_only_where_it_is_accepted() {
    let all = [AudioCodec::Aac, AudioCodec::Ac3, AudioCodec::Eac3, AudioCodec::Dts, AudioCodec::Mp3, AudioCodec::Opus, AudioCodec::Flac, AudioCodec::Vorbis, AudioCodec::Alac];
    for codec in &all {
        assert!(container_supports_audio_copy(&Container::Mkv, codec));
        assert!(!container_supports_audio_copy(&Container::Avi, codec));
        let mp4 = matches!(codec, AudioCodec::Aac | AudioCodec::Mp3 | AudioCodec::Flac | AudioCodec::Alac | AudioCodec::Eac3);
        assert_eq!(container_supports_audio_copy(&Container::Mp4, codec), mp4);
        assert_eq!(container_supports_audio_copy(&Container::Mov, codec), mp4);
        let webm = matches!(codec, AudioCodec::Opus | AudioCodec::Vorbis);
        assert_eq!(container_supports_audio_copy(&Container::WebM, codec), webm);
        let mut p = profile();
        p.audio[0].codec = codec.clone();
        let chosen =
            select_audio_strategy_for_shrink(&p, &Container::Mp4, &Overrides::default());
        assert_eq!(chosen == AudioStrategy::Copy, mp4);
    }
    let mut p = profile();
    p.audio[0].channels = None;
    p.audio[0].codec = AudioCodec::Ac3;
    let stereo = AudioStrategy::AacStereo { bitrate_bps: 192_000 };
    assert_eq!(select_audio_strategy(&p, &Overrides::default()), stereo);
    p.audio[0].channels = Some(6);
    p.audio[0].codec = AudioCodec::Aac;
    assert_eq!(select_audio_strategy(&p, &Overrides::default()), stereo);
    let keep = Overrides { keep_multichannel_audio: true, ..Overrides::default() };
    assert_eq!(select_audio_strategy(&p, &keep), AudioStrategy::Copy);
    p.audio.clear();
    assert_eq!(select_audio_strategy(&p, &keep), AudioStrategy::Copy);
}

#[test]
fn mp4_always_starts_fast() {
    let mp4 = Overrides { container: Some(Container::Mp4), ..Overrides::default() };
    let mut p = profile();
    for format in ["yuv420p", "yuvj420p", "yuvj444p", "yuv422p10le", "gray"] {
        p.video.pix_fmt = Some(PixFmt::from_ffprobe_name(format));
        let recipes = [
            plan_remux(&p, &mp4),
            plan_reencode(&p, &mp4),
            plan_shrink(&p, &mp4, None, None).unwrap(),
        ];
        for recipe in recipes {
            let n = recipe.extra_flags.len();
            assert_eq!(recipe.extra_flags[n - 2..], ["-movflags", "+faststart"]);
        }
        assert_eq!(is_full_range_source(&p), format.starts_with("yuvj"));
    }
    p.video.pix_fmt = None;
    assert!(build_extra_flags(&p, &Container::Mkv).is_empty());
}

#[test]
fn shrinking_is_refused_with_reasons() {
    let mut p = profile();
    p.bitrate_bps = Some(5_000_000);
    let why = plan_shrink(&p, &Overrides::default(), Some(1080), None).unwrap_err().to_string();
    assert!(why.contains(
        "source is already 5.0 Mbps at 1080p (threshold for 1080p is 5.0 Mbps)"
    ));
    p.bitrate_bps = None;
    assert!(plan_shrink(&p, &Overrides::default(), None, None).is_ok());
    let x264 = Overrides { video_codec: Some(VideoCodecChoice::X264), ..Overrides::default() };
    assert_eq!(
        plan_shrink(&p, &x264, None, Some(u64::MAX / 2)).unwrap().video_strategy,
        VideoStrategy::ReencodeX264Abr {
            target_bps: u64::MAX / 2,
            max_bps: u64::MAX / 2 + u64::MAX / 8,
            bufsize_bps: u64::MAX - 1,
            preset: "slow".to_string(),
        }
    );
}

#[test]
fn matching_is_symmetric() {
    let a = profile();
    let mut others = Vec::new();
    for change in 0..9 {
        let mut b = profile();
        match change {
            0 => b.video.codec = VideoCodec::Unknown("x".to_string()),
            1 => b.video.height = 1088,
            2 => b.video.pix_fmt = None,
            3 => b.video.framerate = Rational::new(30, 1),
            4 => b.video.framerate = None,
            5 => b.audio[0].channels = None,
            6 => b.audio[0].sample_rate_hz = None,
            7 => b.audio.clear(),
            _ => b.video.sar = None,
        }
        others.push(b);
    }
    let whys: Vec<Option<String>> =
        others.iter().map(|b| streams_compatible(&a, b).err()).collect();
    let expected = [
        Some("video codec (H.264 vs unknown video codec (x))"),
        Some("video resolution (1920x1080 vs 1920x1088)"),
        Some("pixel format (yuv420p vs unknown)"),
        Some("framerate (24.000 vs 30.000 fps)"),
        None,
        Some("audio channel count (2 vs unknown)"),
        Some("audio sample rate (44100 Hz vs unknown)"),
        Some("audio tracks (reference has audio, this input does not)"),
        None,
    ];
    for (why, expected) in whys.iter().zip(expected) {
        assert_eq!(why.as_deref(), expected);
    }
    for b in &others {
        assert!(streams_compatible(b, b).is_ok());
        assert_eq!(streams_compatible(&a, b).is_ok(), streams_compatible(b, &a).is_ok());
    }
    assert_eq!(
        streams_compatible(&others[7], &a).unwrap_err(),
        "audio tracks (reference has no audio, this input does)"
    );
    assert_eq!(describe_channels(Some(6)), "6");
    assert_eq!(describe_sample_rate(Some(48_000)), "48000 Hz");
}

#[test]
fn output_paths_are_their_own_resolution() {
    let recipe = plan_remux(&profile(), &Overrides::default());
    for user in ["a", "a.mkv", "d/a.MOV", "a.flv", "x.y.z", ".hidden", "d.d/name", "a.m4v"] {
        let once = resolve_output_path(user, &recipe);
        assert!(once.starts_with(user));
        assert_eq!(resolve_output_path(&once, &recipe), once);
    }
    // A directory is no file name to append to.
    assert_eq!(resolve_output_path("d/", &recipe), "d/.mkv");
    assert!(is_known_output_extension("WebM") && !is_known_output_extension("avi"));
    assert!(is_media_extension("M2TS") && !is_media_extension("txt"));
    assert_eq!(split_at_media_extension(".mkv"), (String::new(), Some("mkv".to_string())));
    assert_eq!(split_at_media_extension("a.b"), ("a.b".to_string(), None));
}

#[test]
fn the_files_of_an_upgrade_are_all_different() {
    let recipe = plan_remux(&profile(), &Overrides::default());
    for input in [
        "a.mkv", "a.wmv", "a", "d/a.partial.mkv", "a.vimprover-orig.mkv", ".mkv", "/x//a.mkv", "./a.mkv",
        "a.partial", "..mkv",
    ] {
        let paths = resolve_upgrade_paths(input, &recipe);
        let partial = partial_sibling(&paths.output);
        let input = std::path::Path::new(input);
        let output = std::path::Path::new(&paths.output);
        assert_eq!(paths.backup.is_some(), output == input, "{input:?}");
        assert!(output != std::path::Path::new(&partial) && input != std::path::Path::new(&partial));
        if let Some(backup) = &paths.backup {
            let backup = std::path::Path::new(backup);
            assert!(backup != output && backup != std::path::Path::new(&partial));
        }
    }
}

#[test]
fn several_separate_inputs_are_not_mapped() {
    let recipe = plan_remux(&profile(), &Overrides::default());
    let inputs = ["a.ts".to_string(), "b.mkv".to_string()];
    let containers = [Container::MpegTs, Container::Mkv];
    let args = build_ffmpeg_args(&inputs, &containers, "o.mkv", &recipe, true, None);
    assert_eq!(
        args,
        [
            "-hide_banner", "-loglevel", "warning", "-stats", "-y", "-fflags", "+genpts", "-i", "a.ts",
            "-i", "b.mkv", "-c:v", "copy", "-c:a", "copy", "-c:s", "copy", "o.mkv",
        ]
    );
    let mut pair = Vec::new();
    push_pair(&mut pair, "-k", "v");
    assert_eq!(pair, ["-k", "v"]);
}

#[test]
fn every_strategy_has_its_arguments_and_its_words() {
    let recipe = |video_strategy: VideoStrategy, audio_strategy: AudioStrategy| EncodeRecipe {
        output_container: Container::Mkv,
        video_strategy,
        video_filters: vec![VideoFilter::FieldmatchDecimate, VideoFilter::SetSar { num: 4, den: 3 }],
        audio_strategy,
        extra_flags: vec![],
        concat: None,
    };
    let args = |r: &EncodeRecipe| {
        build_ffmpeg_args(&["i".to_string()], &[Container::Mkv], "o", r, false, None).join(" ")
    };
    let preset = || "slow".to_string();
    let r = recipe(
        VideoStrategy::ReencodeX264Abr { target_bps: 8, max_bps: 10, bufsize_bps: 16, preset: preset() },
        AudioStrategy::AacMultichannel { bitrate_bps: 384_000 },
    );
    assert!(args(&r).contains(
        "-c:v libx264 -b:v 8 -maxrate 10 -bufsize 16 -preset slow \
         -vf fieldmatch,decimate,setsar=4/3 -c:a aac -b:a 384k -c:s copy o"
    ));
    assert_eq!(
        render_recipe(&r, "o.mkv"),
        "Plan:      Re-encode video to H.264 (8 bps average, slow preset) in Matroska (MKV)\n           \
         Inverse telecine with fieldmatch and decimate\n           \
         Set pixel aspect ratio 4:3\n           \
         Re-encode audio to AAC multichannel 384 kbps\n           \
         Output: o.mkv"
    );
    let r = recipe(
        VideoStrategy::ReencodeX265Abr { target_bps: 2_500_000, max_bps: 3, bufsize_bps: 4, preset: preset() },
        AudioStrategy::AacStereo { bitrate_bps: 96_500 },
    );
    assert!(args(&r).contains("-c:v libx265 -b:v 2500000 -maxrate 3 -bufsize 4 -preset slow"));
    assert!(args(&r).contains("-c:a aac -ac 2 -b:a 96500 -c:s copy"));
    assert!(render_recipe(&r, "o").contains("H.265 (2.5 Mbps average, slow preset)"));
    let r = recipe(VideoStrategy::ReencodeX265 { crf: 7, preset: preset() }, AudioStrategy::Copy);
    assert!(args(&r).contains("-c:v libx265 -crf 7 -preset slow"));
    assert!(render_recipe(&r, "o").contains("\n           Copy audio\n"));
    let r = plan_remux(&profile(), &Overrides::default());
    assert_eq!(
        render_upgrade_recipe(&r, "a.mkv", "a.mkv", &Some("b.mkv".to_string())),
        "Plan:      Remux without re-encoding (stream copy) in Matroska (MKV)\n           \
         Output: a.mkv\n           Original a.mkv will be renamed to b.mkv"
    );
}

#[test]
fn lines_for_streams() {
    let mut p = profile();
    p.video.is_hdr = true;
    p.video.framerate = None;
    p.video.pix_fmt = None;
    assert_eq!(render_video(&p.video), "H.264, 1920x1080, progressive, HDR");
    let mut a = p.audio.remove(0);
    assert_eq!(render_audio(&a), "AAC, 2 channels, 44.1 kHz");
    a.channels = Some(1);
    a.sample_rate_hz = None;
    a.bitrate_bps = Some(64_000);
    assert_eq!(render_audio(&a), "AAC, 1 channel, 64 kbps");
    a.channels = None;
    a.bitrate_bps = None;
    assert_eq!(render_audio(&a), "AAC");
}

#[test]
fn summaries() {
    let done = |before: Option<u64>, after: u64| render_completion_summary("o", before, after, secs(61.0));
    assert_eq!(done(None, 500), "Done. Wrote o (500 B, 1m01s).");
    assert_eq!(done(Some(0), 500), "Done. Wrote o (0 B → 500 B, 1m01s).");
    assert_eq!(done(Some(500), 500), "Done. Wrote o (500 B → 500 B, same size, 1m01s).");
    assert_eq!(done(Some(200), 101), "Done. Wrote o (200 B → 101 B, 50% smaller, 1m01s).");
    assert_eq!(done(Some(200), 500), "Done. Wrote o (200 B → 500 B, 150% larger, 1m01s).");
    assert_eq!(format_size(1023), "1023 B");
    assert_eq!(format_size(102_400), "100 KiB");
    assert_eq!(format_size(102_399), "100.0 KiB");
    assert_eq!(format_size(847 << 20), "847 MiB");
    assert_eq!(format_size(4_509_876_543), "4.2 GiB");
    assert_eq!(format_size(u64::MAX), "16384 PiB");
}
