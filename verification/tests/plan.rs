use vimprover::assess::{Assessment, Issue};
use vimprover::error::Error;
use vimprover::model::{
    AudioCodec, AudioInfo, Container, FieldOrder, MediaProfile, PixFmt, Rational, Seconds,
    VideoCodec, VideoInfo,
};
use vimprover::plan::{
    container_from_output_extension, plan, plan_concat, plan_remux, resolve_output_path,
    resolve_upgrade_paths, streams_compatible, AudioStrategy, ConcatStrategy, Intent, Overrides,
    VideoCodecChoice, VideoFilter, VideoStrategy,
};

/// A span of time from a floating-point number.
fn secs(seconds: f64) -> Seconds {
    Seconds::from_bits(seconds.to_bits()).unwrap()
}

fn sample_profile() -> MediaProfile {
    MediaProfile {
        container: Container::MpegPs,
        video: VideoInfo {
            codec: VideoCodec::Mpeg2,
            width: 720,
            height: 480,
            field_order: FieldOrder::InterlacedTopFirst,
            framerate: Rational::new(30000, 1001),
            pix_fmt: Some(PixFmt::Yuv420p),
            sar: Rational::new(10, 11),
            is_hdr: false,
        },
        audio: vec![AudioInfo {
            codec: AudioCodec::Ac3,
            channels: Some(6),
            channel_layout: Some("5.1(side)".into()),
            sample_rate_hz: Some(48_000),
            bitrate_bps: Some(448_000),
            language: Some("eng".into()),
        }],
        duration_secs: Some(secs(60.0)),
        file_size_bytes: Some(10_000_000),
        bitrate_bps: Some(1_000_000),
    }
}

#[test]
fn auto_intent_with_empty_assessment_plans_mkv_remux() {
    // Default-empty Assessment ⇒ requires_reencode() is false ⇒ remux.
    // (`sample_profile()` itself has issues, but the caller didn't run
    // `assess()`; we honor what they passed.)
    let p = sample_profile();
    let recipe = plan(&p, &Assessment::default(), &Intent::Auto, &Overrides::default())
        .expect("plan succeeds for Auto");
    assert_eq!(recipe.output_container, Container::Mkv);
    assert_eq!(recipe.video_strategy, VideoStrategy::Copy);
    assert_eq!(recipe.audio_strategy, AudioStrategy::Copy);
    assert!(recipe.video_filters.is_empty());
    assert!(recipe.extra_flags.is_empty());
}

#[test]
fn auto_intent_with_remux_only_issue_picks_remux() {
    let p = sample_profile();
    let assessment = Assessment {
        issues: vec![Issue::LegacyContainer(Container::MpegPs)],
    };
    let recipe = plan(&p, &assessment, &Intent::Auto, &Overrides::default())
        .expect("plan succeeds for Auto");
    assert_eq!(recipe.video_strategy, VideoStrategy::Copy);
}

#[test]
fn auto_intent_with_reencode_required_issue_picks_reencode() {
    let p = sample_profile();
    let assessment = Assessment {
        issues: vec![Issue::Interlaced],
    };
    let recipe = plan(&p, &assessment, &Intent::Auto, &Overrides::default())
        .expect("plan succeeds for Auto");
    assert!(matches!(
        recipe.video_strategy,
        VideoStrategy::ReencodeX264 { .. }
    ));
    // The interlaced sample profile should also pick up the bwdif filter.
    assert!(recipe.video_filters.contains(&VideoFilter::Bwdif));
}

// -- Intent::Shrink ------------------------------------------------------

/// 1080p H.264/AAC MKV at 12 Mbps — well above the 5 Mbps threshold,
/// so an unconfigured shrink should target the threshold.
fn oversized_1080p_profile() -> MediaProfile {
    MediaProfile {
        container: Container::Mkv,
        video: VideoInfo {
            codec: VideoCodec::H264,
            width: 1920,
            height: 1080,
            field_order: FieldOrder::Progressive,
            framerate: Rational::new(24, 1),
            pix_fmt: Some(PixFmt::Yuv420p),
            sar: Rational::new(1, 1),
            is_hdr: false,
        },
        audio: vec![AudioInfo {
            codec: AudioCodec::Aac,
            channels: Some(2),
            channel_layout: Some("stereo".into()),
            sample_rate_hz: Some(48_000),
            bitrate_bps: Some(192_000),
            language: Some("eng".into()),
        }],
        duration_secs: Some(secs(60.0)),
        file_size_bytes: Some(90_000_000),
        bitrate_bps: Some(12_000_000),
    }
}

#[test]
fn shrink_default_uses_x265_crf_slow_at_1080p() {
    let p = oversized_1080p_profile();
    let recipe = plan(
        &p,
        &Assessment::default(),
        &Intent::Shrink {
            max_height: None,
            target_bitrate_bps: None,
        },
        &Overrides::default(),
    )
    .expect("plan_shrink succeeds for oversized 1080p");

    // No --target-bitrate ⇒ CRF mode. Default codec is x265 (manual
    // shrink convention), default preset is `slow`, default CRF for
    // 1080p x265 is 25.
    assert_eq!(
        recipe.video_strategy,
        VideoStrategy::ReencodeX265 { crf: 25, preset: "slow".into() }
    );
    // Audio is stream-copied (no generation loss for negligible savings).
    assert_eq!(recipe.audio_strategy, AudioStrategy::Copy);
    // No downscale → no Scale filter.
    assert!(!recipe.video_filters.iter().any(|f| matches!(f, VideoFilter::Scale { .. })));
}

#[test]
fn shrink_with_max_height_downscales_and_uses_lower_crf_band() {
    let p = oversized_1080p_profile();
    let recipe = plan(
        &p,
        &Assessment::default(),
        &Intent::Shrink {
            max_height: Some(720),
            target_bitrate_bps: None,
        },
        &Overrides::default(),
    )
    .expect("plan_shrink");

    // Output height drops to 720p ⇒ x265 CRF default for ≤720p is 24.
    assert_eq!(
        recipe.video_strategy,
        VideoStrategy::ReencodeX265 { crf: 24, preset: "slow".into() }
    );

    // Scale filter prepended with width preserving 16:9 aspect:
    // 1920 × 720 / 1080 = 1280.
    let scale = recipe
        .video_filters
        .iter()
        .find(|f| matches!(f, VideoFilter::Scale { .. }))
        .expect("expected Scale filter");
    assert_eq!(*scale, VideoFilter::Scale { width: 1280, height: 720 });
}

#[test]
fn shrink_with_explicit_target_bitrate_switches_to_abr() {
    // Explicit --target-bitrate is the "I need a predictable size"
    // opt-in: planner switches from CRF to single-pass ABR with VBV
    // headroom, codec stays at x265, preset stays at slow.
    let p = oversized_1080p_profile();
    let recipe = plan(
        &p,
        &Assessment::default(),
        &Intent::Shrink {
            max_height: None,
            target_bitrate_bps: Some(2_500_000), // user wants ~2.5 Mbps
        },
        &Overrides::default(),
    )
    .expect("plan_shrink");

    match &recipe.video_strategy {
        VideoStrategy::ReencodeX265Abr {
            target_bps,
            max_bps,
            bufsize_bps,
            preset,
        } => {
            assert_eq!(*target_bps, 2_500_000);
            assert_eq!(*max_bps, 3_125_000);
            assert_eq!(*bufsize_bps, 5_000_000);
            assert_eq!(preset, "slow");
        }
        other => panic!("expected ReencodeX265Abr, got {other:?}"),
    }
}

#[test]
fn shrink_refuses_when_source_already_at_or_below_threshold() {
    let mut p = oversized_1080p_profile();
    p.bitrate_bps = Some(4_000_000); // below the 5 Mbps threshold

    let result = plan(
        &p,
        &Assessment::default(),
        &Intent::Shrink {
            max_height: None,
            target_bitrate_bps: None,
        },
        &Overrides::default(),
    );

    match result {
        Err(Error::NothingToShrink(msg)) => {
            assert!(
                msg.contains("1080p"),
                "error message should mention source resolution: {msg}"
            );
        }
        other => panic!("expected NothingToShrink, got {other:?}"),
    }
}

#[test]
fn shrink_with_explicit_target_proceeds_even_if_source_is_small() {
    // User explicitly wants a smaller target — we trust them even if
    // the source is already under the implicit threshold.
    let mut p = oversized_1080p_profile();
    p.bitrate_bps = Some(4_000_000);

    let recipe = plan(
        &p,
        &Assessment::default(),
        &Intent::Shrink {
            max_height: None,
            target_bitrate_bps: Some(1_000_000),
        },
        &Overrides::default(),
    )
    .expect("explicit target overrides nothing-to-shrink");

    match &recipe.video_strategy {
        VideoStrategy::ReencodeX265Abr { target_bps, .. } => {
            assert_eq!(*target_bps, 1_000_000);
        }
        other => panic!("expected ReencodeX265Abr, got {other:?}"),
    }
}

#[test]
fn shrink_with_max_height_above_source_doesnt_upscale() {
    // Source is 1080p, user passes --max-height 1440. We should NOT
    // upscale; we should keep 1080p.
    let p = oversized_1080p_profile();
    let recipe = plan(
        &p,
        &Assessment::default(),
        &Intent::Shrink {
            max_height: Some(1440),
            target_bitrate_bps: None,
        },
        &Overrides::default(),
    )
    .expect("plan_shrink");

    // No Scale filter (no resolution change).
    assert!(!recipe.video_filters.iter().any(|f| matches!(f, VideoFilter::Scale { .. })));
    // Output stays at 1080p ⇒ x265 CRF default for ≤1080p is 25.
    assert_eq!(
        recipe.video_strategy,
        VideoStrategy::ReencodeX265 { crf: 25, preset: "slow".into() }
    );
}

#[test]
fn shrink_uses_higher_crf_band_at_4k() {
    // 4K source: still x265 (always, for shrink), but the CRF default
    // bumps to 26 at >1080p.
    let mut p = oversized_1080p_profile();
    p.video.width = 3840;
    p.video.height = 2160;
    p.bitrate_bps = Some(40_000_000); // 4K @ 40 Mbps; threshold is 15 Mbps

    let recipe = plan(
        &p,
        &Assessment::default(),
        &Intent::Shrink {
            max_height: None,
            target_bitrate_bps: None,
        },
        &Overrides::default(),
    )
    .expect("plan_shrink");

    assert_eq!(
        recipe.video_strategy,
        VideoStrategy::ReencodeX265 { crf: 26, preset: "slow".into() }
    );
}

#[test]
fn shrink_default_codec_is_x265_even_for_sdr_1080p() {
    let p = oversized_1080p_profile();
    let recipe = plan(
        &p,
        &Assessment::default(),
        &Intent::Shrink {
            max_height: None,
            target_bitrate_bps: None,
        },
        &Overrides::default(),
    )
    .expect("plan_shrink");
    assert!(
        matches!(recipe.video_strategy, VideoStrategy::ReencodeX265 { .. }),
        "expected x265 for SDR 1080p shrink, got {:?}",
        recipe.video_strategy
    );
}

#[test]
fn shrink_default_audio_is_copy_even_for_multichannel_source() {
    let mut p = oversized_1080p_profile();
    p.audio = vec![AudioInfo {
        codec: AudioCodec::Ac3,
        channels: Some(6),
        channel_layout: Some("5.1".into()),
        sample_rate_hz: Some(48_000),
        bitrate_bps: Some(448_000),
        language: Some("eng".into()),
    }];
    let recipe = plan(
        &p,
        &Assessment::default(),
        &Intent::Shrink {
            max_height: None,
            target_bitrate_bps: None,
        },
        &Overrides::default(),
    )
    .expect("plan_shrink");
    assert_eq!(recipe.audio_strategy, AudioStrategy::Copy);
}

#[test]
fn shrink_audio_falls_back_to_aac_when_ac3_targets_mp4() {
    // AC-3 in MP4 is technically legal but compat-sketchy in consumer
    // players, so shrink falls back to the reencode planner's AAC
    // policy. Multichannel + default policy → AAC stereo downmix.
    let mut p = oversized_1080p_profile();
    p.audio = vec![AudioInfo {
        codec: AudioCodec::Ac3,
        channels: Some(6),
        channel_layout: Some("5.1".into()),
        sample_rate_hz: Some(48_000),
        bitrate_bps: Some(448_000),
        language: Some("eng".into()),
    }];
    let overrides = Overrides {
        container: Some(Container::Mp4),
        ..Overrides::default()
    };
    let recipe = plan(
        &p,
        &Assessment::default(),
        &Intent::Shrink {
            max_height: None,
            target_bitrate_bps: None,
        },
        &overrides,
    )
    .expect("plan_shrink");
    assert_eq!(
        recipe.audio_strategy,
        AudioStrategy::AacStereo { bitrate_bps: 192_000 }
    );
}

#[test]
fn shrink_audio_copies_aac_into_mp4() {
    // AAC in MP4 is the most compatible audio path possible: copy.
    let mut p = oversized_1080p_profile();
    p.audio = vec![AudioInfo {
        codec: AudioCodec::Aac,
        channels: Some(2),
        channel_layout: Some("stereo".into()),
        sample_rate_hz: Some(48_000),
        bitrate_bps: Some(192_000),
        language: None,
    }];
    let overrides = Overrides {
        container: Some(Container::Mp4),
        ..Overrides::default()
    };
    let recipe = plan(
        &p,
        &Assessment::default(),
        &Intent::Shrink {
            max_height: None,
            target_bitrate_bps: None,
        },
        &overrides,
    )
    .expect("plan_shrink");
    assert_eq!(recipe.audio_strategy, AudioStrategy::Copy);
}

#[test]
fn shrink_audio_falls_back_when_vorbis_targets_mp4() {
    // Vorbis is a WebM-only codec from MP4's perspective: refuse copy,
    // fall back to AAC. (Stereo source, default policy → AAC stereo.)
    let mut p = oversized_1080p_profile();
    p.audio = vec![AudioInfo {
        codec: AudioCodec::Vorbis,
        channels: Some(2),
        channel_layout: Some("stereo".into()),
        sample_rate_hz: Some(48_000),
        bitrate_bps: Some(160_000),
        language: None,
    }];
    let overrides = Overrides {
        container: Some(Container::Mp4),
        ..Overrides::default()
    };
    let recipe = plan(
        &p,
        &Assessment::default(),
        &Intent::Shrink {
            max_height: None,
            target_bitrate_bps: None,
        },
        &overrides,
    )
    .expect("plan_shrink");
    assert_eq!(
        recipe.audio_strategy,
        AudioStrategy::AacStereo { bitrate_bps: 192_000 }
    );
}

#[test]
fn shrink_honors_codec_crf_and_preset_overrides() {
    let p = oversized_1080p_profile();
    let overrides = Overrides {
        video_codec: Some(VideoCodecChoice::X264),
        crf: Some(20),
        preset: Some("medium".into()),
        ..Overrides::default()
    };
    let recipe = plan(
        &p,
        &Assessment::default(),
        &Intent::Shrink {
            max_height: None,
            target_bitrate_bps: None,
        },
        &overrides,
    )
    .expect("plan_shrink");
    assert_eq!(
        recipe.video_strategy,
        VideoStrategy::ReencodeX264 { crf: 20, preset: "medium".into() }
    );
}

#[test]
fn shrink_with_max_height_and_non_square_sar_emits_one_combined_scale() {
    let p = MediaProfile {
        container: Container::MpegPs,
        video: VideoInfo {
            codec: VideoCodec::Mpeg2,
            width: 720,
            height: 480,
            field_order: FieldOrder::Progressive,
            framerate: Rational::new(60_000, 1001),
            pix_fmt: Some(PixFmt::Yuv420p),
            sar: Rational::new(16, 11),
            is_hdr: false,
        },
        audio: vec![AudioInfo {
            codec: AudioCodec::Ac3,
            channels: Some(2),
            channel_layout: Some("stereo".into()),
            sample_rate_hz: Some(48_000),
            bitrate_bps: Some(192_000),
            language: None,
        }],
        duration_secs: Some(secs(60.0)),
        file_size_bytes: Some(50_000_000),
        bitrate_bps: Some(6_000_000),
    };
    let recipe = plan(
        &p,
        &Assessment::default(),
        &Intent::Shrink {
            max_height: Some(360),
            target_bitrate_bps: None,
        },
        &Overrides::default(),
    )
    .expect("plan_shrink");

    let scales: Vec<&VideoFilter> = recipe
        .video_filters
        .iter()
        .filter(|f| matches!(f, VideoFilter::Scale { .. }))
        .collect();
    assert_eq!(
        scales.len(),
        1,
        "expected exactly one Scale filter (no double-scale), got: {scales:?}"
    );
    assert_eq!(
        *scales[0],
        VideoFilter::Scale { width: 784, height: 360 },
        "downscale + SAR correction must combine into one display-space scale"
    );
    assert!(
        recipe
            .video_filters
            .iter()
            .any(|f| matches!(f, VideoFilter::SetSar { num: 1, den: 1 })),
        "expected setsar=1/1 to declare the output square-pixel"
    );
}

#[test]
fn remux_intent_honors_mp4_override_and_adds_faststart() {
    let p = sample_profile();
    let overrides = Overrides {
        container: Some(Container::Mp4),
        ..Overrides::default()
    };
    let recipe =
        plan(&p, &Assessment::default(), &Intent::Remux, &overrides).expect("plan");
    assert_eq!(recipe.output_container, Container::Mp4);
    assert_eq!(
        recipe.extra_flags,
        vec!["-movflags".to_string(), "+faststart".to_string()]
    );
}

fn progressive_profile(
    codec: VideoCodec,
    height: u32,
    is_hdr: bool,
    audio: AudioInfo,
    pix_fmt: Option<PixFmt>,
) -> MediaProfile {
    let width = match height {
        480 => 854,
        720 => 1280,
        1080 => 1920,
        2160 => 3840,
        _ => height * 16 / 9,
    };
    MediaProfile {
        container: Container::Mkv,
        video: VideoInfo {
            codec,
            width,
            height,
            field_order: FieldOrder::Progressive,
            framerate: Rational::new(24, 1),
            pix_fmt,
            sar: Rational::new(1, 1),
            is_hdr,
        },
        audio: vec![audio],
        duration_secs: Some(secs(60.0)),
        file_size_bytes: Some(1_000_000),
        bitrate_bps: Some(500_000),
    }
}

fn aac_stereo() -> AudioInfo {
    AudioInfo {
        codec: AudioCodec::Aac,
        channels: Some(2),
        channel_layout: Some("stereo".into()),
        sample_rate_hz: Some(48_000),
        bitrate_bps: Some(128_000),
        language: None,
    }
}

fn mp3_stereo() -> AudioInfo {
    AudioInfo {
        codec: AudioCodec::Mp3,
        channels: Some(2),
        channel_layout: Some("stereo".into()),
        sample_rate_hz: Some(44_100),
        bitrate_bps: Some(128_000),
        language: None,
    }
}

#[test]
fn reencode_picks_x264_for_1080p_sdr() {
    let p = progressive_profile(
        VideoCodec::H264,
        1080,
        false,
        aac_stereo(),
        Some(PixFmt::Yuv420p),
    );
    let recipe = plan(
        &p,
        &Assessment::default(),
        &Intent::Reencode,
        &Overrides::default(),
    )
    .unwrap();
    assert_eq!(
        recipe.video_strategy,
        VideoStrategy::ReencodeX264 { crf: 21, preset: "medium".into() }
    );
    // AAC stereo should stream-copy.
    assert_eq!(recipe.audio_strategy, AudioStrategy::Copy);
    // No filters needed for square-pixel progressive content.
    assert!(recipe.video_filters.is_empty());
    // Default container is MKV; no extra flags.
    assert_eq!(recipe.output_container, Container::Mkv);
    assert!(recipe.extra_flags.is_empty());
}

#[test]
fn reencode_picks_x264_crf20_at_720p() {
    let p = progressive_profile(
        VideoCodec::H264,
        720,
        false,
        aac_stereo(),
        Some(PixFmt::Yuv420p),
    );
    let recipe = plan(
        &p,
        &Assessment::default(),
        &Intent::Reencode,
        &Overrides::default(),
    )
    .unwrap();
    assert_eq!(
        recipe.video_strategy,
        VideoStrategy::ReencodeX264 { crf: 20, preset: "medium".into() }
    );
}

#[test]
fn reencode_picks_x265_for_4k() {
    let p = progressive_profile(
        VideoCodec::H265,
        2160,
        false,
        aac_stereo(),
        Some(PixFmt::Yuv420p10le),
    );
    let recipe = plan(
        &p,
        &Assessment::default(),
        &Intent::Reencode,
        &Overrides::default(),
    )
    .unwrap();
    assert_eq!(
        recipe.video_strategy,
        VideoStrategy::ReencodeX265 { crf: 23, preset: "medium".into() }
    );
}

#[test]
fn reencode_picks_x265_for_hdr_at_1080p() {
    let p = progressive_profile(
        VideoCodec::H265,
        1080,
        true,
        aac_stereo(),
        Some(PixFmt::Yuv420p10le),
    );
    let recipe = plan(
        &p,
        &Assessment::default(),
        &Intent::Reencode,
        &Overrides::default(),
    )
    .unwrap();
    assert_eq!(
        recipe.video_strategy,
        VideoStrategy::ReencodeX265 { crf: 22, preset: "medium".into() }
    );
}

#[test]
fn reencode_deinterlaces_interlaced_source() {
    // sample_profile() is the DVD-shaped interlaced MPEG-2 input.
    let p = sample_profile();
    let recipe = plan(
        &p,
        &Assessment::default(),
        &Intent::Reencode,
        &Overrides::default(),
    )
    .unwrap();
    assert!(recipe.video_filters.contains(&VideoFilter::Bwdif));
    // Non-square pixels (10:11 SAR) → scale to display size + setsar 1:1.
    assert!(matches!(
        recipe.video_filters.iter().find(|f| matches!(f, VideoFilter::Scale { .. })),
        Some(VideoFilter::Scale { .. })
    ));
    assert!(recipe
        .video_filters
        .contains(&VideoFilter::SetSar { num: 1, den: 1 }));
    // 5.1 AC-3 → AAC stereo by default.
    assert_eq!(
        recipe.audio_strategy,
        AudioStrategy::AacStereo { bitrate_bps: 192_000 }
    );
}

#[test]
fn reencode_sar_correction_rounds_odd_display_width_to_even() {
    let p = MediaProfile {
        container: Container::MpegPs,
        video: VideoInfo {
            codec: VideoCodec::Mpeg1,
            width: 352,
            height: 240,
            field_order: FieldOrder::Progressive,
            framerate: Rational::new(60000, 1001),
            pix_fmt: Some(PixFmt::Yuv420p),
            sar: Rational::new(200, 219),
            is_hdr: false,
        },
        audio: vec![AudioInfo {
            codec: AudioCodec::Mp2,
            channels: Some(2),
            channel_layout: Some("stereo".into()),
            sample_rate_hz: Some(44_100),
            bitrate_bps: Some(128_000),
            language: None,
        }],
        duration_secs: Some(secs(60.0)),
        file_size_bytes: Some(10_000_000),
        bitrate_bps: Some(1_100_000),
    };
    let recipe = plan(
        &p,
        &Assessment::default(),
        &Intent::Reencode,
        &Overrides::default(),
    )
    .unwrap();
    let scale = recipe
        .video_filters
        .iter()
        .find_map(|f| match f {
            VideoFilter::Scale { width, height } => Some((*width, *height)),
            _ => None,
        })
        .expect("expected a Scale filter from SAR correction");
    assert_eq!(scale, (320, 240));
    assert_eq!(scale.0 % 2, 0, "scale width must be even for libx264");
    assert_eq!(scale.1 % 2, 0, "scale height must be even for libx264");
}

#[test]
fn reencode_preserves_multichannel_when_requested() {
    let p = sample_profile();
    let overrides = Overrides {
        keep_multichannel_audio: true,
        ..Overrides::default()
    };
    let recipe =
        plan(&p, &Assessment::default(), &Intent::Reencode, &overrides).unwrap();
    // Source is AC-3 → re-encode to multichannel AAC.
    assert_eq!(
        recipe.audio_strategy,
        AudioStrategy::AacMultichannel { bitrate_bps: 384_000 }
    );
}

#[test]
fn reencode_modernizes_mp3_stereo_to_aac() {
    // Hot-Fuzz-shaped profile: MPEG-4 Part 2 video + MP3 stereo.
    let p = progressive_profile(
        VideoCodec::Mpeg4,
        480,
        false,
        mp3_stereo(),
        Some(PixFmt::Yuv420p),
    );
    let recipe = plan(
        &p,
        &Assessment::default(),
        &Intent::Reencode,
        &Overrides::default(),
    )
    .unwrap();
    assert_eq!(
        recipe.audio_strategy,
        AudioStrategy::AacStereo { bitrate_bps: 192_000 }
    );
}

#[test]
fn reencode_honors_overrides() {
    let p = progressive_profile(
        VideoCodec::H264,
        1080,
        false,
        aac_stereo(),
        Some(PixFmt::Yuv420p),
    );
    let overrides = Overrides {
        video_codec: Some(VideoCodecChoice::X265),
        crf: Some(28),
        preset: Some("slow".into()),
        ..Overrides::default()
    };
    let recipe =
        plan(&p, &Assessment::default(), &Intent::Reencode, &overrides).unwrap();
    assert_eq!(
        recipe.video_strategy,
        VideoStrategy::ReencodeX265 { crf: 28, preset: "slow".into() }
    );
}

#[test]
fn reencode_mp4_container_adds_faststart_and_pixfmt_for_yuv422() {
    let p = progressive_profile(
        VideoCodec::H264,
        1080,
        false,
        aac_stereo(),
        Some(PixFmt::Yuv422p),
    );
    let overrides = Overrides {
        container: Some(Container::Mp4),
        ..Overrides::default()
    };
    let recipe =
        plan(&p, &Assessment::default(), &Intent::Reencode, &overrides).unwrap();
    assert_eq!(recipe.output_container, Container::Mp4);
    assert_eq!(
        recipe.extra_flags,
        vec![
            "-pix_fmt".to_string(),
            "yuv420p".to_string(),
            "-movflags".to_string(),
            "+faststart".to_string(),
        ]
    );
}

#[test]
fn reencode_preserves_full_range_for_yuvj420_source() {
    let p = progressive_profile(
        VideoCodec::H264,
        720,
        false,
        aac_stereo(),
        Some(PixFmt::Yuvj420p),
    );
    let recipe = plan(
        &p,
        &Assessment::default(),
        &Intent::Reencode,
        &Overrides::default(),
    )
    .unwrap();
    // MKV default: only the color-range flag should appear, not -pix_fmt
    // (yuvj420p is already 4:2:0) and not +faststart (we're not in MP4).
    assert_eq!(
        recipe.extra_flags,
        vec!["-color_range".to_string(), "pc".to_string()]
    );
}

#[test]
fn reencode_yuvj422_mp4_emits_color_range_pixfmt_and_faststart() {
    let p = progressive_profile(
        VideoCodec::H264,
        1080,
        false,
        aac_stereo(),
        Some(PixFmt::Yuvj422p),
    );
    let overrides = Overrides {
        container: Some(Container::Mp4),
        ..Overrides::default()
    };
    let recipe =
        plan(&p, &Assessment::default(), &Intent::Reencode, &overrides).unwrap();
    // All three guards should fire in order: full-range tag, pixfmt
    // downconvert, MP4 faststart.
    assert_eq!(
        recipe.extra_flags,
        vec![
            "-color_range".to_string(),
            "pc".to_string(),
            "-pix_fmt".to_string(),
            "yuv420p".to_string(),
            "-movflags".to_string(),
            "+faststart".to_string(),
        ]
    );
}

#[test]
fn reencode_yuv420_source_does_not_emit_color_range() {
    let p = progressive_profile(
        VideoCodec::H264,
        720,
        false,
        aac_stereo(),
        Some(PixFmt::Yuv420p),
    );
    let recipe = plan(
        &p,
        &Assessment::default(),
        &Intent::Reencode,
        &Overrides::default(),
    )
    .unwrap();
    assert!(
        recipe.extra_flags.is_empty(),
        "yuv420p source should not trigger color-range flag: {:?}",
        recipe.extra_flags
    );
}

#[test]
fn reencode_mp4_container_skips_pixfmt_for_yuv420() {
    let p = progressive_profile(
        VideoCodec::H264,
        1080,
        false,
        aac_stereo(),
        Some(PixFmt::Yuv420p),
    );
    let overrides = Overrides {
        container: Some(Container::Mp4),
        ..Overrides::default()
    };
    let recipe =
        plan(&p, &Assessment::default(), &Intent::Reencode, &overrides).unwrap();
    assert_eq!(
        recipe.extra_flags,
        vec!["-movflags".to_string(), "+faststart".to_string()]
    );
}

#[test]
fn concat_intent_through_single_input_plan_errors() {
    let p = sample_profile();
    let err = plan(
        &p,
        &Assessment::default(),
        &Intent::Concat,
        &Overrides::default(),
    )
    .unwrap_err();
    assert!(matches!(err, Error::ConcatTooFewInputs(1)), "got {err:?}");
}

#[test]
fn resolve_output_path_appends_extension_when_missing() {
    let recipe = plan_remux(&sample_profile(), &Overrides::default());
    let out = resolve_output_path("newname", &recipe);
    assert_eq!(out, "newname.mkv");
}

#[test]
fn resolve_output_path_preserves_recognized_extension() {
    let overrides = Overrides {
        container: Some(Container::Mp4),
        ..Overrides::default()
    };
    let recipe = plan_remux(&sample_profile(), &overrides);
    let out = resolve_output_path("newname.mp4", &recipe);
    assert_eq!(out, "newname.mp4");
}

#[test]
fn resolve_output_path_recognizes_extension_case_insensitively() {
    let recipe = plan_remux(&sample_profile(), &Overrides::default());
    let out = resolve_output_path("newname.MKV", &recipe);
    assert_eq!(out, "newname.MKV");
}

#[test]
fn resolve_output_path_handles_paths_with_directories() {
    let recipe = plan_remux(&sample_profile(), &Overrides::default());
    let out = resolve_output_path("/tmp/subdir/movie", &recipe);
    assert_eq!(out, "/tmp/subdir/movie.mkv");
}

#[test]
fn resolve_output_path_appends_when_filename_has_embedded_periods() {
    let recipe = plan_remux(&sample_profile(), &Overrides::default());
    let user = "out/Applied Energistics 2 Tutorial #10 Auto-Crafting  \
         Crafting Networks (MC 1.7.10) (Low)";
    let out = resolve_output_path(user, &recipe);
    assert_eq!(
        out,
        "out/Applied Energistics 2 Tutorial #10 Auto-Crafting  \
             Crafting Networks (MC 1.7.10) (Low).mkv"
    );
}

#[test]
fn resolve_output_path_appends_when_extension_is_unknown() {
    // `.flv` is an input format vimprover handles, but not an output
    // container we can write — fall through to the recipe's extension.
    let recipe = plan_remux(&sample_profile(), &Overrides::default());
    let out = resolve_output_path("newname.flv", &recipe);
    assert_eq!(out, "newname.flv.mkv");
}

#[test]
fn container_from_output_extension_recognizes_common_outputs() {
    assert_eq!(
        container_from_output_extension("foo.mkv"),
        Some(Container::Mkv)
    );
    assert_eq!(
        container_from_output_extension("foo.mp4"),
        Some(Container::Mp4)
    );
    assert_eq!(
        container_from_output_extension("foo.M4V"),
        Some(Container::Mp4)
    );
    assert_eq!(container_from_output_extension("foo"), None);
    assert_eq!(
        container_from_output_extension("foo.flv"),
        None
    );
    // Embedded-period filename: "extension" is gibberish, no inference.
    assert_eq!(
        container_from_output_extension("Tutorial (MC 1.7.10) (Low)"),
        None
    );
}

// -----------------------------------------------------------------------
// resolve_upgrade_paths
// -----------------------------------------------------------------------

/// Most common case: legacy container → MKV. No collision, so no backup.
#[test]
fn upgrade_paths_different_extension_no_backup() {
    let recipe = plan_remux(&sample_profile(), &Overrides::default());
    let paths = resolve_upgrade_paths("/home/u/myfile.wmv", &recipe);
    assert_eq!(paths.output, "/home/u/myfile.mkv");
    assert_eq!(paths.backup, None);
}

/// Same container (MKV → MKV): output collides with input, so a backup
/// is required. The backup filename puts `vimprover-orig` *before* the
/// extension so the backup keeps its double-click behavior.
#[test]
fn upgrade_paths_same_extension_needs_backup() {
    let recipe = plan_remux(&sample_profile(), &Overrides::default());
    let paths = resolve_upgrade_paths("/home/u/myfile.mkv", &recipe);
    assert_eq!(paths.output, "/home/u/myfile.mkv");
    assert_eq!(
        paths.backup.as_deref(),
        Some("/home/u/myfile.vimprover-orig.mkv")
    );
}

/// Bare filename (no directory): parent-less join should still produce
/// a sensible result.
#[test]
fn upgrade_paths_relative_filename_only() {
    let recipe = plan_remux(&sample_profile(), &Overrides::default());
    let paths = resolve_upgrade_paths("myfile.wmv", &recipe);
    assert_eq!(paths.output, "myfile.mkv");
    assert_eq!(paths.backup, None);
}

/// Filename with periods in its title (no real extension). The allow-list
/// means we don't mangle it — the entire filename is the stem, and we
/// append `.mkv` after it.
#[test]
fn upgrade_paths_preserves_filenames_with_embedded_periods() {
    let recipe = plan_remux(&sample_profile(), &Overrides::default());
    let paths = resolve_upgrade_paths(
        "Tutorial #10 (MC 1.7.10) (Low)",
        &recipe,
    );
    assert_eq!(
        paths.output,
        "Tutorial #10 (MC 1.7.10) (Low).mkv",
    );
    assert_eq!(paths.backup, None);
}

/// Same as above but WITH a recognized media extension — the stem
/// should drop only the trailing `.wmv`.
#[test]
fn upgrade_paths_preserves_titles_with_real_extension() {
    let recipe = plan_remux(&sample_profile(), &Overrides::default());
    let paths = resolve_upgrade_paths(
        "Tutorial #10 (MC 1.7.10) (Low).wmv",
        &recipe,
    );
    assert_eq!(
        paths.output,
        "Tutorial #10 (MC 1.7.10) (Low).mkv",
    );
    assert_eq!(paths.backup, None);
}

/// Forced MP4 container with an MP4 input → collision → backup needed.
#[test]
fn upgrade_paths_same_extension_mp4_backup() {
    let overrides = Overrides {
        container: Some(Container::Mp4),
        ..Overrides::default()
    };
    let recipe = plan_remux(&sample_profile(), &overrides);
    let paths = resolve_upgrade_paths("/tmp/holiday.mp4", &recipe);
    assert_eq!(paths.output, "/tmp/holiday.mp4");
    assert_eq!(
        paths.backup.as_deref(),
        Some("/tmp/holiday.vimprover-orig.mp4")
    );
}

/// Uppercase extension: paths are case-sensitive, so
/// `myfile.MKV` != `myfile.mkv` and we produce an output without a
/// backup. The user ends up with both files side-by-side (the original
/// untouched at its original case).
#[test]
fn upgrade_paths_case_sensitive_extension_sees_no_collision() {
    let recipe = plan_remux(&sample_profile(), &Overrides::default());
    let paths = resolve_upgrade_paths("/t/Movie.MKV", &recipe);
    assert_eq!(paths.output, "/t/Movie.mkv");
    assert_eq!(paths.backup, None);
}

// -----------------------------------------------------------------------
// plan_concat / streams_compatible
// -----------------------------------------------------------------------

/// 1080p H.264 + AAC stereo MP4. Two of these are the canonical
/// uniform-concat happy path.
fn modern_mp4_profile() -> MediaProfile {
    MediaProfile {
        container: Container::Mp4,
        video: VideoInfo {
            codec: VideoCodec::H264,
            width: 1920,
            height: 1080,
            field_order: FieldOrder::Progressive,
            framerate: Rational::new(24, 1),
            pix_fmt: Some(PixFmt::Yuv420p),
            sar: Rational::new(1, 1),
            is_hdr: false,
        },
        audio: vec![AudioInfo {
            codec: AudioCodec::Aac,
            channels: Some(2),
            channel_layout: Some("stereo".into()),
            sample_rate_hz: Some(48_000),
            bitrate_bps: Some(192_000),
            language: None,
        }],
        duration_secs: Some(secs(60.0)),
        file_size_bytes: Some(50_000_000),
        bitrate_bps: Some(6_500_000),
    }
}

#[test]
fn streams_compatible_accepts_identical_profiles() {
    let a = modern_mp4_profile();
    let b = modern_mp4_profile();
    assert!(streams_compatible(&a, &b).is_ok());
}

#[test]
fn streams_compatible_rejects_resolution_mismatch() {
    let a = modern_mp4_profile();
    let mut b = modern_mp4_profile();
    b.video.width = 1280;
    b.video.height = 720;
    let err = streams_compatible(&a, &b).unwrap_err();
    assert!(err.contains("resolution"), "got: {err}");
    assert!(err.contains("1920x1080"), "got: {err}");
    assert!(err.contains("1280x720"), "got: {err}");
}

#[test]
fn streams_compatible_rejects_video_codec_mismatch() {
    let a = modern_mp4_profile();
    let mut b = modern_mp4_profile();
    b.video.codec = VideoCodec::H265;
    let err = streams_compatible(&a, &b).unwrap_err();
    assert!(err.contains("video codec"), "got: {err}");
}

#[test]
fn streams_compatible_rejects_pixel_format_mismatch() {
    let a = modern_mp4_profile();
    let mut b = modern_mp4_profile();
    b.video.pix_fmt = Some(PixFmt::Yuv422p);
    let err = streams_compatible(&a, &b).unwrap_err();
    assert!(err.contains("pixel format"), "got: {err}");
}

#[test]
fn streams_compatible_rejects_framerate_mismatch() {
    let a = modern_mp4_profile();
    let mut b = modern_mp4_profile();
    b.video.framerate = Rational::new(30, 1); // vs 24/1
    let err = streams_compatible(&a, &b).unwrap_err();
    assert!(err.contains("framerate"), "got: {err}");
}

#[test]
fn streams_compatible_tolerates_tiny_framerate_drift() {
    // 23.976 vs 24.000 — a tiny drift.
    let mut a = modern_mp4_profile();
    let mut b = modern_mp4_profile();
    a.video.framerate = Rational::new(24000, 1001); // 23.976
    b.video.framerate = Rational::new(24, 1);
    assert!(streams_compatible(&a, &b).is_ok());
}

#[test]
fn streams_compatible_rejects_ntsc_against_round_framerates() {
    for (x, y) in [((30000, 1001), (30, 1)), ((30, 1), (30000, 1001)), ((60000, 1001), (60, 1))] {
        let mut a = modern_mp4_profile();
        let mut b = modern_mp4_profile();
        a.video.framerate = Rational::new(x.0, x.1);
        b.video.framerate = Rational::new(y.0, y.1);
        let err = streams_compatible(&a, &b).unwrap_err();
        assert!(err.contains("framerate"), "got: {err}");
    }
    let mut a = modern_mp4_profile();
    let mut b = modern_mp4_profile();
    a.video.framerate = Rational::new(30000, 1001);
    b.video.framerate = Rational::new(30, 1);
    assert_eq!(streams_compatible(&a, &b).unwrap_err(), "framerate (29.970 vs 30.000 fps)");
    // An input matches one with an unknown framerate.
    b.video.framerate = None;
    assert!(streams_compatible(&a, &b).is_ok());
}

#[test]
fn streams_compatible_rejects_audio_codec_mismatch() {
    let a = modern_mp4_profile();
    let mut b = modern_mp4_profile();
    b.audio[0].codec = AudioCodec::Ac3;
    let err = streams_compatible(&a, &b).unwrap_err();
    assert!(err.contains("audio codec"), "got: {err}");
}

#[test]
fn streams_compatible_rejects_channel_count_mismatch() {
    let a = modern_mp4_profile();
    let mut b = modern_mp4_profile();
    b.audio[0].channels = Some(6); // 5.1 vs stereo
    let err = streams_compatible(&a, &b).unwrap_err();
    assert!(err.contains("channel"), "got: {err}");
}

#[test]
fn streams_compatible_rejects_sample_rate_mismatch() {
    let a = modern_mp4_profile();
    let mut b = modern_mp4_profile();
    b.audio[0].sample_rate_hz = Some(44_100);
    let err = streams_compatible(&a, &b).unwrap_err();
    assert!(err.contains("sample rate"), "got: {err}");
}

#[test]
fn streams_compatible_rejects_audio_present_only_on_one_side() {
    let a = modern_mp4_profile();
    let mut b = modern_mp4_profile();
    b.audio.clear();
    let err = streams_compatible(&a, &b).unwrap_err();
    assert!(err.contains("audio"), "got: {err}");
}

#[test]
fn streams_compatible_accepts_no_audio_on_either_side() {
    let mut a = modern_mp4_profile();
    let mut b = modern_mp4_profile();
    a.audio.clear();
    b.audio.clear();
    assert!(streams_compatible(&a, &b).is_ok());
}

#[test]
fn plan_concat_uniform_inputs_produces_demuxer_recipe() {
    let inputs: Vec<String> = vec![
        "/tmp/a.mp4".to_string(),
        "/tmp/b.mp4".to_string(),
        "/tmp/c.mp4".to_string(),
    ];
    let profiles = vec![
        modern_mp4_profile(),
        modern_mp4_profile(),
        modern_mp4_profile(),
    ];
    let recipe = plan_concat(&inputs, &profiles, &Overrides::default()).unwrap();
    assert_eq!(recipe.concat, Some(ConcatStrategy::Demuxer));
    assert_eq!(recipe.video_strategy, VideoStrategy::Copy);
    assert_eq!(recipe.audio_strategy, AudioStrategy::Copy);
    assert!(recipe.video_filters.is_empty());
    // Default container: MKV (no faststart flags).
    assert_eq!(recipe.output_container, Container::Mkv);
    assert!(recipe.extra_flags.is_empty());
}

#[test]
fn plan_concat_mp4_override_emits_faststart() {
    let inputs: Vec<String> = vec!["/tmp/a.mp4".to_string(), "/tmp/b.mp4".to_string()];
    let profiles = vec![modern_mp4_profile(), modern_mp4_profile()];
    let overrides = Overrides {
        container: Some(Container::Mp4),
        ..Default::default()
    };
    let recipe = plan_concat(&inputs, &profiles, &overrides).unwrap();
    assert_eq!(recipe.output_container, Container::Mp4);
    assert_eq!(recipe.concat, Some(ConcatStrategy::Demuxer));
    assert_eq!(
        recipe.extra_flags,
        vec!["-movflags".to_string(), "+faststart".to_string()]
    );
}

#[test]
fn plan_concat_refuses_mismatched_resolution() {
    let inputs: Vec<String> = vec!["/tmp/a.mp4".to_string(), "/tmp/b.mp4".to_string()];
    let mut second = modern_mp4_profile();
    second.video.width = 1280;
    second.video.height = 720;
    let profiles = vec![modern_mp4_profile(), second];
    let err = plan_concat(&inputs, &profiles, &Overrides::default()).unwrap_err();
    match err {
        Error::ConcatInputsDiffer { path, why } => {
            assert_eq!(path, "/tmp/b.mp4");
            assert!(why.contains("resolution"), "got: {why}");
        }
        _ => panic!("wrong error variant: {err:?}"),
    }
}

#[test]
fn plan_concat_refuses_single_input() {
    let inputs: Vec<String> = vec!["/tmp/a.mp4".to_string()];
    let profiles = vec![modern_mp4_profile()];
    let err = plan_concat(&inputs, &profiles, &Overrides::default()).unwrap_err();
    assert!(matches!(err, Error::ConcatTooFewInputs(1)), "got {err:?}");
}

#[test]
fn plan_concat_zero_inputs_refuses() {
    let inputs: Vec<String> = vec![];
    let profiles: Vec<MediaProfile> = vec![];
    let err = plan_concat(&inputs, &profiles, &Overrides::default()).unwrap_err();
    assert!(matches!(err, Error::ConcatTooFewInputs(0)), "got {err:?}");
}

#[test]
fn plan_concat_first_mismatch_wins_when_multiple_differ() {
    // Inputs: [ref, ok, mismatch1, mismatch2]. Should report on input #3
    // (1-indexed) = "/tmp/c.mp4", not the later one.
    let inputs: Vec<String> = vec![
        "/tmp/ref.mp4".to_string(),
        "/tmp/b.mp4".to_string(),
        "/tmp/c.mp4".to_string(),
        "/tmp/d.mp4".to_string(),
    ];
    let mut third = modern_mp4_profile();
    third.video.width = 1280;
    third.video.height = 720;
    let mut fourth = modern_mp4_profile();
    fourth.video.codec = VideoCodec::H265;
    let profiles = vec![
        modern_mp4_profile(),
        modern_mp4_profile(),
        third,
        fourth,
    ];
    let err = plan_concat(&inputs, &profiles, &Overrides::default()).unwrap_err();
    match err {
        Error::ConcatInputsDiffer { path, .. } => {
            assert_eq!(path, "/tmp/c.mp4");
        }
        _ => panic!("wrong error variant: {err:?}"),
    }
}
