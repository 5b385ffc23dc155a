use vimprover::assess::{assess, bitrate_threshold_for_height, Assessment, Issue};
use vimprover::format::render_assessment;
use vimprover::model::{
    AudioCodec, AudioInfo, Container, FieldOrder, MediaProfile, PixFmt, Rational, Seconds,
    VideoCodec, VideoInfo,
};
use vimprover::plan::Intent;

/// A span of time from a floating-point number.
fn secs(seconds: f64) -> Seconds {
    Seconds::from_bits(seconds.to_bits()).unwrap()
}

const SHRINK: Intent = Intent::Shrink { max_height: None, target_bitrate_bps: None };

fn track(codec: AudioCodec) -> AudioInfo {
    AudioInfo {
        codec,
        channels: Some(2),
        channel_layout: None,
        sample_rate_hz: Some(48_000),
        bitrate_bps: None,
        language: None,
    }
}

fn fine() -> MediaProfile {
    MediaProfile {
        container: Container::Mp4,
        video: VideoInfo {
            codec: VideoCodec::H264,
            width: 320,
            height: 240,
            field_order: FieldOrder::Progressive,
            framerate: Rational::new(25, 1),
            pix_fmt: Some(PixFmt::Yuv420p),
            sar: Rational::new(1, 1),
            is_hdr: false,
        },
        audio: vec![track(AudioCodec::Aac)],
        duration_secs: Some(secs(1.0)),
        file_size_bytes: None,
        bitrate_bps: None,
    }
}

fn issues(p: &MediaProfile) -> Vec<Issue> {
    assess(p, &Intent::Auto).issues
}

#[test]
fn a_modern_file_is_fine() {
    let assessment = assess(&fine(), &Intent::Auto);
    assert!(assessment.is_fine());
    assert!(!assessment.requires_reencode());
    assert_eq!(render_assessment(&assessment), None);
    for codec in [VideoCodec::H265, VideoCodec::Av1, VideoCodec::Vp9] {
        let mut p = fine();
        p.video.codec = codec;
        p.container = Container::Mkv;
        p.video.pix_fmt = Some(PixFmt::Yuv420p10le);
        p.audio = vec![track(AudioCodec::Opus), track(AudioCodec::Flac), track(AudioCodec::Ac3)];
        assert_eq!(issues(&p), []);
    }
}

#[test]
fn every_rule_finds_its_issue() {
    let mut p = fine();
    p.video.codec = VideoCodec::Mpeg2;
    assert_eq!(issues(&p), [Issue::LegacyVideoCodec(VideoCodec::Mpeg2)]);
    let mut p = fine();
    p.audio.push(track(AudioCodec::Mp3));
    assert_eq!(issues(&p), [Issue::LegacyAudioCodec(AudioCodec::Mp3)]);
    let mut p = fine();
    p.audio = vec![track(AudioCodec::Eac3)];
    assert_eq!(issues(&p), [Issue::LegacyAudioCodec(AudioCodec::Eac3)]);
    let mut p = fine();
    p.container = Container::Avi;
    assert_eq!(issues(&p), [Issue::LegacyContainer(Container::Avi)]);
    let mut p = fine();
    p.video.field_order = FieldOrder::InterlacedBottomFirst;
    assert_eq!(issues(&p), [Issue::Interlaced]);
    let mut p = fine();
    p.video.pix_fmt = Some(PixFmt::Yuv444p);
    assert_eq!(issues(&p), [Issue::NonModernPixelFormat]);
    let mut p = fine();
    p.video.sar = Rational::new(10, 11);
    assert_eq!(issues(&p), [Issue::NonSquarePixels(Rational { num: 10, den: 11 })]);
}

#[test]
fn what_is_unknown_is_no_issue() {
    let mut p = fine();
    p.video.field_order = FieldOrder::Unknown;
    p.video.pix_fmt = None;
    p.video.sar = None;
    p.audio.clear();
    assert_eq!(issues(&p), []);
}

#[test]
fn a_dvd_has_its_issues_listed() {
    let mut p = fine();
    p.container = Container::MpegPs;
    p.video.codec = VideoCodec::Mpeg2;
    p.video.field_order = FieldOrder::InterlacedTopFirst;
    p.video.sar = Rational::new(10, 11);
    p.audio = vec![track(AudioCodec::Ac3)];
    let assessment = assess(&p, &Intent::Auto);
    assert_eq!(
        render_assessment(&assessment).unwrap(),
        "Issues:    legacy video codec (MPEG-2)\n           \
         legacy container (MPEG-PS)\n           \
         interlaced source\n           \
         non-square pixels (SAR 10:11)"
    );
    assert!(assessment.requires_reencode());
}

#[test]
fn shrinking_looks_at_the_bitrate() {
    assert_eq!(bitrate_threshold_for_height(1080), 5_000_000);
    assert_eq!(bitrate_threshold_for_height(1081), 15_000_000);
    let mut p = fine();
    p.bitrate_bps = Some(12_000_000);
    assert_eq!(issues(&p), []);
    let found = assess(&p, &SHRINK);
    assert_eq!(found.issues, [Issue::BitrateExcessive { actual: 12_000_000, threshold: 5_000_000 }]);
    assert_eq!(
        render_assessment(&found).unwrap(),
        "Issues:    excessive bitrate (12.0 Mbps, threshold 5.0 Mbps)"
    );
    p.bitrate_bps = Some(5_000_000);
    assert_eq!(assess(&p, &SHRINK).issues, []);
    p.video.height = 2160;
    assert_eq!(assess(&p, &SHRINK).issues, [Issue::ResolutionWasteful]);
    p.bitrate_bps = None;
    assert_eq!(assess(&p, &SHRINK).issues, []);
}

#[test]
fn only_container_issues_need_no_reencode() {
    let of = |issue: Issue| Assessment { issues: vec![issue] }.requires_reencode();
    assert!(!of(Issue::LegacyContainer(Container::Avi)));
    assert!(!of(Issue::MissingSeekIndex));
    assert!(of(Issue::LegacyVideoCodec(VideoCodec::Vp8)));
    assert!(of(Issue::LegacyAudioCodec(AudioCodec::Mp2)));
    assert!(of(Issue::Interlaced));
    assert!(of(Issue::NonModernPixelFormat));
    assert!(of(Issue::ResolutionWasteful));
    assert!(of(Issue::AudioCodecIncompatibleWithTargetContainer));
    let both = Assessment { issues: vec![Issue::MissingSeekIndex, Issue::Interlaced] };
    assert!(both.requires_reencode());
    assert!(!Assessment::default().requires_reencode());
}

#[test]
fn every_issue_has_a_name() {
    let all = Assessment {
        issues: vec![
            Issue::MissingSeekIndex,
            Issue::NonModernPixelFormat,
            Issue::ResolutionWasteful,
            Issue::AudioCodecIncompatibleWithTargetContainer,
            Issue::LegacyAudioCodec(AudioCodec::Wma("wmav2".to_string())),
        ],
    };
    assert_eq!(
        render_assessment(&all).unwrap(),
        "Issues:    missing seek index\n           \
         non-modern pixel format\n           \
         wasteful resolution\n           \
         audio codec incompatible with target container\n           \
         legacy audio codec (WMA (wmav2))"
    );
}
