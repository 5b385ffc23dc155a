use vimprover::format::{
    format_bitrate, format_bytes, format_duration, format_khz, render_profile,
};
use vimprover::model::{
    AudioCodec, AudioInfo, Container, FieldOrder, MediaProfile, PixFmt, Rational, Seconds,
    VideoCodec, VideoInfo,
};

/// A span of time from a floating-point number.
fn secs(seconds: f64) -> Seconds {
    Seconds::from_bits(seconds.to_bits()).unwrap()
}

#[test]
fn formats_bytes() {
    assert_eq!(format_bytes(0), "0 B");
    assert_eq!(format_bytes(512), "512 B");
    assert_eq!(format_bytes(2_048), "2.0 KiB");
    assert_eq!(format_bytes(1_572_864), "1.5 MiB");
    assert_eq!(format_bytes(4_509_876_543), "4.2 GiB");
}

#[test]
fn formats_duration() {
    assert_eq!(format_duration(secs(0.0)), "0s");
    assert_eq!(format_duration(secs(42.0)), "42s");
    assert_eq!(format_duration(secs(65.0)), "1m05s");
    assert_eq!(format_duration(secs(3600.0)), "1h00m00s");
    assert_eq!(format_duration(secs(5520.36)), "1h32m00s");
}

#[test]
fn formats_khz() {
    assert_eq!(format_khz(48_000), "48");
    assert_eq!(format_khz(44_100), "44.1");
    assert_eq!(format_khz(22_050), "22.1"); // rounded to 1dp
    assert_eq!(format_khz(8_000), "8");
}

#[test]
fn formats_bitrate() {
    assert_eq!(format_bitrate(500), "500 bps");
    assert_eq!(format_bitrate(192_000), "192 kbps");
    assert_eq!(format_bitrate(6_534_220), "6.5 Mbps");
}

#[test]
fn renders_full_dvd_profile() {
    let profile = MediaProfile {
        container: Container::MpegPs,
        video: VideoInfo {
            codec: VideoCodec::Mpeg2,
            width: 720,
            height: 480,
            field_order: FieldOrder::InterlacedTopFirst,
            framerate: Rational::new(30000, 1001),
            pix_fmt: Some(PixFmt::Yuv420p),
            sar: Rational::new(10, 11),
            is_hdr: false,
        },
        audio: vec![AudioInfo {
            codec: AudioCodec::Ac3,
            channels: Some(6),
            channel_layout: Some("5.1(side)".into()),
            sample_rate_hz: Some(48_000),
            bitrate_bps: Some(448_000),
            language: Some("eng".into()),
        }],
        duration_secs: Some(secs(5520.36)),
        file_size_bytes: Some(4_509_876_543),
        bitrate_bps: Some(6_534_220),
    };
    let out = render_profile("movie.vob", &profile);
    let expected = "File:      movie.vob\n\
                    Container: MPEG-PS, 4.2 GiB, 1h32m00s, 6.5 Mbps\n\
                    Video:     MPEG-2, 720x480 (display 655x480), interlaced (TFF), 29.970 fps, yuv420p, SAR 10:11\n\
                    Audio 1:   AC-3, 5.1(side), 48 kHz, 448 kbps (eng)";
    assert_eq!(out, expected);
}

#[test]
fn renders_profile_without_audio() {
    let profile = MediaProfile {
        container: Container::Mp4,
        video: VideoInfo {
            codec: VideoCodec::H264,
            width: 1920,
            height: 1080,
            field_order: FieldOrder::Progressive,
            framerate: Rational::new(30, 1),
            pix_fmt: Some(PixFmt::Yuv420p),
            sar: Rational::new(1, 1),
            is_hdr: false,
        },
        audio: vec![],
        duration_secs: Some(secs(60.0)),
        file_size_bytes: Some(50_000_000),
        bitrate_bps: Some(5_000_000),
    };
    let out = render_profile("silent.mp4", &profile);
    assert!(out.contains("Container: MP4, "));
    assert!(out.contains("Video:     H.264, 1920x1080, progressive, 30 fps, yuv420p"));
    assert!(out.contains("Audio:     (none)"));
}

#[test]
fn durations_agree_with_doubles() {
    let mut state: u64 = 0x9e37_79b9_7f4a_7c15;
    let mut doubles = vec![
        0.0, 0.5, 1.5, 2.5, 0.49999999999999994, 59.5, 3599.5, 4503599627370495.5, 9007199254740993.0,
        1.8446744073709552e19, 1.844674407370955e19, 1e19, 2e19, 1e308, 5e-324, 1e-20, f64::MAX,
    ];
    for _ in 0..2000 {
        state = state.wrapping_mul(6364136223846793005).wrapping_add(1442695040888963407);
        doubles.push((state >> 20) as f64 / (1u64 << ((state >> 5) % 50)) as f64);
    }
    for f in doubles {
        let total = f.round() as u64;
        let (hours, minutes, seconds) = (total / 3600, total % 3600 / 60, total % 60);
        let expected = if hours > 0 {
            format!("{hours}h{minutes:02}m{seconds:02}s")
        } else if minutes > 0 {
            format!("{minutes}m{seconds:02}s")
        } else {
            format!("{seconds}s")
        };
        assert_eq!(format_duration(secs(f)), expected, "{f}");
    }
    for f in [-1.0, -5e-324, f64::INFINITY, f64::NEG_INFINITY, f64::NAN] {
        assert_eq!(Seconds::from_bits(f.to_bits()), None, "{f}");
    }
    assert_eq!(Seconds::from_bits((-0.0f64).to_bits()), Some(secs(0.0)));
    assert_eq!(secs(1.0), Seconds { mantissa: 1 << 52, exponent: -52 });
    assert_eq!(secs(5e-324), Seconds { mantissa: 1, exponent: -1074 });
}
