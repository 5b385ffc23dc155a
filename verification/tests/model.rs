use vimprover::model::{
    AudioCodec, Container, FieldOrder, PixFmt, Rational, VideoCodec, VideoInfo,
};

#[test]
fn container_prefers_mp4_over_mov() {
    assert_eq!(
        Container::from_ffprobe_name("mov,mp4,m4a,3gp,3g2,mj2"),
        Container::Mp4
    );
}

#[test]
fn container_matroska_defaults_to_mkv() {
    assert_eq!(
        Container::from_ffprobe_name("matroska,webm"),
        Container::Mkv
    );
}

#[test]
fn container_refines_webm_from_extension() {
    let c = Container::from_ffprobe_name("matroska,webm")
        .refine_with_filename("clip.webm");
    assert_eq!(c, Container::WebM);
}

#[test]
fn container_refines_mkv_from_extension() {
    let c = Container::from_ffprobe_name("matroska,webm")
        .refine_with_filename("movie.MKV"); // case-insensitive
    assert_eq!(c, Container::Mkv);
}

#[test]
fn container_unknown_for_weird_format() {
    assert_eq!(
        Container::from_ffprobe_name("gxf,mxf"),
        Container::Unknown("gxf,mxf".to_string())
    );
}

#[test]
fn video_codec_variants() {
    assert_eq!(VideoCodec::from_ffprobe_name("h264"), VideoCodec::H264);
    assert_eq!(VideoCodec::from_ffprobe_name("hevc"), VideoCodec::H265);
    assert_eq!(VideoCodec::from_ffprobe_name("h265"), VideoCodec::H265);
    assert_eq!(
        VideoCodec::from_ffprobe_name("mpeg2video"),
        VideoCodec::Mpeg2
    );
    assert_eq!(
        VideoCodec::from_ffprobe_name("msmpeg4v3"),
        VideoCodec::Msmpeg4
    );
    assert_eq!(
        VideoCodec::from_ffprobe_name("cinepak"),
        VideoCodec::Unknown("cinepak".to_string())
    );
}

#[test]
fn audio_codec_groups_pcm_and_wma() {
    assert_eq!(
        AudioCodec::from_ffprobe_name("pcm_s16le"),
        AudioCodec::Pcm("pcm_s16le".to_string())
    );
    assert_eq!(
        AudioCodec::from_ffprobe_name("wmav2"),
        AudioCodec::Wma("wmav2".to_string())
    );
    assert_eq!(AudioCodec::from_ffprobe_name("opus"), AudioCodec::Opus);
}

#[test]
fn pix_fmt_is_modern() {
    assert!(PixFmt::Yuv420p.is_modern());
    assert!(PixFmt::Yuv420p10le.is_modern());
    assert!(!PixFmt::Yuv422p.is_modern());
    assert!(!PixFmt::Yuvj420p.is_modern());
}

#[test]
fn field_order_interlaced_detection() {
    assert!(FieldOrder::from_ffprobe_name("tt").is_interlaced());
    assert!(FieldOrder::from_ffprobe_name("bb").is_interlaced());
    assert!(!FieldOrder::from_ffprobe_name("progressive").is_interlaced());
    assert!(!FieldOrder::from_ffprobe_name("").is_interlaced()); // Unknown
}

#[test]
fn rational_parses_slash_and_colon() {
    assert_eq!(Rational::parse("30000/1001"), Rational::new(30000, 1001));
    assert_eq!(Rational::parse("16:9"), Rational::new(16, 9));
    assert_eq!(Rational::parse("0/0"), None);
    assert_eq!(Rational::parse("garbage"), None);
}

#[test]
fn video_info_display_size_accounts_for_sar() {
    let v = VideoInfo {
        codec: VideoCodec::Mpeg2,
        width: 720,
        height: 480,
        field_order: FieldOrder::InterlacedTopFirst,
        framerate: Rational::new(30000, 1001),
        pix_fmt: Some(PixFmt::Yuv420p),
        sar: Rational::new(10, 11),
        is_hdr: false,
    };
    // 720 * 10/11 ≈ 654.5 → 655 rounded
    assert_eq!(v.display_size(), (655, 480));
    assert!(!v.has_square_pixels());
}
