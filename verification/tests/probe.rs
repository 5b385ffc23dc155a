use serde_json::Value;
use vimprover::error::Error;
use vimprover::format::format_duration;
use vimprover::model::{
    AudioCodec, Container, FieldOrder, MediaProfile, PixFmt, Rational, Seconds, VideoCodec,
};
use vimprover::probe::{
    binary_override, build_profile, ProbeAction, ProbeEvent, ProbeState, RawFormat, RawOutput,
    RawStream,
};

/// A span of time from a floating-point number.
fn secs(seconds: f64) -> Seconds {
    Seconds::from_bits(seconds.to_bits()).unwrap()
}

fn word(v: &Value, key: &str) -> Option<String> {
    v.get(key).and_then(Value::as_str).map(str::to_string)
}

fn number(v: &Value, key: &str) -> Option<u32> {
    v.get(key).and_then(Value::as_u64).map(|n| n as u32)
}

fn stream(v: &Value) -> RawStream {
    let tags = match v.get("tags").and_then(Value::as_object) {
        Some(tags) => tags
            .iter()
            .map(|(k, t)| (k.clone(), t.as_str().unwrap().to_string()))
            .collect(),
        None => Vec::new(),
    };
    RawStream {
        codec_type: word(v, "codec_type"),
        codec_name: word(v, "codec_name"),
        width: number(v, "width"),
        height: number(v, "height"),
        pix_fmt: word(v, "pix_fmt"),
        field_order: word(v, "field_order"),
        r_frame_rate: word(v, "r_frame_rate"),
        avg_frame_rate: word(v, "avg_frame_rate"),
        sample_aspect_ratio: word(v, "sample_aspect_ratio"),
        color_transfer: word(v, "color_transfer"),
        channels: number(v, "channels"),
        channel_layout: word(v, "channel_layout"),
        sample_rate: word(v, "sample_rate"),
        bit_rate: word(v, "bit_rate"),
        tags,
    }
}

/// Decode a report and build the profile from it.
fn parse_ffprobe_json(path: &str, bytes: &[u8]) -> Result<MediaProfile, Error> {
    let v: Value = serde_json::from_slice(bytes).expect("json");
    let streams = match v.get("streams").and_then(Value::as_array) {
        Some(streams) => streams.iter().map(stream).collect(),
        None => Vec::new(),
    };
    let format = v.get("format").map(|f| RawFormat {
        format_name: word(f, "format_name"),
        duration: word(f, "duration"),
        size: word(f, "size"),
        bit_rate: word(f, "bit_rate"),
    });
    build_profile(path, RawOutput { streams, format })
}

// Representative DVD NTSC VOB: MPEG-2 720x480 interlaced 10:11 SAR, AC-3 5.1.
const DVD_VOB_JSON: &str = r#"{
  "streams": [
    {
      "index": 0,
      "codec_name": "mpeg2video",
      "codec_type": "video",
      "width": 720,
      "height": 480,
      "pix_fmt": "yuv420p",
      "field_order": "tt",
      "r_frame_rate": "30000/1001",
      "avg_frame_rate": "30000/1001",
      "sample_aspect_ratio": "10:11",
      "display_aspect_ratio": "4:3",
      "color_transfer": "bt709"
    },
    {
      "index": 1,
      "codec_name": "ac3",
      "codec_type": "audio",
      "sample_rate": "48000",
      "channels": 6,
      "channel_layout": "5.1(side)",
      "bit_rate": "448000",
      "tags": { "language": "eng" }
    },
    {
      "index": 2,
      "codec_name": "dvd_subtitle",
      "codec_type": "subtitle"
    }
  ],
  "format": {
    "filename": "movie.vob",
    "format_name": "mpeg",
    "duration": "5520.360000",
    "size": "4509876543",
    "bit_rate": "6534220"
  }
}"#;

#[test]
fn parses_dvd_vob_profile() {
    let p = "movie.vob";
    let prof = parse_ffprobe_json(p, DVD_VOB_JSON.as_bytes()).expect("parse");

    assert_eq!(prof.container, Container::MpegPs);
    assert_eq!(prof.video.codec, VideoCodec::Mpeg2);
    assert_eq!(prof.video.width, 720);
    assert_eq!(prof.video.height, 480);
    assert_eq!(prof.video.field_order, FieldOrder::InterlacedTopFirst);
    assert_eq!(prof.video.framerate, Rational::new(30000, 1001));
    assert_eq!(prof.video.pix_fmt, Some(PixFmt::Yuv420p));
    assert_eq!(prof.video.sar, Rational::new(10, 11));
    assert!(!prof.video.is_hdr);

    assert_eq!(prof.audio.len(), 1); // subtitle stream ignored
    let a = &prof.audio[0];
    assert_eq!(a.codec, AudioCodec::Ac3);
    assert_eq!(a.channels, Some(6));
    assert_eq!(a.channel_layout.as_deref(), Some("5.1(side)"));
    assert_eq!(a.bitrate_bps, Some(448_000));
    assert_eq!(a.language.as_deref(), Some("eng"));

    assert_eq!(prof.duration_secs, Some(secs(5520.36)));
    assert_eq!(prof.file_size_bytes, Some(4_509_876_543));
    assert_eq!(prof.bitrate_bps, Some(6_534_220));
}

#[test]
fn detects_hdr_via_color_transfer() {
    let json = r#"{
      "streams": [{
        "codec_name": "hevc",
        "codec_type": "video",
        "width": 3840,
        "height": 2160,
        "pix_fmt": "yuv420p10le",
        "field_order": "progressive",
        "r_frame_rate": "24/1",
        "sample_aspect_ratio": "1:1",
        "color_transfer": "smpte2084"
      }],
      "format": { "format_name": "matroska,webm" }
    }"#;
    let prof = parse_ffprobe_json("x.mkv", json.as_bytes()).unwrap();
    assert!(prof.video.is_hdr);
    assert_eq!(prof.container, Container::Mkv);
}

#[test]
fn errors_without_streams() {
    let json = r#"{ "streams": [], "format": { "format_name": "mp4" } }"#;
    let err = parse_ffprobe_json("x", json.as_bytes()).unwrap_err();
    assert!(matches!(err, Error::NoStreams(_)));
}

#[test]
fn errors_without_video_stream() {
    let json = r#"{
      "streams": [{ "codec_type": "audio", "codec_name": "mp3" }],
      "format": { "format_name": "mp3" }
    }"#;
    let err = parse_ffprobe_json("x", json.as_bytes()).unwrap_err();
    assert!(matches!(err, Error::NoVideoStream(_)));
}

#[test]
fn tolerates_missing_optional_fields() {
    // Minimal JSON: just a video stream with no format block.
    let json = r#"{
      "streams": [{
        "codec_type": "video",
        "codec_name": "h264",
        "width": 1920,
        "height": 1080
      }]
    }"#;
    let prof = parse_ffprobe_json("x.mp4", json.as_bytes()).unwrap();
    assert_eq!(prof.video.codec, VideoCodec::H264);
    assert_eq!(prof.video.field_order, FieldOrder::Unknown);
    assert!(prof.video.framerate.is_none());
    assert!(prof.video.pix_fmt.is_none());
    assert!(prof.audio.is_empty());
    assert!(prof.duration_secs.is_none());
    assert!(matches!(prof.container, Container::Unknown(_)));
}


#[test]
fn tags_and_numbers_are_read_leniently() {
    let json = r#"{
      "streams": [
        { "codec_type": "audio", "codec_name": "pcm_s16le", "sample_rate": "fast", "bit_rate": "-1",
          "tags": { "LANGUAGE": "deu" } },
        { "codec_type": "video", "r_frame_rate": "0/0", "avg_frame_rate": "25/1",
          "color_transfer": "arib-std-b67" },
        { "codec_type": "video", "codec_name": "mjpeg" },
        { "codec_type": "audio", "channels": 1, "tags": { "LANGUAGE": "deu", "language": "fra" } }
      ],
      "format": { "duration": "-1.5", "size": "12x", "bit_rate": "18446744073709551615" }
    }"#;
    let prof = parse_ffprobe_json("x.webm", json.as_bytes()).unwrap();
    assert_eq!(prof.container, Container::Unknown("(missing format_name)".to_string()));
    assert_eq!(prof.video.codec, VideoCodec::Unknown("(missing codec_name)".to_string()));
    assert_eq!(prof.video.framerate, None);
    assert!(prof.video.is_hdr);
    assert_eq!((prof.video.width, prof.video.height), (0, 0));
    assert_eq!(prof.audio.len(), 2);
    assert_eq!(prof.audio[0].codec, AudioCodec::Pcm("pcm_s16le".to_string()));
    assert_eq!(prof.audio[0].sample_rate_hz, None);
    assert_eq!(prof.audio[0].bitrate_bps, None);
    assert_eq!(prof.audio[0].language.as_deref(), Some("deu"));
    assert_eq!(prof.audio[1].codec, AudioCodec::Unknown("(missing codec_name)".to_string()));
    assert_eq!(prof.audio[1].language.as_deref(), Some("fra"));
    assert_eq!(prof.duration_secs, None);
    assert_eq!(prof.file_size_bytes, None);
    assert_eq!(prof.bitrate_bps, Some(u64::MAX));
}

/// The profile of a video of which ffprobe reports a duration.
fn lasting(duration: &str) -> MediaProfile {
    let streams = vec![RawStream { codec_type: Some("video".to_string()), ..RawStream::default() }];
    let format = Some(RawFormat {
        format_name: None,
        duration: Some(duration.to_string()),
        size: None,
        bit_rate: None,
    });
    build_profile("x", RawOutput { streams, format }).unwrap()
}

#[test]
fn durations_are_the_doubles_that_are_written() {
    for s in [
        "5520.360000", "0.0000019", "1e3", "0", "-0", "0.1", "0.49999999999999999999", "0.5", "20000000000000",
        "9007199254740991", "9007199254740992", "9007199254740993", "9007199254740993.5", "9007199254740995",
        "18446744073709551615", "18446744073709551616", "36893488147419103233", "1e22", "1e23", "9e99", "1e300",
        "1.7976931348623157e308", "1.7976931348623158e308", "1.7976931348623159e308", "1e309", "1e1000",
        "1e999999999", "0e999999999", "2.2250738585072014e-308", "2.2250738585072011e-308",
        "2.225073858507201e-308", "4.9406564584124654e-324", "5e-324", "3e-324", "2e-324", "7.4e-324", "7.5e-324",
        "1e-310", "123456789e-320", "1e-999999999", "-1e-323", "-2e-324", "-0.1", "-1e400", "inf", "-inf", "NaN",
        "N/A", "", "1.5.2", "000123.4560",
    ] {
        let double = s.parse::<f64>().ok().filter(|f| f.is_finite() && *f >= 0.0);
        assert_eq!(lasting(s).duration_secs, double.map(|f| secs(f.abs())), "{s}");
    }
    let mut state: u64 = 0x2545_f491_4f6c_dd1d;
    for _ in 0..3000 {
        state = state.wrapping_mul(6364136223846793005).wrapping_add(1442695040888963407);
        let exponent = (state >> 11) as i64 % 640 - 330;
        let s = format!("{}e{exponent}", state >> 2);
        let double = s.parse::<f64>().ok().filter(|f| f.is_finite());
        assert_eq!(lasting(&s).duration_secs, double.map(secs), "{s}");
    }
}

#[test]
fn long_durations_are_shown_in_full() {
    let shown = |s: &str| format_duration(lasting(s).duration_secs.unwrap());
    assert_eq!(shown("20000000000000"), "5555555555h33m20s");
    assert_eq!(shown("0.49999999999999999999"), "1s");
    assert_eq!(shown("0.4999999999999999"), "0s");
    assert_eq!(shown("1e300"), "5124095576030431h00m15s");
}

#[test]
fn a_probe_goes_step_by_step() {
    let s = |t: &str| t.to_string();
    let path = "in.vob";
    let failed = |state: ProbeState| match state {
        ProbeState::Failed(error) => error.to_string(),
        other => panic!("{other:?}"),
    };
    let state = ProbeState::start();
    assert!(matches!(state.action(path), ProbeAction::QueryExists));
    assert_eq!(
        failed(ProbeState::start().next(path, ProbeEvent::Answer(false))),
        "input file does not exist: in.vob"
    );
    let state = state.next(path, ProbeEvent::Answer(true));
    assert!(matches!(state.action(path), ProbeAction::QueryIsFile));
    assert_eq!(
        failed(ProbeState::CheckIsFile.next(path, ProbeEvent::Answer(false))),
        "input path is not a regular file: in.vob"
    );
    let state = state.next(path, ProbeEvent::Answer(true));
    assert!(matches!(state.action(path), ProbeAction::LocateFfprobe));
    assert_eq!(
        failed(ProbeState::Locate.next(path, ProbeEvent::Located(Err(s("not on the path"))))),
        Error::FfprobeNotFound(s("not on the path")).to_string()
    );
    let state = state.next(path, ProbeEvent::Located(Ok(s("/bin/ffprobe"))));
    match state.action(path) {
        ProbeAction::Spawn { program, args } => {
            assert_eq!(program, "/bin/ffprobe");
            assert_eq!(
                args,
                ["-v", "error", "-print_format", "json", "-show_streams", "-show_format", "in.vob"]
            );
        }
        other => panic!("{other:?}"),
    }
    let run = || ProbeState::Run { ffprobe: s("ffprobe") };
    let exited = |success: bool| ProbeEvent::Exited {
        success,
        code: Some(3),
        stdout: vec![123, 125],
        stderr: s("bad"),
    };
    assert_eq!(failed(run().next(path, exited(false))), "ffprobe failed on in.vob (exit 3):\nbad");
    assert_eq!(
        failed(run().next(path, ProbeEvent::SpawnFailed(s("denied")))),
        "i/o error: denied"
    );
    let state = state.next(path, exited(true));
    assert!(matches!(state.action(path), ProbeAction::Decode));
    assert!(matches!(&state, ProbeState::Decode { stdout } if stdout == &[123, 125]));
    let decode = || ProbeState::Decode { stdout: vec![] };
    assert_eq!(
        failed(decode().next(path, ProbeEvent::Decoded(Err(s("EOF"))))),
        "could not parse ffprobe output for in.vob: EOF"
    );
    let streams = vec![RawStream { codec_type: Some(s("video")), ..RawStream::default() }];
    let raw = RawOutput { streams, format: None };
    let state = state.next(path, ProbeEvent::Decoded(Ok(raw)));
    assert!(matches!(&state, ProbeState::Done(_)));
    assert!(matches!(state.action(path), ProbeAction::Stop));
}

#[test]
fn an_empty_override_names_no_binary() {
    assert_eq!(binary_override(None), None);
    assert_eq!(binary_override(Some(String::new())), None);
    assert_eq!(binary_override(Some("/x".to_string())), Some("/x".to_string()));
}
