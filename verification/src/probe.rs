//! From what ffprobe reports to a typed [`MediaProfile`].
//!
//! ffprobe is run as
//!
//! ```text
//! ffprobe -v error -print_format json -show_streams -show_format <path>
//! ```
//!
//! and its report is taken as a [`RawOutput`], in which nearly every field is
//! optional, even those that *should* always be present.

use vstd::prelude::*;

use crate::double;
use crate::error::{Error, ErrorView};
use crate::model::{
    AudioCodec, AudioInfo, Container, FieldOrder, MediaProfile, PixFmt, Rational, Seconds,
    VideoCodec, VideoInfo,
};
use crate::model;
use crate::numeral;
use crate::numeral::{Numeral, NumeralView};
use crate::plan;
use crate::text;

verus! {

// ---------------------------------------------------------------------------
// What ffprobe reports
// ---------------------------------------------------------------------------

/// A report of ffprobe.
#[derive(Debug)]
pub struct RawOutput {
    pub streams: Vec<RawStream>,
    pub format: Option<RawFormat>,
}

/// A stream in a report of ffprobe.
#[derive(Debug)]
pub struct RawStream {
    pub codec_type: Option<String>,
    pub codec_name: Option<String>,
    pub width: Option<u32>,
    pub height: Option<u32>,
    pub pix_fmt: Option<String>,
    pub field_order: Option<String>,
    pub r_frame_rate: Option<String>,
    pub avg_frame_rate: Option<String>,
    pub sample_aspect_ratio: Option<String>,
    pub color_transfer: Option<String>,
    pub channels: Option<u32>,
    pub channel_layout: Option<String>,
    pub sample_rate: Option<String>,
    pub bit_rate: Option<String>,
    /// Tags and their values; no tag occurs twice.
    pub tags: Vec<(String, String)>,
}

impl Default for RawStream {
    fn default() -> (r: Self)
        ensures
            r.codec_type is None,
            r.codec_name is None,
            r.width is None,
            r.height is None,
            r.pix_fmt is None,
            r.field_order is None,
            r.r_frame_rate is None,
            r.avg_frame_rate is None,
            r.sample_aspect_ratio is None,
            r.color_transfer is None,
            r.channels is None,
            r.channel_layout is None,
            r.sample_rate is None,
            r.bit_rate is None,
            r.tags@.len() == 0,
    {
        RawStream {
            codec_type: None,
            codec_name: None,
            width: None,
            height: None,
            pix_fmt: None,
            field_order: None,
            r_frame_rate: None,
            avg_frame_rate: None,
            sample_aspect_ratio: None,
            color_transfer: None,
            channels: None,
            channel_layout: None,
            sample_rate: None,
            bit_rate: None,
            tags: Vec::new(),
        }
    }
}

/// The container's part of a report of ffprobe.
#[derive(Debug)]
pub struct RawFormat {
    pub format_name: Option<String>,
    pub duration: Option<String>,
    pub size: Option<String>,
    pub bit_rate: Option<String>,
}

// ---------------------------------------------------------------------------
// What it means
// ---------------------------------------------------------------------------

/// Whether a stream is of type `kind`.
pub open spec fn is_kind(s: RawStream, kind: Seq<char>) -> bool {
    text::opt_text(s.codec_type) == Some(kind)
}

/// The value of the tag `key`.
pub open spec fn tag(tags: Seq<(String, String)>, key: Seq<char>) -> Option<Seq<char>>
    decreases tags.len(),
{
    if tags.len() == 0 {
        None
    } else if tags[0].0@ == key {
        Some(tags[0].1@)
    } else {
        tag(tags.drop_first(), key)
    }
}

/// The language that the tags name, by the lower-case tag if there is one.
pub open spec fn language_tag(tags: Seq<(String, String)>) -> Option<Seq<char>> {
    match tag(tags, "language"@) {
        Some(language) => Some(language),
        None => tag(tags, "LANGUAGE"@),
    }
}

/// A ratio that may be missing.
pub open spec fn ratio_of(s: Option<String>) -> Option<Rational> {
    match s {
        Some(s) => Rational::parsed(s@),
        None => None,
    }
}

/// A whole number up to `max` that may be missing.
pub open spec fn number_of(s: Option<String>, max: nat) -> Option<nat> {
    match s {
        Some(s) => text::parse_unsigned(s@, max),
        None => None,
    }
}

/// A 32-bit number that may be missing, or zero.
pub open spec fn or_zero(n: Option<u32>) -> u32 {
    match n {
        Some(n) => n,
        None => 0,
    }
}

/// Whether a transfer characteristic is one of high dynamic range.
pub open spec fn is_hdr_transfer(transfer: Option<String>) -> bool {
    text::opt_text(transfer) == Some("smpte2084"@) || text::opt_text(transfer) == Some(
        "arib-std-b67"@,
    )
}

/// A duration in seconds: the double that is written, if it is finite and not
/// negative.
pub open spec fn duration_of(s: Option<String>) -> Option<Seconds> {
    match s {
        Some(s) => match numeral::numeral(s@) {
            Some(NumeralView::Finite { negative, digits, point }) => {
                let d = double::double_of(digits, point);
                if (negative && d.0 != 0) || !double::is_finite(d) {
                    None
                } else {
                    Some(Seconds { mantissa: d.0 as u64, exponent: d.1 as i32 })
                }
            },
            _ => None,
        },
        None => None,
    }
}

/// Whether `v` is what a video stream says.
pub open spec fn video_says(v: VideoInfo, s: RawStream) -> bool {
    &&& match s.codec_name {
        Some(name) => v.codec.is_named(name@),
        None => v.codec matches VideoCodec::Unknown(name) && name@ == "(missing codec_name)"@,
    }
    &&& v.width == or_zero(s.width)
    &&& v.height == or_zero(s.height)
    &&& v.field_order == (match s.field_order {
        Some(name) => FieldOrder::named(name@),
        None => FieldOrder::Unknown,
    })
    &&& v.framerate == (if s.r_frame_rate is Some {
        ratio_of(s.r_frame_rate)
    } else {
        ratio_of(s.avg_frame_rate)
    })
    &&& match (v.pix_fmt, s.pix_fmt) {
        (Some(format), Some(name)) => format.is_named(name@),
        (None, None) => true,
        _ => false,
    }
    &&& v.sar == ratio_of(s.sample_aspect_ratio)
    &&& v.is_hdr == is_hdr_transfer(s.color_transfer)
}

/// Whether `a` is what an audio stream says.
pub open spec fn audio_says(a: AudioInfo, s: RawStream) -> bool {
    &&& match s.codec_name {
        Some(name) => a.codec.is_named(name@),
        None => a.codec matches AudioCodec::Unknown(name) && name@ == "(missing codec_name)"@,
    }
    &&& a.channels == s.channels
    &&& text::opt_text(a.channel_layout) == text::opt_text(s.channel_layout)
    &&& a.sample_rate_hz == (match number_of(s.sample_rate, u32::MAX as nat) {
        Some(n) => Some(n as u32),
        None => None,
    })
    &&& a.bitrate_bps == (match number_of(s.bit_rate, u64::MAX as nat) {
        Some(n) => Some(n as u64),
        None => None,
    })
    &&& text::opt_text(a.language) == language_tag(s.tags@)
}

/// The streams of type `kind`, in order.
pub open spec fn streams_of(streams: Seq<RawStream>, kind: Seq<char>) -> Seq<RawStream>
    decreases streams.len(),
{
    if streams.len() == 0 {
        Seq::empty()
    } else if is_kind(streams.last(), kind) {
        streams_of(streams.drop_last(), kind).push(streams.last())
    } else {
        streams_of(streams.drop_last(), kind)
    }
}

/// Whether `audio` is what the audio streams say, one for one.
pub open spec fn audio_tracks_say(audio: Seq<AudioInfo>, streams: Seq<RawStream>) -> bool {
    let tracks = streams_of(streams, "audio"@);
    &&& audio.len() == tracks.len()
    &&& forall|i: int| 0 <= i < audio.len() ==> audio_says(#[trigger] audio[i], tracks[i])
}

/// Whether `container` is what the report says of a file, corrected by its
/// name.
pub open spec fn container_says(
    container: Container,
    file: Seq<char>,
    format_name: Option<String>,
) -> bool {
    match format_name {
        Some(name) => exists|c: Container| c.is_named(name@) && container == c.refined(file),
        None => container matches Container::Unknown(name) && name@ == "(missing format_name)"@,
    }
}

/// Whether `p` is the profile that a report gives of a file.
pub open spec fn profile_says(p: MediaProfile, file: Seq<char>, raw: RawOutput) -> bool {
    let (format_name, duration, size, bit_rate) = match raw.format {
        Some(format) => (format.format_name, format.duration, format.size, format.bit_rate),
        None => (None, None, None, None),
    };
    &&& video_says(p.video, streams_of(raw.streams@, "video"@)[0])
    &&& audio_tracks_say(p.audio@, raw.streams@)
    &&& container_says(p.container, file, format_name)
    &&& p.duration_secs == duration_of(duration)
    &&& p.file_size_bytes == (match number_of(size, u64::MAX as nat) {
        Some(n) => Some(n as u64),
        None => None,
    })
    &&& p.bitrate_bps == (match number_of(bit_rate, u64::MAX as nat) {
        Some(n) => Some(n as u64),
        None => None,
    })
}

// ---------------------------------------------------------------------------
// Building a profile
// ---------------------------------------------------------------------------

/// Whether an optional string is `word`.
fn is_word(s: &Option<String>, word: &str) -> (r: bool)
    ensures
        r == (text::opt_text(*s) == Some(word@)),
{
    match s {
        Some(s) => text::str_eq(s.as_str(), word),
        None => false,
    }
}

/// The value of the tag `key`.
fn find_tag(tags: &Vec<(String, String)>, key: &str) -> (r: Option<String>)
    ensures
        text::opt_text(r) == tag(tags@, key@),
{
    assert(tags@.skip(0) == tags@);
    for i in 0..tags.len()
        invariant
            tag(tags@, key@) == tag(tags@.skip(i as int), key@),
    {
        if text::str_eq(tags[i].0.as_str(), key) {
            return Some(tags[i].1.clone());
        }
        assert(tags@.skip(i as int).drop_first() == tags@.skip(i + 1));
    }
    None
}

/// A ratio that may be missing.
fn parse_ratio(s: &Option<String>) -> (r: Option<Rational>)
    ensures
        r == ratio_of(*s),
{
    match s {
        Some(s) => Rational::parse(s.as_str()),
        None => None,
    }
}

/// A 64-bit number that may be missing.
fn parse_number(s: &Option<String>) -> (r: Option<u64>)
    ensures
        r == (match number_of(*s, u64::MAX as nat) {
            Some(n) => Some(n as u64),
            None => None,
        }),
{
    match s {
        Some(s) => text::parse_u64(s.as_str()),
        None => None,
    }
}

/// A duration that may be missing.
fn parse_duration(s: &Option<String>) -> (r: Option<Seconds>)
    ensures
        r == duration_of(*s),
{
    match s {
        Some(s) => match numeral::read(s.as_str()) {
            Some(Numeral::Finite { negative, digits, point }) => {
                match double::read(&digits, point) {
                    Some((mantissa, exponent)) if !negative || mantissa == 0 => Some(
                        Seconds { mantissa, exponent },
                    ),
                    _ => None,
                }
            },
            _ => None,
        },
        None => None,
    }
}

/// The video stream's part of a profile.
pub fn build_video_info(s: &RawStream) -> (r: VideoInfo)
    ensures
        video_says(r, *s),
{
    let codec = match &s.codec_name {
        Some(name) => VideoCodec::from_ffprobe_name(name.as_str()),
        None => VideoCodec::Unknown("(missing codec_name)".to_owned()),
    };
    let width = match s.width {
        Some(width) => width,
        None => 0,
    };
    let height = match s.height {
        Some(height) => height,
        None => 0,
    };
    let field_order = match &s.field_order {
        Some(name) => FieldOrder::from_ffprobe_name(name.as_str()),
        None => FieldOrder::Unknown,
    };
    let framerate = if s.r_frame_rate.is_some() {
        parse_ratio(&s.r_frame_rate)
    } else {
        parse_ratio(&s.avg_frame_rate)
    };
    let pix_fmt = match &s.pix_fmt {
        Some(name) => Some(PixFmt::from_ffprobe_name(name.as_str())),
        None => None,
    };
    let sar = parse_ratio(&s.sample_aspect_ratio);
    let is_hdr = is_word(&s.color_transfer, "smpte2084") || is_word(
        &s.color_transfer,
        "arib-std-b67",
    );
    VideoInfo { codec, width, height, field_order, framerate, pix_fmt, sar, is_hdr }
}

/// An audio stream's part of a profile.
pub fn build_audio_info(s: &RawStream) -> (r: AudioInfo)
    ensures
        audio_says(r, *s),
{
    let codec = match &s.codec_name {
        Some(name) => AudioCodec::from_ffprobe_name(name.as_str()),
        None => AudioCodec::Unknown("(missing codec_name)".to_owned()),
    };
    let sample_rate_hz = match &s.sample_rate {
        Some(rate) => text::parse_u32(rate.as_str()),
        None => None,
    };
    let bitrate_bps = parse_number(&s.bit_rate);
    let language = match find_tag(&s.tags, "language") {
        Some(language) => Some(language),
        None => find_tag(&s.tags, "LANGUAGE"),
    };
    AudioInfo {
        codec,
        channels: s.channels,
        channel_layout: s.channel_layout.clone(),
        sample_rate_hz,
        bitrate_bps,
        language,
    }
}

/// The first of the streams of type `kind` stays the first when more streams
/// follow.
proof fn lemma_streams_of_prefix(streams: Seq<RawStream>, kind: Seq<char>, n: int)
    requires
        0 <= n <= streams.len(),
    ensures
        streams_of(streams.take(n), kind).len() <= streams_of(streams, kind).len(),
        forall|i: int|
            0 <= i < streams_of(streams.take(n), kind).len() ==> #[trigger] streams_of(
                streams.take(n),
                kind,
            )[i] == streams_of(streams, kind)[i],
    decreases streams.len() - n,
{
    if n < streams.len() {
        lemma_streams_of_prefix(streams, kind, n + 1);
        assert(streams.take(n + 1).drop_last() == streams.take(n));
        let fewer = streams_of(streams.take(n), kind);
        let more = streams_of(streams.take(n + 1), kind);
        assert forall|i: int| 0 <= i < fewer.len() implies #[trigger] fewer[i] == streams_of(
            streams,
            kind,
        )[i] by {
            assert(more[i] == fewer[i]);
        }
    } else {
        assert(streams.take(n) == streams);
    }
}

/// The video of the first video stream.
fn find_video(streams: &Vec<RawStream>) -> (r: Option<VideoInfo>)
    ensures
        match r {
            Some(v) => streams_of(streams@, "video"@).len() > 0 && video_says(
                v,
                streams_of(streams@, "video"@)[0],
            ),
            None => streams_of(streams@, "video"@).len() == 0,
        },
{
    for i in 0..streams.len()
        invariant
            streams_of(streams@.take(i as int), "video"@).len() == 0,
    {
        assert(streams@.take(i + 1).drop_last() == streams@.take(i as int));
        if is_word(&streams[i].codec_type, "video") {
            proof {
                lemma_streams_of_prefix(streams@, "video"@, i + 1);
                assert(streams_of(streams@.take(i + 1), "video"@)[0] == streams@[i as int]);
            }
            return Some(build_video_info(&streams[i]));
        }
    }
    assert(streams@.take(streams@.len() as int) == streams@);
    None
}

/// The audio of every audio stream, in order.
fn collect_audio(streams: &Vec<RawStream>) -> (r: Vec<AudioInfo>)
    ensures
        audio_tracks_say(r@, streams@),
{
    let mut audio: Vec<AudioInfo> = Vec::new();
    for i in 0..streams.len()
        invariant
            audio_tracks_say(audio@, streams@.take(i as int)),
    {
        assert(streams@.take(i + 1).drop_last() == streams@.take(i as int));
        assert(streams@.take(i + 1).last() == streams@[i as int]);
        if is_word(&streams[i].codec_type, "audio") {
            let info = build_audio_info(&streams[i]);
            audio.push(info);
        }
    }
    assert(streams@.take(streams@.len() as int) == streams@);
    audio
}

/// Build the profile of a file from ffprobe's report.
///
/// Fails if the report has no streams, or none of them is video. Streams that
/// are neither video nor audio are ignored.
pub fn build_profile(path: &str, raw: RawOutput) -> (r: Result<MediaProfile, Error>)
    ensures
        match r {
            Ok(p) => streams_of(raw.streams@, "video"@).len() > 0 && profile_says(p, path@, raw),
            Err(e) => {
                &&& streams_of(raw.streams@, "video"@).len() == 0
                &&& e@ == (if raw.streams@.len() == 0 {
                    ErrorView::NoStreams(path@)
                } else {
                    ErrorView::NoVideoStream(path@)
                })
            },
        },
{
    if raw.streams.len() == 0 {
        return Err(Error::NoStreams(path.to_owned()));
    }
    let video = match find_video(&raw.streams) {
        Some(video) => video,
        None => {
            return Err(Error::NoVideoStream(path.to_owned()));
        },
    };
    let audio = collect_audio(&raw.streams);
    let format = match raw.format {
        Some(format) => format,
        None => RawFormat { format_name: None, duration: None, size: None, bit_rate: None },
    };
    let container = match &format.format_name {
        Some(name) => {
            let named = Container::from_ffprobe_name(name.as_str());
            let ghost c = named;
            let refined = named.refine_with_filename(path);
            assert(c.is_named(name@) && refined == c.refined(path@));
            refined
        },
        None => Container::Unknown("(missing format_name)".to_owned()).refine_with_filename(path),
    };
    let duration_secs = parse_duration(&format.duration);
    let file_size_bytes = parse_number(&format.size);
    let bitrate_bps = parse_number(&format.bit_rate);
    Ok(MediaProfile { container, video, audio, duration_secs, file_size_bytes, bitrate_bps })
}

// ---------------------------------------------------------------------------
// Probing a file
// ---------------------------------------------------------------------------

/// The arguments of ffprobe.
pub open spec fn probe_argv(path: Seq<char>) -> Seq<Seq<char>> {
    seq![
        "-v"@,
        "error"@,
        "-print_format"@,
        "json"@,
        "-show_streams"@,
        "-show_format"@,
        path,
    ]
}

/// The arguments of ffprobe for reporting on `path`.
pub fn probe_args(path: &str) -> (r: Vec<String>)
    ensures
        text::texts(r@) == probe_argv(path@),
{
    let mut args: Vec<String> = Vec::new();
    args.push("-v".to_owned());
    args.push("error".to_owned());
    args.push("-print_format".to_owned());
    args.push("json".to_owned());
    args.push("-show_streams".to_owned());
    args.push("-show_format".to_owned());
    args.push(path.to_owned());
    assert(text::texts(args@) =~= probe_argv(path@));
    args
}

/// The path of a binary that the environment names, if it names one: an empty
/// value counts as none.
pub fn binary_override(value: Option<String>) -> (r: Option<String>)
    ensures
        r == (match value {
            Some(path) => if path@.len() > 0 {
                Some(path)
            } else {
                None
            },
            None => None,
        }),
{
    match value {
        Some(path) => {
            if path.as_str().unicode_len() > 0 {
                Some(path)
            } else {
                None
            }
        },
        None => None,
    }
}

/// How far the probing of a file has come.
#[derive(Debug)]
pub enum ProbeState {
    /// Whether the file exists is to be found out.
    CheckExists,
    /// Whether it is a regular file is to be found out.
    CheckIsFile,
    /// ffprobe is to be found.
    Locate,
    /// ffprobe is to be run.
    Run { ffprobe: String },
    /// What ffprobe printed is to be decoded.
    Decode { stdout: Vec<u8> },
    /// The profile is known.
    Done(MediaProfile),
    /// The probing was given up.
    Failed(Error),
}

/// What is to be done next for a probe.
#[derive(Debug)]
pub enum ProbeAction {
    /// Find out whether the file exists.
    QueryExists,
    /// Find out whether it is a regular file.
    QueryIsFile,
    /// Find the ffprobe binary.
    LocateFfprobe,
    /// Run a program to its end, and keep what it prints.
    Spawn { program: String, args: Vec<String> },
    /// Decode the JSON that ffprobe printed.
    Decode,
    /// Nothing is left to do.
    Stop,
}

/// What came of an action.
#[derive(Debug)]
pub enum ProbeEvent {
    Answer(bool),
    /// The path of the binary, or why it was not found.
    Located(Result<String, String>),
    /// The program could not be run.
    SpawnFailed(String),
    /// The program ended; its exit code is missing if a signal ended it.
    Exited { success: bool, code: Option<i32>, stdout: Vec<u8>, stderr: String },
    /// The report, or why it could not be decoded.
    Decoded(Result<RawOutput, String>),
}

/// Whether `next` is the state that follows `state` in probing `path`, when
/// `event` came of its action. An event that does not answer the action
/// changes nothing.
pub open spec fn is_probe_next(
    path: Seq<char>,
    state: ProbeState,
    event: ProbeEvent,
    next: ProbeState,
) -> bool {
    match (state, event) {
        (ProbeState::CheckExists, ProbeEvent::Answer(yes)) => if yes {
            next is CheckIsFile
        } else {
            next matches ProbeState::Failed(e) && e@ == ErrorView::InputNotFound(path)
        },
        (ProbeState::CheckIsFile, ProbeEvent::Answer(yes)) => if yes {
            next is Locate
        } else {
            next matches ProbeState::Failed(e) && e@ == ErrorView::InputNotFile(path)
        },
        (ProbeState::Locate, ProbeEvent::Located(Ok(ffprobe))) => {
            next == (ProbeState::Run { ffprobe })
        },
        (ProbeState::Locate, ProbeEvent::Located(Err(why))) => {
            next == ProbeState::Failed(Error::FfprobeNotFound(why))
        },
        (ProbeState::Run { .. }, ProbeEvent::SpawnFailed(why)) => {
            next == ProbeState::Failed(Error::Io(why))
        },
        (ProbeState::Run { .. }, ProbeEvent::Exited { success, code, stdout, stderr }) => {
            if success {
                next == (ProbeState::Decode { stdout })
            } else {
                next matches ProbeState::Failed(e) && e@ == (ErrorView::FfprobeFailed {
                    path,
                    status: match code {
                        Some(code) => code,
                        None => (-1) as i32,
                    },
                    stderr: stderr@,
                })
            }
        },
        (ProbeState::Decode { .. }, ProbeEvent::Decoded(Err(source))) => {
            next matches ProbeState::Failed(e) && e@ == (ErrorView::FfprobeParse {
                path,
                source: source@,
            })
        },
        (ProbeState::Decode { .. }, ProbeEvent::Decoded(Ok(raw))) => {
            if streams_of(raw.streams@, "video"@).len() > 0 {
                next matches ProbeState::Done(p) && profile_says(p, path, raw)
            } else {
                next matches ProbeState::Failed(e) && e@ == (if raw.streams@.len() == 0 {
                    ErrorView::NoStreams(path)
                } else {
                    ErrorView::NoVideoStream(path)
                })
            }
        },
        (state, _) => next == state,
    }
}

/// Whether `action` is what probing `path` asks for in `state`.
pub open spec fn is_probe_action(path: Seq<char>, state: ProbeState, action: ProbeAction) -> bool {
    match state {
        ProbeState::CheckExists => action is QueryExists,
        ProbeState::CheckIsFile => action is QueryIsFile,
        ProbeState::Locate => action is LocateFfprobe,
        ProbeState::Run { ffprobe } => {
            &&& action matches ProbeAction::Spawn { program, args }
            &&& program == ffprobe
            &&& text::texts(args@) == probe_argv(path)
        },
        ProbeState::Decode { .. } => action is Decode,
        ProbeState::Done(_) | ProbeState::Failed(_) => action is Stop,
    }
}

impl ProbeState {
    /// Begin to probe a file.
    pub fn start() -> (r: Self)
        ensures
            r == ProbeState::CheckExists,
    {
        ProbeState::CheckExists
    }

    /// Go on with what came of the action.
    pub fn next(self, path: &str, event: ProbeEvent) -> (r: Self)
        ensures
            is_probe_next(path@, self, event, r),
    {
        match (self, event) {
            (ProbeState::CheckExists, ProbeEvent::Answer(yes)) => {
                if yes {
                    ProbeState::CheckIsFile
                } else {
                    ProbeState::Failed(Error::InputNotFound(path.to_owned()))
                }
            },
            (ProbeState::CheckIsFile, ProbeEvent::Answer(yes)) => {
                if yes {
                    ProbeState::Locate
                } else {
                    ProbeState::Failed(Error::InputNotFile(path.to_owned()))
                }
            },
            (ProbeState::Locate, ProbeEvent::Located(found)) => match found {
                Ok(ffprobe) => ProbeState::Run { ffprobe },
                Err(why) => ProbeState::Failed(Error::FfprobeNotFound(why)),
            },
            (ProbeState::Run { .. }, ProbeEvent::SpawnFailed(why)) => {
                ProbeState::Failed(Error::Io(why))
            },
            (ProbeState::Run { .. }, ProbeEvent::Exited { success, code, stdout, stderr }) => {
                if success {
                    ProbeState::Decode { stdout }
                } else {
                    let status = match code {
                        Some(code) => code,
                        None => -1,
                    };
                    ProbeState::Failed(
                        Error::FfprobeFailed { path: path.to_owned(), status, stderr },
                    )
                }
            },
            (ProbeState::Decode { .. }, ProbeEvent::Decoded(decoded)) => match decoded {
                Ok(raw) => match build_profile(path, raw) {
                    Ok(profile) => ProbeState::Done(profile),
                    Err(error) => ProbeState::Failed(error),
                },
                Err(source) => ProbeState::Failed(
                    Error::FfprobeParse { path: path.to_owned(), source },
                ),
            },
            (state, _) => state,
        }
    }

    /// What is to be done next.
    pub fn action(&self, path: &str) -> (r: ProbeAction)
        ensures
            is_probe_action(path@, *self, r),
    {
        match self {
            ProbeState::CheckExists => ProbeAction::QueryExists,
            ProbeState::CheckIsFile => ProbeAction::QueryIsFile,
            ProbeState::Locate => ProbeAction::LocateFfprobe,
            ProbeState::Run { ffprobe } => ProbeAction::Spawn {
                program: ffprobe.clone(),
                args: probe_args(path),
            },
            ProbeState::Decode { .. } => ProbeAction::Decode,
            ProbeState::Done(_) | ProbeState::Failed(_) => ProbeAction::Stop,
        }
    }
}

// ---------------------------------------------------------------------------
// Laws
// ---------------------------------------------------------------------------

/// Whatever ffprobe calls a codec or a container, its name is not lost: what
/// has no variant of its own is kept under the name that was reported.
pub proof fn law_unknown_names_are_kept(
    container: Container,
    video: VideoCodec,
    audio: AudioCodec,
    format: PixFmt,
    name: Seq<char>,
)
    ensures
        container.is_named(name) && container is Unknown ==> container->Unknown_0@ == name,
        video.is_named(name) && video is Unknown ==> video->Unknown_0@ == name,
        audio.is_named(name) && audio is Unknown ==> audio->Unknown_0@ == name,
        audio.is_named(name) && audio is Pcm ==> audio->Pcm_0@ == name,
        audio.is_named(name) && audio is Wma ==> audio->Wma_0@ == name,
        format.is_named(name) && format is Other ==> format->Other_0@ == name,
{
}

/// A report says one thing only: two profiles that it gives of a stream have
/// the same video parameters.
pub proof fn law_report_decides_the_video(a: VideoInfo, b: VideoInfo, s: RawStream)
    requires
        video_says(a, s),
        video_says(b, s),
    ensures
        a.codec.same(b.codec),
        a.width == b.width,
        a.height == b.height,
        a.field_order == b.field_order,
        a.framerate == b.framerate,
        plan::same_format(a.pix_fmt, b.pix_fmt),
        a.sar == b.sar,
        a.is_hdr == b.is_hdr,
{
    if let Some(name) = s.codec_name {
        model::law_name_decides_video_codec(a.codec, b.codec, name@);
    }
    if let (Some(x), Some(y), Some(name)) = (a.pix_fmt, b.pix_fmt, s.pix_fmt) {
        model::law_name_decides_pix_fmt(x, y, name@);
    }
}

/// How many steps a probe has before it at most.
pub open spec fn probe_steps_left(state: ProbeState) -> nat {
    match state {
        ProbeState::CheckExists => 5,
        ProbeState::CheckIsFile => 4,
        ProbeState::Locate => 3,
        ProbeState::Run { .. } => 2,
        ProbeState::Decode { .. } => 1,
        ProbeState::Done(_) | ProbeState::Failed(_) => 0,
    }
}

/// Every event that answers its action brings a probe nearer to its end, and
/// a profile comes only of a report.
pub proof fn law_a_probe_ends(
    path: Seq<char>,
    state: ProbeState,
    event: ProbeEvent,
    next: ProbeState,
)
    requires
        is_probe_next(path, state, event, next),
    ensures
        next != state ==> probe_steps_left(next) < probe_steps_left(state),
        next is Done && !(state is Done) ==> (event matches ProbeEvent::Decoded(Ok(raw))
            && profile_says(next->Done_0, path, raw)),
{
}

} // verus!
