//! Typed media model shared by every layer of the pipeline.
//!
//! Every enum has a `from_ffprobe_name` constructor that accepts the raw
//! strings reported by `ffprobe`. Unknown values are preserved in a variant
//! of their own rather than dropped, both for debug output and so that the
//! assessor and the planner can decide conservatively.

use vstd::prelude::*;

use crate::binary64;
use crate::path;
use crate::text;

verus! {

// ---------------------------------------------------------------------------
// Container
// ---------------------------------------------------------------------------

/// High-level container format.
#[derive(Debug, Eq)]
pub enum Container {
    Mp4,
    Mov,
    Mkv,
    WebM,
    /// MPEG program stream (`.mpg`, `.vob`, etc.).
    MpegPs,
    /// MPEG transport stream (`.ts`, `.m2ts`).
    MpegTs,
    /// ASF / WMV.
    Asf,
    Avi,
    Flv,
    Unknown(String),
}

impl Container {
    /// Whether this is the container that ffprobe's comma-separated
    /// `format_name` stands for. The first format of this list that
    /// `format_name` mentions wins, so that MP4 is preferred over MOV.
    pub open spec fn is_named(self, format_name: Seq<char>) -> bool {
        if text::lists(format_name, "mp4"@) {
            self is Mp4
        } else if text::lists(format_name, "mov"@) {
            self is Mov
        } else if text::lists(format_name, "matroska"@) {
            self is Mkv
        } else if text::lists(format_name, "webm"@) {
            self is WebM
        } else if text::lists(format_name, "avi"@) {
            self is Avi
        } else if text::lists(format_name, "asf"@) {
            self is Asf
        } else if text::lists(format_name, "flv"@) {
            self is Flv
        } else if text::lists(format_name, "mpeg"@) {
            self is MpegPs
        } else if text::lists(format_name, "mpegts"@) {
            self is MpegTs
        } else {
            self matches Container::Unknown(name) && name@ == format_name
        }
    }

    /// This container, corrected by the extension of the file it was read
    /// from: `ffprobe` reports the same format for Matroska and WebM.
    pub open spec fn refined(self, file: Seq<char>) -> Container {
        match path::extension(file) {
            Some(ext) => {
                let ext = text::ascii_lowercase(ext);
                if self is Mkv && ext == "webm"@ {
                    Container::WebM
                } else if self is WebM && ext == "mkv"@ {
                    Container::Mkv
                } else {
                    self
                }
            },
            None => self,
        }
    }

    /// The filename extension that stands for this container.
    pub open spec fn extension(self) -> Seq<char> {
        match self {
            Container::Mp4 => "mp4"@,
            Container::Mov => "mov"@,
            Container::Mkv => "mkv"@,
            Container::WebM => "webm"@,
            Container::MpegPs => "mpg"@,
            Container::MpegTs => "ts"@,
            Container::Asf => "wmv"@,
            Container::Avi => "avi"@,
            Container::Flv => "flv"@,
            Container::Unknown(_) => "bin"@,
        }
    }

    /// The container's name for people.
    pub open spec fn label(self) -> Seq<char> {
        match self {
            Container::Mp4 => "MP4"@,
            Container::Mov => "MOV"@,
            Container::Mkv => "Matroska (MKV)"@,
            Container::WebM => "WebM"@,
            Container::MpegPs => "MPEG-PS"@,
            Container::MpegTs => "MPEG-TS"@,
            Container::Asf => "ASF/WMV"@,
            Container::Avi => "AVI"@,
            Container::Flv => "FLV"@,
            Container::Unknown(name) => "unknown ("@ + name@ + ")"@,
        }
    }

    /// Whether two containers are the same, unknown ones by their names.
    pub open spec fn same(self, other: Container) -> bool {
        match (self, other) {
            (Container::Unknown(a), Container::Unknown(b)) => a@ == b@,
            _ => self == other,
        }
    }

    /// Best-guess container from ffprobe's comma-separated `format_name`,
    /// which looks like `"mov,mp4,m4a,3gp,3g2,mj2"` or `"matroska,webm"`.
    pub fn from_ffprobe_name(format_name: &str) -> (r: Self)
        ensures
            r.is_named(format_name@),
    {
        if text::lists_word(format_name, "mp4") {
            Container::Mp4
        } else if text::lists_word(format_name, "mov") {
            Container::Mov
        } else if text::lists_word(format_name, "matroska") {
            Container::Mkv
        } else if text::lists_word(format_name, "webm") {
            Container::WebM
        } else if text::lists_word(format_name, "avi") {
            Container::Avi
        } else if text::lists_word(format_name, "asf") {
            Container::Asf
        } else if text::lists_word(format_name, "flv") {
            Container::Flv
        } else if text::lists_word(format_name, "mpeg") {
            Container::MpegPs
        } else if text::lists_word(format_name, "mpegts") {
            Container::MpegTs
        } else {
            Container::Unknown(format_name.to_owned())
        }
    }

    /// Disambiguate Matroska and WebM by the filename extension.
    pub fn refine_with_filename(self, path: &str) -> (r: Self)
        ensures
            r == self.refined(path@),
    {
        match path::extension_of(path) {
            Some(ext) => {
                if matches!(self, Container::Mkv) && text::eq_lowered(ext.as_str(), "webm") {
                    Container::WebM
                } else if matches!(self, Container::WebM) && text::eq_lowered(
                    ext.as_str(),
                    "mkv",
                ) {
                    Container::Mkv
                } else {
                    self
                }
            },
            None => self,
        }
    }

    /// Canonical filename extension used when the planner picks this
    /// container.
    pub fn canonical_extension(&self) -> (r: &'static str)
        ensures
            r@ == self.extension(),
    {
        match self {
            Container::Mp4 => "mp4",
            Container::Mov => "mov",
            Container::Mkv => "mkv",
            Container::WebM => "webm",
            Container::MpegPs => "mpg",
            Container::MpegTs => "ts",
            Container::Asf => "wmv",
            Container::Avi => "avi",
            Container::Flv => "flv",
            Container::Unknown(_) => "bin",
        }
    }

    /// The container's name for people.
    pub fn to_string(&self) -> (r: String)
        ensures
            r@ == self.label(),
    {
        match self {
            Container::Mp4 => "MP4".to_owned(),
            Container::Mov => "MOV".to_owned(),
            Container::Mkv => "Matroska (MKV)".to_owned(),
            Container::WebM => "WebM".to_owned(),
            Container::MpegPs => "MPEG-PS".to_owned(),
            Container::MpegTs => "MPEG-TS".to_owned(),
            Container::Asf => "ASF/WMV".to_owned(),
            Container::Avi => "AVI".to_owned(),
            Container::Flv => "FLV".to_owned(),
            Container::Unknown(name) => wrapped("unknown (", name, ")"),
        }
    }
}

/// `inner` between `before` and `after`.
fn wrapped(before: &str, inner: &String, after: &str) -> (r: String)
    ensures
        r@ == before@ + inner@ + after@,
{
    let mut out = before.to_owned();
    out.append(inner.as_str());
    out.append(after);
    out
}

impl Clone for Container {
    fn clone(&self) -> (r: Self)
        ensures
            r == *self,
    {
        match self {
            Container::Mp4 => Container::Mp4,
            Container::Mov => Container::Mov,
            Container::Mkv => Container::Mkv,
            Container::WebM => Container::WebM,
            Container::MpegPs => Container::MpegPs,
            Container::MpegTs => Container::MpegTs,
            Container::Asf => Container::Asf,
            Container::Avi => Container::Avi,
            Container::Flv => Container::Flv,
            Container::Unknown(name) => Container::Unknown(name.clone()),
        }
    }
}

impl PartialEq for Container {
    fn eq(&self, other: &Self) -> (r: bool) {
        match (self, other) {
            (Container::Mp4, Container::Mp4) => true,
            (Container::Mov, Container::Mov) => true,
            (Container::Mkv, Container::Mkv) => true,
            (Container::WebM, Container::WebM) => true,
            (Container::MpegPs, Container::MpegPs) => true,
            (Container::MpegTs, Container::MpegTs) => true,
            (Container::Asf, Container::Asf) => true,
            (Container::Avi, Container::Avi) => true,
            (Container::Flv, Container::Flv) => true,
            (Container::Unknown(a), Container::Unknown(b)) => *a == *b,
            _ => false,
        }
    }
}

impl vstd::std_specs::cmp::PartialEqSpecImpl for Container {
    open spec fn obeys_eq_spec() -> bool {
        true
    }

    open spec fn eq_spec(&self, other: &Self) -> bool {
        self.same(*other)
    }
}

/// A format name stands for one container.
pub proof fn law_name_decides_container(a: Container, b: Container, format_name: Seq<char>)
    requires
        a.is_named(format_name),
        b.is_named(format_name),
    ensures
        a.same(b),
{
}

// ---------------------------------------------------------------------------
// Video codec
// ---------------------------------------------------------------------------

/// Video codec of a stream.
#[derive(Debug, Eq)]
pub enum VideoCodec {
    Mpeg1,
    Mpeg2,
    /// Generic MPEG-4 Part 2 (Xvid/DivX).
    Mpeg4,
    /// Microsoft MPEG-4 v1/v2/v3.
    Msmpeg4,
    H263,
    H264,
    H265,
    Av1,
    Vp8,
    Vp9,
    Vc1,
    Wmv1,
    Wmv2,
    Wmv3,
    Theora,
    Flv1,
    Unknown(String),
}

impl VideoCodec {
    /// Whether `name` has a variant of its own.
    pub open spec fn is_listed(name: Seq<char>) -> bool {
        ||| name == "mpeg1video"@
        ||| name == "mpeg2video"@
        ||| name == "mpeg4"@
        ||| name == "msmpeg4v1"@
        ||| name == "msmpeg4v2"@
        ||| name == "msmpeg4v3"@
        ||| name == "msmpeg4"@
        ||| name == "h263"@
        ||| name == "h264"@
        ||| name == "hevc"@
        ||| name == "h265"@
        ||| name == "av1"@
        ||| name == "vp8"@
        ||| name == "vp9"@
        ||| name == "vc1"@
        ||| name == "wmv1"@
        ||| name == "wmv2"@
        ||| name == "wmv3"@
        ||| name == "theora"@
        ||| name == "flv1"@
    }

    /// Whether this is what ffprobe calls `name`.
    pub open spec fn is_named(self, name: Seq<char>) -> bool {
        match self {
            VideoCodec::Mpeg1 => name == "mpeg1video"@,
            VideoCodec::Mpeg2 => name == "mpeg2video"@,
            VideoCodec::Mpeg4 => name == "mpeg4"@,
            VideoCodec::Msmpeg4 => {
                name == "msmpeg4v1"@ || name == "msmpeg4v2"@ || name == "msmpeg4v3"@
                    || name == "msmpeg4"@
            },
            VideoCodec::H263 => name == "h263"@,
            VideoCodec::H264 => name == "h264"@,
            VideoCodec::H265 => name == "hevc"@ || name == "h265"@,
            VideoCodec::Av1 => name == "av1"@,
            VideoCodec::Vp8 => name == "vp8"@,
            VideoCodec::Vp9 => name == "vp9"@,
            VideoCodec::Vc1 => name == "vc1"@,
            VideoCodec::Wmv1 => name == "wmv1"@,
            VideoCodec::Wmv2 => name == "wmv2"@,
            VideoCodec::Wmv3 => name == "wmv3"@,
            VideoCodec::Theora => name == "theora"@,
            VideoCodec::Flv1 => name == "flv1"@,
            VideoCodec::Unknown(kept) => kept@ == name && !Self::is_listed(name),
        }
    }

    /// The codec's name for people.
    pub open spec fn label(self) -> Seq<char> {
        match self {
            VideoCodec::Mpeg1 => "MPEG-1"@,
            VideoCodec::Mpeg2 => "MPEG-2"@,
            VideoCodec::Mpeg4 => "MPEG-4 Part 2 (Xvid/DivX)"@,
            VideoCodec::Msmpeg4 => "Microsoft MPEG-4"@,
            VideoCodec::H263 => "H.263"@,
            VideoCodec::H264 => "H.264"@,
            VideoCodec::H265 => "H.265 (HEVC)"@,
            VideoCodec::Av1 => "AV1"@,
            VideoCodec::Vp8 => "VP8"@,
            VideoCodec::Vp9 => "VP9"@,
            VideoCodec::Vc1 => "VC-1"@,
            VideoCodec::Wmv1 => "WMV 1"@,
            VideoCodec::Wmv2 => "WMV 2"@,
            VideoCodec::Wmv3 => "WMV 3"@,
            VideoCodec::Theora => "Theora"@,
            VideoCodec::Flv1 => "Sorenson Spark (FLV1)"@,
            VideoCodec::Unknown(name) => "unknown video codec ("@ + name@ + ")"@,
        }
    }

    /// Whether two values are the same, kept names by their characters.
    pub open spec fn same(self, other: VideoCodec) -> bool {
        match (self, other) {
            (VideoCodec::Unknown(a), VideoCodec::Unknown(b)) => a@ == b@,
            _ => self == other,
        }
    }

    /// The codec that ffprobe's `codec_name` stands for.
    pub fn from_ffprobe_name(codec_name: &str) -> (r: Self)
        ensures
            r.is_named(codec_name@),
    {
        if text::str_eq(codec_name, "mpeg1video") {
            VideoCodec::Mpeg1
        } else if text::str_eq(codec_name, "mpeg2video") {
            VideoCodec::Mpeg2
        } else if text::str_eq(codec_name, "mpeg4") {
            VideoCodec::Mpeg4
        } else if text::str_eq(codec_name, "msmpeg4v1") || text::str_eq(codec_name, "msmpeg4v2")
            || text::str_eq(codec_name, "msmpeg4v3") || text::str_eq(codec_name, "msmpeg4") {
            VideoCodec::Msmpeg4
        } else if text::str_eq(codec_name, "h263") {
            VideoCodec::H263
        } else if text::str_eq(codec_name, "h264") {
            VideoCodec::H264
        } else if text::str_eq(codec_name, "hevc") || text::str_eq(codec_name, "h265") {
            VideoCodec::H265
        } else if text::str_eq(codec_name, "av1") {
            VideoCodec::Av1
        } else if text::str_eq(codec_name, "vp8") {
            VideoCodec::Vp8
        } else if text::str_eq(codec_name, "vp9") {
            VideoCodec::Vp9
        } else if text::str_eq(codec_name, "vc1") {
            VideoCodec::Vc1
        } else if text::str_eq(codec_name, "wmv1") {
            VideoCodec::Wmv1
        } else if text::str_eq(codec_name, "wmv2") {
            VideoCodec::Wmv2
        } else if text::str_eq(codec_name, "wmv3") {
            VideoCodec::Wmv3
        } else if text::str_eq(codec_name, "theora") {
            VideoCodec::Theora
        } else if text::str_eq(codec_name, "flv1") {
            VideoCodec::Flv1
        } else {
            VideoCodec::Unknown(codec_name.to_owned())
        }
    }

    /// The codec's name for people.
    pub fn to_string(&self) -> (r: String)
        ensures
            r@ == self.label(),
    {
        match self {
            VideoCodec::Mpeg1 => "MPEG-1".to_owned(),
            VideoCodec::Mpeg2 => "MPEG-2".to_owned(),
            VideoCodec::Mpeg4 => "MPEG-4 Part 2 (Xvid/DivX)".to_owned(),
            VideoCodec::Msmpeg4 => "Microsoft MPEG-4".to_owned(),
            VideoCodec::H263 => "H.263".to_owned(),
            VideoCodec::H264 => "H.264".to_owned(),
            VideoCodec::H265 => "H.265 (HEVC)".to_owned(),
            VideoCodec::Av1 => "AV1".to_owned(),
            VideoCodec::Vp8 => "VP8".to_owned(),
            VideoCodec::Vp9 => "VP9".to_owned(),
            VideoCodec::Vc1 => "VC-1".to_owned(),
            VideoCodec::Wmv1 => "WMV 1".to_owned(),
            VideoCodec::Wmv2 => "WMV 2".to_owned(),
            VideoCodec::Wmv3 => "WMV 3".to_owned(),
            VideoCodec::Theora => "Theora".to_owned(),
            VideoCodec::Flv1 => "Sorenson Spark (FLV1)".to_owned(),
            VideoCodec::Unknown(name) => wrapped("unknown video codec (", name, ")"),
        }
    }
}

impl Clone for VideoCodec {
    fn clone(&self) -> (r: Self)
        ensures
            r == *self,
    {
        match self {
            VideoCodec::Mpeg1 => VideoCodec::Mpeg1,
            VideoCodec::Mpeg2 => VideoCodec::Mpeg2,
            VideoCodec::Mpeg4 => VideoCodec::Mpeg4,
            VideoCodec::Msmpeg4 => VideoCodec::Msmpeg4,
            VideoCodec::H263 => VideoCodec::H263,
            VideoCodec::H264 => VideoCodec::H264,
            VideoCodec::H265 => VideoCodec::H265,
            VideoCodec::Av1 => VideoCodec::Av1,
            VideoCodec::Vp8 => VideoCodec::Vp8,
            VideoCodec::Vp9 => VideoCodec::Vp9,
            VideoCodec::Vc1 => VideoCodec::Vc1,
            VideoCodec::Wmv1 => VideoCodec::Wmv1,
            VideoCodec::Wmv2 => VideoCodec::Wmv2,
            VideoCodec::Wmv3 => VideoCodec::Wmv3,
            VideoCodec::Theora => VideoCodec::Theora,
            VideoCodec::Flv1 => VideoCodec::Flv1,
            VideoCodec::Unknown(name) => VideoCodec::Unknown(name.clone()),
        }
    }
}

impl PartialEq for VideoCodec {
    fn eq(&self, other: &Self) -> (r: bool) {
        match (self, other) {
            (VideoCodec::Mpeg1, VideoCodec::Mpeg1) => true,
            (VideoCodec::Mpeg2, VideoCodec::Mpeg2) => true,
            (VideoCodec::Mpeg4, VideoCodec::Mpeg4) => true,
            (VideoCodec::Msmpeg4, VideoCodec::Msmpeg4) => true,
            (VideoCodec::H263, VideoCodec::H263) => true,
            (VideoCodec::H264, VideoCodec::H264) => true,
            (VideoCodec::H265, VideoCodec::H265) => true,
            (VideoCodec::Av1, VideoCodec::Av1) => true,
            (VideoCodec::Vp8, VideoCodec::Vp8) => true,
            (VideoCodec::Vp9, VideoCodec::Vp9) => true,
            (VideoCodec::Vc1, VideoCodec::Vc1) => true,
            (VideoCodec::Wmv1, VideoCodec::Wmv1) => true,
            (VideoCodec::Wmv2, VideoCodec::Wmv2) => true,
            (VideoCodec::Wmv3, VideoCodec::Wmv3) => true,
            (VideoCodec::Theora, VideoCodec::Theora) => true,
            (VideoCodec::Flv1, VideoCodec::Flv1) => true,
            (VideoCodec::Unknown(a), VideoCodec::Unknown(b)) => *a == *b,
            _ => false,
        }
    }
}

impl vstd::std_specs::cmp::PartialEqSpecImpl for VideoCodec {
    open spec fn obeys_eq_spec() -> bool {
        true
    }

    open spec fn eq_spec(&self, other: &Self) -> bool {
        self.same(*other)
    }
}
/// A name stands for one video codec.
pub proof fn law_name_decides_video_codec(a: VideoCodec, b: VideoCodec, name: Seq<char>)
    requires
        a.is_named(name),
        b.is_named(name),
    ensures
        a.same(b),
{
    reveal_strlit("mpeg1video");
    assert("mpeg1video"@.len() == 10 && "mpeg1video"@[1] == 'p' && "mpeg1video"@[2] == 'e'
            && "mpeg1video"@[3] == 'g' && "mpeg1video"@[4] == '1' && "mpeg1video"@[8] == 'e');
    reveal_strlit("mpeg2video");
    assert("mpeg2video"@.len() == 10 && "mpeg2video"@[1] == 'p' && "mpeg2video"@[2] == 'e'
            && "mpeg2video"@[3] == 'g' && "mpeg2video"@[4] == '2' && "mpeg2video"@[8] == 'e');
    reveal_strlit("mpeg4");
    assert("mpeg4"@.len() == 5 && "mpeg4"@[1] == 'p' && "mpeg4"@[2] == 'e' && "mpeg4"@[3] == 'g'
            && "mpeg4"@[4] == '4');
    reveal_strlit("msmpeg4v1");
    assert("msmpeg4v1"@.len() == 9 && "msmpeg4v1"@[1] == 's' && "msmpeg4v1"@[2] == 'm'
            && "msmpeg4v1"@[3] == 'p' && "msmpeg4v1"@[4] == 'e' && "msmpeg4v1"@[8] == '1');
    reveal_strlit("msmpeg4v2");
    assert("msmpeg4v2"@.len() == 9 && "msmpeg4v2"@[1] == 's' && "msmpeg4v2"@[2] == 'm'
            && "msmpeg4v2"@[3] == 'p' && "msmpeg4v2"@[4] == 'e' && "msmpeg4v2"@[8] == '2');
    reveal_strlit("msmpeg4v3");
    assert("msmpeg4v3"@.len() == 9 && "msmpeg4v3"@[1] == 's' && "msmpeg4v3"@[2] == 'm'
            && "msmpeg4v3"@[3] == 'p' && "msmpeg4v3"@[4] == 'e' && "msmpeg4v3"@[8] == '3');
    reveal_strlit("msmpeg4");
    assert("msmpeg4"@.len() == 7 && "msmpeg4"@[1] == 's' && "msmpeg4"@[2] == 'm'
            && "msmpeg4"@[3] == 'p' && "msmpeg4"@[4] == 'e');
    reveal_strlit("h263");
    assert("h263"@.len() == 4 && "h263"@[1] == '2' && "h263"@[2] == '6' && "h263"@[3] == '3');
    reveal_strlit("h264");
    assert("h264"@.len() == 4 && "h264"@[1] == '2' && "h264"@[2] == '6' && "h264"@[3] == '4');
    reveal_strlit("hevc");
    assert("hevc"@.len() == 4 && "hevc"@[1] == 'e' && "hevc"@[2] == 'v' && "hevc"@[3] == 'c');
    reveal_strlit("h265");
    assert("h265"@.len() == 4 && "h265"@[1] == '2' && "h265"@[2] == '6' && "h265"@[3] == '5');
    reveal_strlit("av1");
    assert("av1"@.len() == 3 && "av1"@[1] == 'v' && "av1"@[2] == '1');
    reveal_strlit("vp8");
    assert("vp8"@.len() == 3 && "vp8"@[1] == 'p' && "vp8"@[2] == '8');
    reveal_strlit("vp9");
    assert("vp9"@.len() == 3 && "vp9"@[1] == 'p' && "vp9"@[2] == '9');
    reveal_strlit("vc1");
    assert("vc1"@.len() == 3 && "vc1"@[1] == 'c' && "vc1"@[2] == '1');
    reveal_strlit("wmv1");
    assert("wmv1"@.len() == 4 && "wmv1"@[1] == 'm' && "wmv1"@[2] == 'v' && "wmv1"@[3] == '1');
    reveal_strlit("wmv2");
    assert("wmv2"@.len() == 4 && "wmv2"@[1] == 'm' && "wmv2"@[2] == 'v' && "wmv2"@[3] == '2');
    reveal_strlit("wmv3");
    assert("wmv3"@.len() == 4 && "wmv3"@[1] == 'm' && "wmv3"@[2] == 'v' && "wmv3"@[3] == '3');
    reveal_strlit("theora");
    assert("theora"@.len() == 6 && "theora"@[1] == 'h' && "theora"@[2] == 'e'
            && "theora"@[3] == 'o' && "theora"@[4] == 'r');
    reveal_strlit("flv1");
    assert("flv1"@.len() == 4 && "flv1"@[1] == 'l' && "flv1"@[2] == 'v' && "flv1"@[3] == '1');
}

// ---------------------------------------------------------------------------
// Audio codec
// ---------------------------------------------------------------------------

/// Audio codec of a stream.
#[derive(Debug, Eq)]
pub enum AudioCodec {
    Aac,
    Ac3,
    Eac3,
    Dts,
    Mp2,
    Mp3,
    Opus,
    Flac,
    Vorbis,
    Alac,
    /// Covers all `pcm_*` variants; the exact name is preserved.
    Pcm(String),
    /// Covers `wmav1`, `wmav2`, `wmapro`, `wmavoice`, `wmalossless`.
    Wma(String),
    Unknown(String),
}

impl AudioCodec {
    /// Whether `name` has a variant of its own.
    pub open spec fn is_listed(name: Seq<char>) -> bool {
        ||| name == "aac"@
        ||| name == "ac3"@
        ||| name == "eac3"@
        ||| name == "dts"@
        ||| name == "mp2"@
        ||| name == "mp3"@
        ||| name == "mp3float"@
        ||| name == "opus"@
        ||| name == "flac"@
        ||| name == "vorbis"@
        ||| name == "alac"@
    }

    /// Whether this is what ffprobe calls `name`.
    pub open spec fn is_named(self, name: Seq<char>) -> bool {
        match self {
            AudioCodec::Aac => name == "aac"@,
            AudioCodec::Ac3 => name == "ac3"@,
            AudioCodec::Eac3 => name == "eac3"@,
            AudioCodec::Dts => name == "dts"@,
            AudioCodec::Mp2 => name == "mp2"@,
            AudioCodec::Mp3 => name == "mp3"@ || name == "mp3float"@,
            AudioCodec::Opus => name == "opus"@,
            AudioCodec::Flac => name == "flac"@,
            AudioCodec::Vorbis => name == "vorbis"@,
            AudioCodec::Alac => name == "alac"@,
            AudioCodec::Pcm(kept) => {
                kept@ == name && !Self::is_listed(name) && text::starts_with(name, "pcm_"@)
            },
            AudioCodec::Wma(kept) => {
                kept@ == name && !Self::is_listed(name) && !text::starts_with(name, "pcm_"@)
                    && text::starts_with(name, "wma"@)
            },
            AudioCodec::Unknown(kept) => {
                kept@ == name && !Self::is_listed(name) && !text::starts_with(name, "pcm_"@)
                    && !text::starts_with(name, "wma"@)
            },
        }
    }

    /// The codec's name for people.
    pub open spec fn label(self) -> Seq<char> {
        match self {
            AudioCodec::Aac => "AAC"@,
            AudioCodec::Ac3 => "AC-3"@,
            AudioCodec::Eac3 => "E-AC-3"@,
            AudioCodec::Dts => "DTS"@,
            AudioCodec::Mp2 => "MP2"@,
            AudioCodec::Mp3 => "MP3"@,
            AudioCodec::Opus => "Opus"@,
            AudioCodec::Flac => "FLAC"@,
            AudioCodec::Vorbis => "Vorbis"@,
            AudioCodec::Alac => "ALAC"@,
            AudioCodec::Pcm(name) => "PCM ("@ + name@ + ")"@,
            AudioCodec::Wma(name) => "WMA ("@ + name@ + ")"@,
            AudioCodec::Unknown(name) => "unknown audio codec ("@ + name@ + ")"@,
        }
    }

    /// Whether two values are the same, kept names by their characters.
    pub open spec fn same(self, other: AudioCodec) -> bool {
        match (self, other) {
            (AudioCodec::Pcm(a), AudioCodec::Pcm(b)) => a@ == b@,
            (AudioCodec::Wma(a), AudioCodec::Wma(b)) => a@ == b@,
            (AudioCodec::Unknown(a), AudioCodec::Unknown(b)) => a@ == b@,
            _ => self == other,
        }
    }

    /// The codec that ffprobe's `codec_name` stands for.
    pub fn from_ffprobe_name(codec_name: &str) -> (r: Self)
        ensures
            r.is_named(codec_name@),
    {
        if text::str_eq(codec_name, "aac") {
            AudioCodec::Aac
        } else if text::str_eq(codec_name, "ac3") {
            AudioCodec::Ac3
        } else if text::str_eq(codec_name, "eac3") {
            AudioCodec::Eac3
        } else if text::str_eq(codec_name, "dts") {
            AudioCodec::Dts
        } else if text::str_eq(codec_name, "mp2") {
            AudioCodec::Mp2
        } else if text::str_eq(codec_name, "mp3") || text::str_eq(codec_name, "mp3float") {
            AudioCodec::Mp3
        } else if text::str_eq(codec_name, "opus") {
            AudioCodec::Opus
        } else if text::str_eq(codec_name, "flac") {
            AudioCodec::Flac
        } else if text::str_eq(codec_name, "vorbis") {
            AudioCodec::Vorbis
        } else if text::str_eq(codec_name, "alac") {
            AudioCodec::Alac
        } else if text::has_prefix(codec_name, "pcm_") {
            AudioCodec::Pcm(codec_name.to_owned())
        } else if text::has_prefix(codec_name, "wma") {
            AudioCodec::Wma(codec_name.to_owned())
        } else {
            AudioCodec::Unknown(codec_name.to_owned())
        }
    }

    /// The codec's name for people.
    pub fn to_string(&self) -> (r: String)
        ensures
            r@ == self.label(),
    {
        match self {
            AudioCodec::Aac => "AAC".to_owned(),
            AudioCodec::Ac3 => "AC-3".to_owned(),
            AudioCodec::Eac3 => "E-AC-3".to_owned(),
            AudioCodec::Dts => "DTS".to_owned(),
            AudioCodec::Mp2 => "MP2".to_owned(),
            AudioCodec::Mp3 => "MP3".to_owned(),
            AudioCodec::Opus => "Opus".to_owned(),
            AudioCodec::Flac => "FLAC".to_owned(),
            AudioCodec::Vorbis => "Vorbis".to_owned(),
            AudioCodec::Alac => "ALAC".to_owned(),
            AudioCodec::Pcm(name) => wrapped("PCM (", name, ")"),
            AudioCodec::Wma(name) => wrapped("WMA (", name, ")"),
            AudioCodec::Unknown(name) => wrapped("unknown audio codec (", name, ")"),
        }
    }
}

impl Clone for AudioCodec {
    fn clone(&self) -> (r: Self)
        ensures
            r == *self,
    {
        match self {
            AudioCodec::Aac => AudioCodec::Aac,
            AudioCodec::Ac3 => AudioCodec::Ac3,
            AudioCodec::Eac3 => AudioCodec::Eac3,
            AudioCodec::Dts => AudioCodec::Dts,
            AudioCodec::Mp2 => AudioCodec::Mp2,
            AudioCodec::Mp3 => AudioCodec::Mp3,
            AudioCodec::Opus => AudioCodec::Opus,
            AudioCodec::Flac => AudioCodec::Flac,
            AudioCodec::Vorbis => AudioCodec::Vorbis,
            AudioCodec::Alac => AudioCodec::Alac,
            AudioCodec::Pcm(name) => AudioCodec::Pcm(name.clone()),
            AudioCodec::Wma(name) => AudioCodec::Wma(name.clone()),
            AudioCodec::Unknown(name) => AudioCodec::Unknown(name.clone()),
        }
    }
}

impl PartialEq for AudioCodec {
    fn eq(&self, other: &Self) -> (r: bool) {
        match (self, other) {
            (AudioCodec::Aac, AudioCodec::Aac) => true,
            (AudioCodec::Ac3, AudioCodec::Ac3) => true,
            (AudioCodec::Eac3, AudioCodec::Eac3) => true,
            (AudioCodec::Dts, AudioCodec::Dts) => true,
            (AudioCodec::Mp2, AudioCodec::Mp2) => true,
            (AudioCodec::Mp3, AudioCodec::Mp3) => true,
            (AudioCodec::Opus, AudioCodec::Opus) => true,
            (AudioCodec::Flac, AudioCodec::Flac) => true,
            (AudioCodec::Vorbis, AudioCodec::Vorbis) => true,
            (AudioCodec::Alac, AudioCodec::Alac) => true,
            (AudioCodec::Pcm(a), AudioCodec::Pcm(b)) => *a == *b,
            (AudioCodec::Wma(a), AudioCodec::Wma(b)) => *a == *b,
            (AudioCodec::Unknown(a), AudioCodec::Unknown(b)) => *a == *b,
            _ => false,
        }
    }
}

impl vstd::std_specs::cmp::PartialEqSpecImpl for AudioCodec {
    open spec fn obeys_eq_spec() -> bool {
        true
    }

    open spec fn eq_spec(&self, other: &Self) -> bool {
        self.same(*other)
    }
}
/// A name stands for one audio codec.
pub proof fn law_name_decides_audio_codec(a: AudioCodec, b: AudioCodec, name: Seq<char>)
    requires
        a.is_named(name),
        b.is_named(name),
    ensures
        a.same(b),
{
    reveal_strlit("aac");
    assert("aac"@.len() == 3 && "aac"@[0] == 'a' && "aac"@[2] == 'c');
    reveal_strlit("ac3");
    assert("ac3"@.len() == 3 && "ac3"@[0] == 'a' && "ac3"@[2] == '3');
    reveal_strlit("eac3");
    assert("eac3"@.len() == 4 && "eac3"@[0] == 'e' && "eac3"@[2] == 'c');
    reveal_strlit("dts");
    assert("dts"@.len() == 3 && "dts"@[0] == 'd' && "dts"@[2] == 's');
    reveal_strlit("mp2");
    assert("mp2"@.len() == 3 && "mp2"@[0] == 'm' && "mp2"@[2] == '2');
    reveal_strlit("mp3");
    assert("mp3"@.len() == 3 && "mp3"@[0] == 'm' && "mp3"@[2] == '3');
    reveal_strlit("mp3float");
    assert("mp3float"@.len() == 8 && "mp3float"@[0] == 'm' && "mp3float"@[2] == '3');
    reveal_strlit("opus");
    assert("opus"@.len() == 4 && "opus"@[0] == 'o' && "opus"@[2] == 'u');
    reveal_strlit("flac");
    assert("flac"@.len() == 4 && "flac"@[0] == 'f' && "flac"@[2] == 'a');
    reveal_strlit("vorbis");
    assert("vorbis"@.len() == 6 && "vorbis"@[0] == 'v' && "vorbis"@[2] == 'r');
    reveal_strlit("alac");
    assert("alac"@.len() == 4 && "alac"@[0] == 'a' && "alac"@[2] == 'a');
}

// ---------------------------------------------------------------------------
// Pixel format
// ---------------------------------------------------------------------------

/// Pixel format of a video stream.
#[derive(Debug, Eq)]
pub enum PixFmt {
    Yuv420p,
    Yuv420p10le,
    Yuv420p12le,
    Yuv422p,
    Yuv422p10le,
    Yuv444p,
    Yuv444p10le,
    /// Full-range JPEG-style.
    Yuvj420p,
    Yuvj422p,
    Yuvj444p,
    Other(String),
}

impl PixFmt {
    /// Whether `name` has a variant of its own.
    pub open spec fn is_listed(name: Seq<char>) -> bool {
        ||| name == "yuv420p"@
        ||| name == "yuv420p10le"@
        ||| name == "yuv420p12le"@
        ||| name == "yuv422p"@
        ||| name == "yuv422p10le"@
        ||| name == "yuv444p"@
        ||| name == "yuv444p10le"@
        ||| name == "yuvj420p"@
        ||| name == "yuvj422p"@
        ||| name == "yuvj444p"@
    }

    /// Whether this is what ffprobe calls `name`.
    pub open spec fn is_named(self, name: Seq<char>) -> bool {
        match self {
            PixFmt::Yuv420p => name == "yuv420p"@,
            PixFmt::Yuv420p10le => name == "yuv420p10le"@,
            PixFmt::Yuv420p12le => name == "yuv420p12le"@,
            PixFmt::Yuv422p => name == "yuv422p"@,
            PixFmt::Yuv422p10le => name == "yuv422p10le"@,
            PixFmt::Yuv444p => name == "yuv444p"@,
            PixFmt::Yuv444p10le => name == "yuv444p10le"@,
            PixFmt::Yuvj420p => name == "yuvj420p"@,
            PixFmt::Yuvj422p => name == "yuvj422p"@,
            PixFmt::Yuvj444p => name == "yuvj444p"@,
            PixFmt::Other(kept) => kept@ == name && !Self::is_listed(name),
        }
    }

    /// The format's name, as ffprobe writes it.
    pub open spec fn label(self) -> Seq<char> {
        match self {
            PixFmt::Yuv420p => "yuv420p"@,
            PixFmt::Yuv420p10le => "yuv420p10le"@,
            PixFmt::Yuv420p12le => "yuv420p12le"@,
            PixFmt::Yuv422p => "yuv422p"@,
            PixFmt::Yuv422p10le => "yuv422p10le"@,
            PixFmt::Yuv444p => "yuv444p"@,
            PixFmt::Yuv444p10le => "yuv444p10le"@,
            PixFmt::Yuvj420p => "yuvj420p"@,
            PixFmt::Yuvj422p => "yuvj422p"@,
            PixFmt::Yuvj444p => "yuvj444p"@,
            PixFmt::Other(name) => name@,
        }
    }

    /// Whether two values are the same, kept names by their characters.
    pub open spec fn same(self, other: PixFmt) -> bool {
        match (self, other) {
            (PixFmt::Other(a), PixFmt::Other(b)) => a@ == b@,
            _ => self == other,
        }
    }

    /// Whether this is a pixel format for broadly compatible distribution.
    pub open spec fn modern(self) -> bool {
        self is Yuv420p || self is Yuv420p10le
    }

    /// The pixel format that ffprobe calls `name`.
    pub fn from_ffprobe_name(name: &str) -> (r: Self)
        ensures
            r.is_named(name@),
    {
        if text::str_eq(name, "yuv420p") {
            PixFmt::Yuv420p
        } else if text::str_eq(name, "yuv420p10le") {
            PixFmt::Yuv420p10le
        } else if text::str_eq(name, "yuv420p12le") {
            PixFmt::Yuv420p12le
        } else if text::str_eq(name, "yuv422p") {
            PixFmt::Yuv422p
        } else if text::str_eq(name, "yuv422p10le") {
            PixFmt::Yuv422p10le
        } else if text::str_eq(name, "yuv444p") {
            PixFmt::Yuv444p
        } else if text::str_eq(name, "yuv444p10le") {
            PixFmt::Yuv444p10le
        } else if text::str_eq(name, "yuvj420p") {
            PixFmt::Yuvj420p
        } else if text::str_eq(name, "yuvj422p") {
            PixFmt::Yuvj422p
        } else if text::str_eq(name, "yuvj444p") {
            PixFmt::Yuvj444p
        } else {
            PixFmt::Other(name.to_owned())
        }
    }

    /// Is this a "modern, broadly compatible" pixel format for
    /// H.264/H.265/AV1 distribution?
    pub fn is_modern(&self) -> (r: bool)
        ensures
            r == self.modern(),
    {
        matches!(self, PixFmt::Yuv420p | PixFmt::Yuv420p10le)
    }

    /// The format's name, as ffprobe writes it.
    pub fn to_string(&self) -> (r: String)
        ensures
            r@ == self.label(),
    {
        match self {
            PixFmt::Yuv420p => "yuv420p".to_owned(),
            PixFmt::Yuv420p10le => "yuv420p10le".to_owned(),
            PixFmt::Yuv420p12le => "yuv420p12le".to_owned(),
            PixFmt::Yuv422p => "yuv422p".to_owned(),
            PixFmt::Yuv422p10le => "yuv422p10le".to_owned(),
            PixFmt::Yuv444p => "yuv444p".to_owned(),
            PixFmt::Yuv444p10le => "yuv444p10le".to_owned(),
            PixFmt::Yuvj420p => "yuvj420p".to_owned(),
            PixFmt::Yuvj422p => "yuvj422p".to_owned(),
            PixFmt::Yuvj444p => "yuvj444p".to_owned(),
            PixFmt::Other(name) => name.clone(),
        }
    }
}

impl Clone for PixFmt {
    fn clone(&self) -> (r: Self)
        ensures
            r == *self,
    {
        match self {
            PixFmt::Yuv420p => PixFmt::Yuv420p,
            PixFmt::Yuv420p10le => PixFmt::Yuv420p10le,
            PixFmt::Yuv420p12le => PixFmt::Yuv420p12le,
            PixFmt::Yuv422p => PixFmt::Yuv422p,
            PixFmt::Yuv422p10le => PixFmt::Yuv422p10le,
            PixFmt::Yuv444p => PixFmt::Yuv444p,
            PixFmt::Yuv444p10le => PixFmt::Yuv444p10le,
            PixFmt::Yuvj420p => PixFmt::Yuvj420p,
            PixFmt::Yuvj422p => PixFmt::Yuvj422p,
            PixFmt::Yuvj444p => PixFmt::Yuvj444p,
            PixFmt::Other(name) => PixFmt::Other(name.clone()),
        }
    }
}

impl PartialEq for PixFmt {
    fn eq(&self, other: &Self) -> (r: bool) {
        match (self, other) {
            (PixFmt::Yuv420p, PixFmt::Yuv420p) => true,
            (PixFmt::Yuv420p10le, PixFmt::Yuv420p10le) => true,
            (PixFmt::Yuv420p12le, PixFmt::Yuv420p12le) => true,
            (PixFmt::Yuv422p, PixFmt::Yuv422p) => true,
            (PixFmt::Yuv422p10le, PixFmt::Yuv422p10le) => true,
            (PixFmt::Yuv444p, PixFmt::Yuv444p) => true,
            (PixFmt::Yuv444p10le, PixFmt::Yuv444p10le) => true,
            (PixFmt::Yuvj420p, PixFmt::Yuvj420p) => true,
            (PixFmt::Yuvj422p, PixFmt::Yuvj422p) => true,
            (PixFmt::Yuvj444p, PixFmt::Yuvj444p) => true,
            (PixFmt::Other(a), PixFmt::Other(b)) => *a == *b,
            _ => false,
        }
    }
}

impl vstd::std_specs::cmp::PartialEqSpecImpl for PixFmt {
    open spec fn obeys_eq_spec() -> bool {
        true
    }

    open spec fn eq_spec(&self, other: &Self) -> bool {
        self.same(*other)
    }
}
/// A pixel format is shown under the name that it was read from.
pub proof fn law_pix_fmt_keeps_its_name(format: PixFmt, name: Seq<char>)
    requires
        format.is_named(name),
    ensures
        format.label() == name,
{
}

/// A name stands for one pixel format.
pub proof fn law_name_decides_pix_fmt(a: PixFmt, b: PixFmt, name: Seq<char>)
    requires
        a.is_named(name),
        b.is_named(name),
    ensures
        a.same(b),
{
    reveal_strlit("yuv420p");
    assert("yuv420p"@.len() == 7 && "yuv420p"@[5] == '0' && "yuv420p"@[6] == 'p');
    reveal_strlit("yuv420p10le");
    assert("yuv420p10le"@.len() == 11 && "yuv420p10le"@[5] == '0' && "yuv420p10le"@[6] == 'p'
            && "yuv420p10le"@[8] == '0');
    reveal_strlit("yuv420p12le");
    assert("yuv420p12le"@.len() == 11 && "yuv420p12le"@[5] == '0' && "yuv420p12le"@[6] == 'p'
            && "yuv420p12le"@[8] == '2');
    reveal_strlit("yuv422p");
    assert("yuv422p"@.len() == 7 && "yuv422p"@[5] == '2' && "yuv422p"@[6] == 'p');
    reveal_strlit("yuv422p10le");
    assert("yuv422p10le"@.len() == 11 && "yuv422p10le"@[5] == '2' && "yuv422p10le"@[6] == 'p'
            && "yuv422p10le"@[8] == '0');
    reveal_strlit("yuv444p");
    assert("yuv444p"@.len() == 7 && "yuv444p"@[5] == '4' && "yuv444p"@[6] == 'p');
    reveal_strlit("yuv444p10le");
    assert("yuv444p10le"@.len() == 11 && "yuv444p10le"@[5] == '4' && "yuv444p10le"@[6] == 'p'
            && "yuv444p10le"@[8] == '0');
    reveal_strlit("yuvj420p");
    assert("yuvj420p"@.len() == 8 && "yuvj420p"@[5] == '2' && "yuvj420p"@[6] == '0');
    reveal_strlit("yuvj422p");
    assert("yuvj422p"@.len() == 8 && "yuvj422p"@[5] == '2' && "yuvj422p"@[6] == '2');
    reveal_strlit("yuvj444p");
    assert("yuvj444p"@.len() == 8 && "yuvj444p"@[5] == '4' && "yuvj444p"@[6] == '4');
}

// ---------------------------------------------------------------------------
// Field order
// ---------------------------------------------------------------------------

/// Field order of a video stream.
#[derive(Debug, Clone, Copy, PartialEq, Eq, Structural)]
pub enum FieldOrder {
    Progressive,
    InterlacedTopFirst,
    InterlacedBottomFirst,
    /// ffprobe didn't report it; treat as "probably progressive" downstream.
    Unknown,
}

impl FieldOrder {
    /// The field order that ffprobe's `field_order` stands for.
    pub open spec fn named(name: Seq<char>) -> FieldOrder {
        if name == "progressive"@ {
            FieldOrder::Progressive
        } else if name == "tt"@ || name == "tb"@ {
            FieldOrder::InterlacedTopFirst
        } else if name == "bb"@ || name == "bt"@ {
            FieldOrder::InterlacedBottomFirst
        } else {
            FieldOrder::Unknown
        }
    }

    /// Whether fields alternate between frames.
    pub open spec fn interlaced(self) -> bool {
        self is InterlacedTopFirst || self is InterlacedBottomFirst
    }

    /// The field order's name for people.
    pub open spec fn label(self) -> Seq<char> {
        match self {
            FieldOrder::Progressive => "progressive"@,
            FieldOrder::InterlacedTopFirst => "interlaced (TFF)"@,
            FieldOrder::InterlacedBottomFirst => "interlaced (BFF)"@,
            FieldOrder::Unknown => "unknown field order"@,
        }
    }

    /// Parse ffprobe's `field_order` string.
    pub fn from_ffprobe_name(s: &str) -> (r: Self)
        ensures
            r == Self::named(s@),
    {
        if text::str_eq(s, "progressive") {
            FieldOrder::Progressive
        } else if text::str_eq(s, "tt") || text::str_eq(s, "tb") {
            FieldOrder::InterlacedTopFirst
        } else if text::str_eq(s, "bb") || text::str_eq(s, "bt") {
            FieldOrder::InterlacedBottomFirst
        } else {
            FieldOrder::Unknown
        }
    }

    /// Whether fields alternate between frames.
    pub fn is_interlaced(self) -> (r: bool)
        ensures
            r == self.interlaced(),
    {
        matches!(self, FieldOrder::InterlacedTopFirst | FieldOrder::InterlacedBottomFirst)
    }

    /// The field order's name for people.
    pub fn to_string(&self) -> (r: String)
        ensures
            r@ == self.label(),
    {
        match self {
            FieldOrder::Progressive => "progressive".to_owned(),
            FieldOrder::InterlacedTopFirst => "interlaced (TFF)".to_owned(),
            FieldOrder::InterlacedBottomFirst => "interlaced (BFF)".to_owned(),
            FieldOrder::Unknown => "unknown field order".to_owned(),
        }
    }
}

// ---------------------------------------------------------------------------
// Rationals (frame rate, SAR)
// ---------------------------------------------------------------------------

/// A rational number as reported by ffprobe (`"30000/1001"`, `"1:1"`).
///
/// Zero denominators and non-numeric inputs parse to `None`.
#[derive(Debug, Clone, Copy, PartialEq, Eq, Structural)]
pub struct Rational {
    pub num: u32,
    pub den: u32,
}

impl Rational {
    /// The rational `num / den`, unless `den` is zero.
    pub open spec fn checked(num: u32, den: u32) -> Option<Rational> {
        if den == 0 {
            None
        } else {
            Some(Rational { num, den })
        }
    }

    /// Where the two numbers of `s` part: at its first `/`, or, without one,
    /// at its first `:`.
    pub open spec fn separator(s: Seq<char>) -> int {
        if text::first_index(s, '/') < s.len() {
            text::first_index(s, '/')
        } else {
            text::first_index(s, ':')
        }
    }

    /// The rational that `s` writes as `"n/d"` or `"n:d"`.
    pub open spec fn parsed(s: Seq<char>) -> Option<Rational> {
        let at = Self::separator(s);
        if at >= s.len() {
            None
        } else {
            match (
                text::parse_unsigned(text::trim(s.take(at)), u32::MAX as nat),
                text::parse_unsigned(text::trim(s.skip(at + 1)), u32::MAX as nat),
            ) {
                (Some(num), Some(den)) => Self::checked(num as u32, den as u32),
                _ => None,
            }
        }
    }

    /// The rational `num / den`, unless `den` is zero.
    pub fn new(num: u32, den: u32) -> (r: Option<Self>)
        ensures
            r == Self::checked(num, den),
    {
        if den == 0 {
            None
        } else {
            Some(Rational { num, den })
        }
    }

    /// Parse `"n/d"` or `"n:d"`.
    pub fn parse(s: &str) -> (r: Option<Self>)
        ensures
            r == Self::parsed(s@),
    {
        let v = text::chars_of(s);
        let slash = text::find_first(&v, '/');
        let at = if slash < v.len() {
            slash
        } else {
            text::find_first(&v, ':')
        };
        if at >= v.len() {
            return None;
        }
        let n = s.substring_char(0, at);
        let d = s.substring_char(at + 1, v.len());
        assert(n@ =~= s@.take(at as int));
        assert(d@ =~= s@.skip(at + 1));
        let num = text::parse_u32(text::trimmed(n));
        let den = text::parse_u32(text::trimmed(d));
        match (num, den) {
            (Some(num), Some(den)) => Self::new(num, den),
            _ => None,
        }
    }

    /// The quotient: a whole number when it is one to within a millionth,
    /// else with three decimal places.
    pub fn to_string(&self) -> (r: String)
        ensures
            r@ == binary64::ratio_text(self.num, self.den),
    {
        let mut out = String::new();
        binary64::push_ratio(&mut out, self.num, self.den);
        assert(out@ =~= binary64::ratio_text(self.num, self.den));
        out
    }
}

/// Digits before a separator are read as the number that they write.
proof fn lemma_number_before(n: u32, c: char, rest: Seq<char>)
    requires
        c == '/' || c == ':',
    ensures
        text::first_index(text::decimal(n as nat).push(c) + rest, c) == text::decimal(
            n as nat,
        ).len(),
{
    text::law_decimal_reads_back(n as nat);
    let digits = text::decimal(n as nat);
    assert(digits.push(c) + rest =~= digits + (seq![c] + rest));
    lemma_first_index_behind(digits, seq![c] + rest, c);
}

/// The first `c` of a text that starts with digits is the first behind them.
proof fn lemma_first_index_behind(digits: Seq<char>, rest: Seq<char>, c: char)
    requires
        text::all_digits(digits),
        !text::is_digit(c),
    ensures
        text::first_index(digits + rest, c) == digits.len() + text::first_index(rest, c),
    decreases digits.len(),
{
    if digits.len() == 0 {
        assert(digits + rest =~= rest);
    } else {
        let s = digits + rest;
        assert(text::is_digit(digits[0]));
        assert(s[0] == digits[0]);
        assert(s.drop_first() =~= digits.drop_first() + rest);
        assert forall|i: int| 0 <= i < digits.drop_first().len() implies text::is_digit(
            #[trigger] digits.drop_first()[i],
        ) by {
            assert(text::is_digit(digits[i + 1]));
        }
        lemma_first_index_behind(digits.drop_first(), rest, c);
    }
}

/// Digits alone hold no separator.
proof fn lemma_no_index(digits: Seq<char>, c: char)
    requires
        text::all_digits(digits),
        !text::is_digit(c),
    ensures
        text::first_index(digits, c) == digits.len(),
{
    lemma_first_index_behind(digits, Seq::empty(), c);
    assert(digits + Seq::<char>::empty() =~= digits);
}

/// A decimal number is read as itself.
proof fn lemma_decimal_is_read(n: u32)
    ensures
        text::parse_unsigned(text::trim(text::decimal(n as nat)), u32::MAX as nat) == Some(
            n as nat,
        ),
{
    let s = text::decimal(n as nat);
    text::law_decimal_reads_back(n as nat);
    assert(text::is_digit(s[0]) && text::is_digit(s[s.len() - 1]));
    assert(text::trim(s) == s);
}

/// A rational is read back from its two numbers with a `/` or a `:` between
/// them, unless the second one is zero.
pub proof fn law_rational_reads_back(num: u32, den: u32, separator: char)
    requires
        separator == '/' || separator == ':',
    ensures
        Rational::parsed(
            text::decimal(num as nat).push(separator) + text::decimal(den as nat),
        ) == Rational::checked(num, den),
{
    let n = text::decimal(num as nat);
    let d = text::decimal(den as nat);
    let s = n.push(separator) + d;
    text::law_decimal_reads_back(num as nat);
    text::law_decimal_reads_back(den as nat);
    lemma_number_before(num, separator, d);
    if separator == ':' {
        assert(s =~= n + (seq![':'] + d));
        lemma_first_index_behind(n, seq![':'] + d, '/');
        assert((seq![':'] + d).drop_first() =~= d);
        lemma_no_index(d, '/');
    }
    assert(s.take(n.len() as int) =~= n);
    assert(s.skip(n.len() + 1int) =~= d);
    lemma_decimal_is_read(num);
    lemma_decimal_is_read(den);
}

// ---------------------------------------------------------------------------
// Stream info
// ---------------------------------------------------------------------------

/// What is known of a video stream.
#[derive(Debug, Clone)]
pub struct VideoInfo {
    pub codec: VideoCodec,
    pub width: u32,
    pub height: u32,
    pub field_order: FieldOrder,
    pub framerate: Option<Rational>,
    pub pix_fmt: Option<PixFmt>,
    pub sar: Option<Rational>,
    pub is_hdr: bool,
}

impl VideoInfo {
    /// The width that the picture has when it is shown with square pixels.
    pub open spec fn display_width(self) -> u32 {
        match self.sar {
            Some(sar) if sar.num != sar.den => binary64::stretched(self.width, sar.num, sar.den),
            _ => self.width,
        }
    }

    /// Whether the sample aspect ratio is unknown or 1:1.
    pub open spec fn square_pixels(self) -> bool {
        self.sar is None || self.sar == Some(Rational { num: 1, den: 1 })
    }

    /// Display size derived from `width`, `height`, and SAR.
    pub fn display_size(&self) -> (r: (u32, u32))
        ensures
            r == (self.display_width(), self.height),
    {
        match self.sar {
            Some(sar) => {
                if sar.num != sar.den {
                    (binary64::stretch(self.width, sar.num, sar.den), self.height)
                } else {
                    (self.width, self.height)
                }
            },
            None => (self.width, self.height),
        }
    }

    /// Whether the sample aspect ratio is unknown or 1:1.
    pub fn has_square_pixels(&self) -> (r: bool)
        ensures
            r == self.square_pixels(),
    {
        match self.sar {
            Some(sar) => sar.num == 1 && sar.den == 1,
            None => true,
        }
    }
}

/// What is known of an audio stream.
#[derive(Debug, Clone)]
pub struct AudioInfo {
    pub codec: AudioCodec,
    pub channels: Option<u32>,
    pub channel_layout: Option<String>,
    pub sample_rate_hz: Option<u32>,
    pub bitrate_bps: Option<u64>,
    pub language: Option<String>,
}

// ---------------------------------------------------------------------------
// MediaProfile
// ---------------------------------------------------------------------------

/// A span of time in seconds: a double that is finite and not negative, as a
/// mantissa times two to the power of an exponent.
///
/// Of the ways to write a number like that, the mantissa has 53 bits, or
/// fewer with the smallest exponent.
#[derive(Debug, Clone, Copy, PartialEq, Eq, Structural)]
pub struct Seconds {
    pub mantissa: u64,
    pub exponent: i32,
}

impl Seconds {
    /// What the bits of a double stand for: 52 bits of mantissa, of which a
    /// leading one is left out unless the exponent's 11 bits are zero, and a
    /// sign.
    pub open spec fn of_bits(bits: u64) -> Option<Self> {
        let fraction = bits % 0x10_0000_0000_0000;
        let exponent = (bits / 0x10_0000_0000_0000) % 0x800;
        let negative = bits >= 0x8000_0000_0000_0000;
        if exponent == 0x7ff || (negative && (exponent != 0 || fraction != 0)) {
            None
        } else if exponent == 0 {
            Some(Seconds { mantissa: fraction, exponent: (-1074) as i32 })
        } else {
            Some(
                Seconds {
                    mantissa: (fraction + 0x10_0000_0000_0000) as u64,
                    exponent: (exponent - 1075) as i32,
                },
            )
        }
    }

    /// A span of time from the bits of a double, unless it is negative or not
    /// finite.
    pub fn from_bits(bits: u64) -> (r: Option<Self>)
        ensures
            r == Seconds::of_bits(bits),
    {
        let fraction = bits % 0x10_0000_0000_0000;
        let exponent = (bits / 0x10_0000_0000_0000) % 0x800;
        let negative = bits >= 0x8000_0000_0000_0000;
        if exponent == 0x7ff || (negative && (exponent != 0 || fraction != 0)) {
            None
        } else if exponent == 0 {
            Some(Seconds { mantissa: fraction, exponent: -1074 })
        } else {
            Some(
                Seconds {
                    mantissa: fraction + 0x10_0000_0000_0000,
                    exponent: exponent as i32 - 1075,
                },
            )
        }
    }
}

/// What a probe found out about a media file.
#[derive(Debug, Clone)]
pub struct MediaProfile {
    pub container: Container,
    pub video: VideoInfo,
    pub audio: Vec<AudioInfo>,
    pub duration_secs: Option<Seconds>,
    pub file_size_bytes: Option<u64>,
    pub bitrate_bps: Option<u64>,
}

} // verus!
