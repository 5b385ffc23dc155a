//! What a profile takes over from the report of ffprobe.

use vstd::prelude::*;

use crate::binary64;
use crate::cli;
use crate::double;
use crate::error::ErrorView;
use crate::model;
use crate::model::{
    AudioCodec, AudioInfo, Container, MediaProfile, PixFmt, Rational, VideoCodec,
    VideoInfo,
};
use crate::path;
use crate::probe;
use crate::probe::{ProbeAction, ProbeEvent, ProbeState, RawOutput, RawStream};
use crate::promises::names;
use crate::text;

verus! {

/// The video codec that each name of ffprobe's stands for.
pub proof fn law_video_codec_names(v: VideoInfo, s: RawStream)
    requires
        probe::video_says(v, s),
        s.codec_name is Some,
    ensures
        ({
            let name = s.codec_name->0@;
            names_video_codec(name, v.codec)
        }),
{
    let name = s.codec_name->0@;
    let codec = v.codec;
    if name == "mpeg1video"@ {
        model::law_name_decides_video_codec(codec, VideoCodec::Mpeg1, name);
    }
    if name == "mpeg2video"@ {
        model::law_name_decides_video_codec(codec, VideoCodec::Mpeg2, name);
    }
    if name == "mpeg4"@ {
        model::law_name_decides_video_codec(codec, VideoCodec::Mpeg4, name);
    }
    if name == "msmpeg4v1"@ || name == "msmpeg4v2"@ || name == "msmpeg4v3"@ || name == "msmpeg4"@ {
        model::law_name_decides_video_codec(codec, VideoCodec::Msmpeg4, name);
    }
    if name == "h263"@ {
        model::law_name_decides_video_codec(codec, VideoCodec::H263, name);
    }
    if name == "h264"@ {
        model::law_name_decides_video_codec(codec, VideoCodec::H264, name);
    }
    if name == "hevc"@ || name == "h265"@ {
        model::law_name_decides_video_codec(codec, VideoCodec::H265, name);
    }
    if name == "av1"@ {
        model::law_name_decides_video_codec(codec, VideoCodec::Av1, name);
    }
    if name == "vp8"@ {
        model::law_name_decides_video_codec(codec, VideoCodec::Vp8, name);
    }
    if name == "vp9"@ {
        model::law_name_decides_video_codec(codec, VideoCodec::Vp9, name);
    }
    if name == "vc1"@ {
        model::law_name_decides_video_codec(codec, VideoCodec::Vc1, name);
    }
    if name == "wmv1"@ {
        model::law_name_decides_video_codec(codec, VideoCodec::Wmv1, name);
    }
    if name == "wmv2"@ {
        model::law_name_decides_video_codec(codec, VideoCodec::Wmv2, name);
    }
    if name == "wmv3"@ {
        model::law_name_decides_video_codec(codec, VideoCodec::Wmv3, name);
    }
    if name == "theora"@ {
        model::law_name_decides_video_codec(codec, VideoCodec::Theora, name);
    }
    if name == "flv1"@ {
        model::law_name_decides_video_codec(codec, VideoCodec::Flv1, name);
    }
}

/// Which codec a name stands for.
pub open spec fn names_video_codec(name: Seq<char>, codec: VideoCodec) -> bool {
    &&& codec is Mpeg1 <==> name == "mpeg1video"@
    &&& codec is Mpeg2 <==> name == "mpeg2video"@
    &&& codec is Mpeg4 <==> name == "mpeg4"@
    &&& codec is Msmpeg4 <==> name == "msmpeg4v1"@ || name == "msmpeg4v2"@ || name == "msmpeg4v3"@ || name == "msmpeg4"@
    &&& codec is H263 <==> name == "h263"@
    &&& codec is H264 <==> name == "h264"@
    &&& codec is H265 <==> name == "hevc"@ || name == "h265"@
    &&& codec is Av1 <==> name == "av1"@
    &&& codec is Vp8 <==> name == "vp8"@
    &&& codec is Vp9 <==> name == "vp9"@
    &&& codec is Vc1 <==> name == "vc1"@
    &&& codec is Wmv1 <==> name == "wmv1"@
    &&& codec is Wmv2 <==> name == "wmv2"@
    &&& codec is Wmv3 <==> name == "wmv3"@
    &&& codec is Theora <==> name == "theora"@
    &&& codec is Flv1 <==> name == "flv1"@
    &&& codec matches VideoCodec::Unknown(kept) ==> kept@ == name
}

/// The audio codec that each name of ffprobe's stands for. All `pcm_` names
/// are PCM, and all `wma` names are Windows Media Audio; these and unknown
/// names are kept.
pub proof fn law_audio_codec_names(a: AudioInfo, s: RawStream)
    requires
        probe::audio_says(a, s),
        s.codec_name is Some,
    ensures
        ({
            let name = s.codec_name->0@;
            names_audio_codec(name, a.codec)
        }),
{
    let name = s.codec_name->0@;
    let codec = a.codec;
    lemma_audio_names();
    if name == "aac"@ {
        model::law_name_decides_audio_codec(codec, AudioCodec::Aac, name);
    }
    if name == "ac3"@ {
        model::law_name_decides_audio_codec(codec, AudioCodec::Ac3, name);
    }
    if name == "eac3"@ {
        model::law_name_decides_audio_codec(codec, AudioCodec::Eac3, name);
    }
    if name == "dts"@ {
        model::law_name_decides_audio_codec(codec, AudioCodec::Dts, name);
    }
    if name == "mp2"@ {
        model::law_name_decides_audio_codec(codec, AudioCodec::Mp2, name);
    }
    if name == "mp3"@ || name == "mp3float"@ {
        model::law_name_decides_audio_codec(codec, AudioCodec::Mp3, name);
    }
    if name == "opus"@ {
        model::law_name_decides_audio_codec(codec, AudioCodec::Opus, name);
    }
    if name == "flac"@ {
        model::law_name_decides_audio_codec(codec, AudioCodec::Flac, name);
    }
    if name == "vorbis"@ {
        model::law_name_decides_audio_codec(codec, AudioCodec::Vorbis, name);
    }
    if name == "alac"@ {
        model::law_name_decides_audio_codec(codec, AudioCodec::Alac, name);
    }
    let pcm = name.len() >= 4 && name.take(4) == "pcm_"@;
    let wma = name.len() >= 3 && name.take(3) == "wma"@;
    if pcm {
        assert(name[0] == name.take(4)[0]);
        assert(!AudioCodec::is_listed(name));
        assert(text::starts_with(name, "pcm_"@));
    }
    if wma {
        assert(name[0] == name.take(3)[0]);
        assert(!AudioCodec::is_listed(name));
        assert(text::starts_with(name, "wma"@));
    }
}

/// None of the names of single audio codecs begins as the names of PCM and
/// Windows Media Audio do.
proof fn lemma_audio_names()
    ensures
        "pcm_"@.len() == 4 && "pcm_"@[0] == 'p',
        "wma"@.len() == 3 && "wma"@[0] == 'w',
        forall|name: Seq<char>| #[trigger]
            AudioCodec::is_listed(name) ==> name.len() > 0 && name[0] != 'p' && name[0] != 'w',
{
    reveal_strlit("pcm_");
    reveal_strlit("wma");
    reveal_strlit("aac");
    reveal_strlit("ac3");
    reveal_strlit("eac3");
    reveal_strlit("dts");
    reveal_strlit("mp2");
    reveal_strlit("mp3");
    reveal_strlit("mp3float");
    reveal_strlit("opus");
    reveal_strlit("flac");
    reveal_strlit("vorbis");
    reveal_strlit("alac");
}

/// Which codec a name stands for.
pub open spec fn names_audio_codec(name: Seq<char>, codec: AudioCodec) -> bool {
    &&& codec is Aac <==> name == "aac"@
    &&& codec is Ac3 <==> name == "ac3"@
    &&& codec is Eac3 <==> name == "eac3"@
    &&& codec is Dts <==> name == "dts"@
    &&& codec is Mp2 <==> name == "mp2"@
    &&& codec is Mp3 <==> name == "mp3"@ || name == "mp3float"@
    &&& codec is Opus <==> name == "opus"@
    &&& codec is Flac <==> name == "flac"@
    &&& codec is Vorbis <==> name == "vorbis"@
    &&& codec is Alac <==> name == "alac"@
    &&& codec is Pcm <==> name.len() >= 4 && name.take(4) == "pcm_"@
    &&& codec is Wma <==> name.len() >= 3 && name.take(3) == "wma"@
    &&& codec matches AudioCodec::Pcm(kept) ==> kept@ == name
    &&& codec matches AudioCodec::Wma(kept) ==> kept@ == name
    &&& codec matches AudioCodec::Unknown(kept) ==> kept@ == name
}

/// The pixel format that each name of ffprobe's stands for. It is unknown
/// exactly where ffprobe does not give it.
pub proof fn law_pix_fmt_names(v: VideoInfo, s: RawStream)
    requires
        probe::video_says(v, s),
    ensures
        s.pix_fmt is None <==> v.pix_fmt is None,
        s.pix_fmt is Some ==> names_pix_fmt(s.pix_fmt->0@, v.pix_fmt->0),
{
    if s.pix_fmt is Some {
        let name = s.pix_fmt->0@;
        let format = v.pix_fmt->0;
        if name == "yuv420p"@ {
            model::law_name_decides_pix_fmt(format, PixFmt::Yuv420p, name);
        }
        if name == "yuv420p10le"@ {
            model::law_name_decides_pix_fmt(format, PixFmt::Yuv420p10le, name);
        }
        if name == "yuv420p12le"@ {
            model::law_name_decides_pix_fmt(format, PixFmt::Yuv420p12le, name);
        }
        if name == "yuv422p"@ {
            model::law_name_decides_pix_fmt(format, PixFmt::Yuv422p, name);
        }
        if name == "yuv422p10le"@ {
            model::law_name_decides_pix_fmt(format, PixFmt::Yuv422p10le, name);
        }
        if name == "yuv444p"@ {
            model::law_name_decides_pix_fmt(format, PixFmt::Yuv444p, name);
        }
        if name == "yuv444p10le"@ {
            model::law_name_decides_pix_fmt(format, PixFmt::Yuv444p10le, name);
        }
        if name == "yuvj420p"@ {
            model::law_name_decides_pix_fmt(format, PixFmt::Yuvj420p, name);
        }
        if name == "yuvj422p"@ {
            model::law_name_decides_pix_fmt(format, PixFmt::Yuvj422p, name);
        }
        if name == "yuvj444p"@ {
            model::law_name_decides_pix_fmt(format, PixFmt::Yuvj444p, name);
        }
    }
}

/// Which pixel format a name stands for.
pub open spec fn names_pix_fmt(name: Seq<char>, format: PixFmt) -> bool {
    &&& format is Yuv420p <==> name == "yuv420p"@
    &&& format is Yuv420p10le <==> name == "yuv420p10le"@
    &&& format is Yuv420p12le <==> name == "yuv420p12le"@
    &&& format is Yuv422p <==> name == "yuv422p"@
    &&& format is Yuv422p10le <==> name == "yuv422p10le"@
    &&& format is Yuv444p <==> name == "yuv444p"@
    &&& format is Yuv444p10le <==> name == "yuv444p10le"@
    &&& format is Yuvj420p <==> name == "yuvj420p"@
    &&& format is Yuvj422p <==> name == "yuvj422p"@
    &&& format is Yuvj444p <==> name == "yuvj444p"@
    &&& format matches PixFmt::Other(kept) ==> kept@ == name
}

/// The container by the formats that ffprobe lists: the first of these that
/// is among them.
pub proof fn law_container_names(c: Container, name: Seq<char>)
    requires
        c.is_named(name),
    ensures
        text::lists(name, "mp4"@) <==> c is Mp4,
        text::lists(name, "mov"@) && !text::lists(name, "mp4"@) <==> c is Mov,
        c is Mkv ==> text::lists(name, "matroska"@),
        text::lists(name, "matroska"@) ==> c is Mkv || c is Mov || c is Mp4,
        c is WebM ==> text::lists(name, "webm"@),
        text::lists(name, "webm"@) ==> c is WebM || c is Mkv || c is Mov || c is Mp4,
        c is Avi ==> text::lists(name, "avi"@),
        c is Asf ==> text::lists(name, "asf"@),
        c is Flv ==> text::lists(name, "flv"@),
        c is MpegPs ==> text::lists(name, "mpeg"@),
        c is MpegTs ==> text::lists(name, "mpegts"@),
        c matches Container::Unknown(kept) ==> kept@ == name && !text::lists(name, "matroska"@)
            && !text::lists(name, "webm"@) && !text::lists(name, "avi"@) && !text::lists(
            name,
            "asf"@,
        ) && !text::lists(name, "flv"@) && !text::lists(name, "mpeg"@) && !text::lists(
            name,
            "mpegts"@,
        ),
{
}

/// A single format name stands for its container.
pub proof fn law_single_container_name(c: Container, name: Seq<char>)
    requires
        c.is_named(name),
    ensures
        name == "mp4"@ ==> c is Mp4,
        name == "mov"@ ==> c is Mov,
        name == "matroska"@ ==> c is Mkv,
        name == "webm"@ ==> c is WebM,
        name == "avi"@ ==> c is Avi,
        name == "asf"@ ==> c is Asf,
        name == "flv"@ ==> c is Flv,
        name == "mpeg"@ ==> c is MpegPs,
        name == "mpegts"@ ==> c is MpegTs,
{
    reveal_strlit("mp4");
    reveal_strlit("mov");
    reveal_strlit("matroska");
    reveal_strlit("webm");
    reveal_strlit("avi");
    reveal_strlit("asf");
    reveal_strlit("flv");
    reveal_strlit("mpeg");
    reveal_strlit("mpegts");
    assert("mp4"@[1] == 'p' && "mov"@[1] == 'o' && "avi"@[1] == 'v' && "asf"@[1] == 's'
        && "flv"@[1] == 'l' && "webm"@[0] == 'w' && "mpeg"@[0] == 'm' && "matroska"@.len() == 8
        && "mpegts"@.len() == 6);
    if name == "mp4"@ || name == "mov"@ || name == "matroska"@ || name == "webm"@ || name == "avi"@
        || name == "asf"@ || name == "flv"@ || name == "mpeg"@ || name == "mpegts"@ {
        assert(text::is_whitespace(name[0]) == false);
        assert(text::is_whitespace(name[name.len() - 1]) == false);
        lemma_one_name(name, "mp4"@);
        lemma_one_name(name, "mov"@);
        lemma_one_name(name, "matroska"@);
        lemma_one_name(name, "webm"@);
        lemma_one_name(name, "avi"@);
        lemma_one_name(name, "asf"@);
        lemma_one_name(name, "flv"@);
        lemma_one_name(name, "mpeg"@);
        lemma_one_name(name, "mpegts"@);
    }
}

/// A name without commas and outer blanks lists itself alone.
proof fn lemma_one_name(name: Seq<char>, word: Seq<char>)
    requires
        name.len() > 0,
        !text::is_whitespace(name[0]),
        !text::is_whitespace(name[name.len() - 1]),
        forall|i: int| 0 <= i < name.len() ==> name[i] != ',',
    ensures
        text::lists(name, word) <==> name == word,
{
    lemma_split_without(name);
    let pieces = text::split(name, ',');
    assert(text::trim(name) == name) by {
        assert(name.last() == name[name.len() - 1]);
        assert(text::trim_start(name) == name);
    }
    assert(text::trim(pieces[0]) == name);
}

/// Without a comma there is one piece.
proof fn lemma_split_without(s: Seq<char>)
    requires
        forall|i: int| 0 <= i < s.len() ==> s[i] != ',',
    ensures
        text::split(s, ',') == seq![s],
    decreases s.len(),
{
    if s.len() == 0 {
        assert(s =~= Seq::<char>::empty());
        assert(text::split(s, ',') =~= seq![s]);
    } else {
        let front = s.drop_last();
        assert forall|i: int| 0 <= i < front.len() implies front[i] != ',' by {
            assert(front[i] == s[i]);
        }
        lemma_split_without(front);
        assert(s.last() == s[s.len() - 1]);
        assert(front.push(s.last()) =~= s);
        assert(seq![front].drop_last().push(front.push(s.last())) =~= seq![s]);
    }
}

/// The file's extension tells Matroska and WebM apart, however it is spelled,
/// and changes no other container.
pub proof fn law_refined_container(c: Container, file: Seq<char>, stem: Seq<char>, ext: Seq<char>)
    requires
        path::file_name(file) == Some(stem + "."@ + ext),
        forall|i: int| 0 <= i < ext.len() ==> ext[i] != '.',
    ensures
        c.refined(file) == (if stem.len() == 0 {
            c
        } else if c is Mkv && names::cased(ext, "webm"@) {
            Container::WebM
        } else if c is WebM && names::cased(ext, "mkv"@) {
            Container::Mkv
        } else {
            c
        }),
{
    names::lemma_extension(file, stem, ext);
    names::lemma_media_word("webm"@);
    names::lemma_media_word("mkv"@);
    names::lemma_cased(ext, "webm"@);
    names::lemma_cased(ext, "mkv"@);
}

/// The picture is as the report has it. An interlaced one shows its first
/// field in the first letter; the frame rate is the real one where it is
/// given, and else the average; and HDR is told by its two transfer curves.
pub proof fn law_video_fields(v: VideoInfo, s: RawStream)
    requires
        probe::video_says(v, s),
    ensures
        s.width matches Some(width) ==> v.width == width,
        s.width is None ==> v.width == 0,
        s.height matches Some(height) ==> v.height == height,
        s.height is None ==> v.height == 0,
        s.codec_name is None ==> (v.codec matches VideoCodec::Unknown(kept) && kept@
            == "(missing codec_name)"@),
        ({
            let order = text::opt_text(s.field_order);
            &&& v.field_order is Progressive <==> order == Some("progressive"@)
            &&& v.field_order is InterlacedTopFirst <==> order == Some("tt"@) || order == Some(
                "tb"@,
            )
            &&& v.field_order is InterlacedBottomFirst <==> order == Some("bb"@) || order == Some(
                "bt"@,
            )
        }),
        v.is_hdr <==> s.color_transfer is Some && (s.color_transfer->0@ == "smpte2084"@
            || s.color_transfer->0@ == "arib-std-b67"@),
{
    reveal_strlit("progressive");
    reveal_strlit("tt");
    reveal_strlit("tb");
    reveal_strlit("bb");
    reveal_strlit("bt");
    assert("tt"@[0] == 't' && "tb"@[0] == 't' && "bb"@[0] == 'b' && "bt"@[0] == 'b');
    assert("tt"@[1] == 't' && "tb"@[1] == 'b' && "bb"@[1] == 'b' && "bt"@[1] == 't');
    assert("progressive"@.len() == 11);
}

/// The two ratios of the picture read back as ffprobe writes them, and are
/// unknown where the denominator is zero.
pub proof fn law_video_ratios(v: VideoInfo, s: RawStream, num: u32, den: u32)
    requires
        probe::video_says(v, s),
    ensures
        ({
            let rate = text::decimal(num as nat).push('/') + text::decimal(den as nat);
            let shape = text::decimal(num as nat).push(':') + text::decimal(den as nat);
            let ratio = if den > 0 {
                Some(Rational { num, den })
            } else {
                None
            };
            &&& text::opt_text(s.r_frame_rate) == Some(rate) ==> v.framerate == ratio
            &&& s.r_frame_rate is None && text::opt_text(s.avg_frame_rate) == Some(rate)
                ==> v.framerate == ratio
            &&& s.r_frame_rate is None && s.avg_frame_rate is None ==> v.framerate is None
            &&& text::opt_text(s.sample_aspect_ratio) == Some(shape) ==> v.sar == ratio
            &&& s.sample_aspect_ratio is None ==> v.sar is None
        }),
        s.r_frame_rate is Some && is_no_ratio(s.r_frame_rate->0@) ==> v.framerate is None,
        s.sample_aspect_ratio is Some && is_no_ratio(s.sample_aspect_ratio->0@) ==> v.sar is None,
{
    if s.r_frame_rate is Some && is_no_ratio(s.r_frame_rate->0@) {
        lemma_no_ratio(s.r_frame_rate->0@);
    }
    if s.sample_aspect_ratio is Some && is_no_ratio(s.sample_aspect_ratio->0@) {
        lemma_no_ratio(s.sample_aspect_ratio->0@);
    }
    model::law_rational_reads_back(num, den, '/');
    model::law_rational_reads_back(num, den, ':');
}

/// Whether nothing in `s` parts two numbers.
pub open spec fn is_no_ratio(s: Seq<char>) -> bool {
    forall|i: int| 0 <= i < s.len() ==> #[trigger] s[i] != '/' && s[i] != ':'
}

/// Without a separator there is no ratio.
proof fn lemma_no_ratio(s: Seq<char>)
    requires
        is_no_ratio(s),
    ensures
        Rational::parsed(s) is None,
{
    lemma_not_found(s, '/');
    lemma_not_found(s, ':');
}

/// What is not there is not found.
proof fn lemma_not_found(s: Seq<char>, c: char)
    requires
        forall|i: int| 0 <= i < s.len() ==> #[trigger] s[i] != c,
    ensures
        text::first_index(s, c) >= s.len(),
    decreases s.len(),
{
    if s.len() > 0 {
        let rest = s.drop_first();
        assert forall|i: int| 0 <= i < rest.len() implies #[trigger] rest[i] != c by {
            assert(rest[i] == s[i + 1]);
        }
        assert(s[0] != c);
        lemma_not_found(rest, c);
    }
}

/// Whether `s` holds anything but digits.
pub open spec fn is_no_number(s: Seq<char>) -> bool {
    exists|i: int| 0 <= i < s.len() && !('0' <= #[trigger] s[i] <= '9') && s[i] != '+'
}

/// What holds anything but digits is not read as a number.
proof fn lemma_no_number(s: Option<String>, max: nat)
    requires
        s is Some ==> is_no_number(s->0@),
    ensures
        probe::number_of(s, max) is None,
{
    if s is Some {
        let t = s->0@;
        let i = choose|i: int| 0 <= i < t.len() && !('0' <= #[trigger] t[i] <= '9') && t[i] != '+';
        assert(!text::is_digit(t[i]));
        if t[0] == '+' {
            assert(t.drop_first()[i - 1] == t[i]);
        }
    }
}

/// A number that is written in decimal and fits is read as itself.
proof fn lemma_number(n: nat, max: nat)
    requires
        n <= max,
    ensures
        text::parse_unsigned(text::decimal(n), max) == Some(n),
{
    text::law_decimal_reads_back(n);
    let s = text::decimal(n);
    assert(text::is_digit(s[0]));
}

/// The audio track is as the report has it.
pub proof fn law_audio_fields(a: AudioInfo, s: RawStream, rate: u32, bits: u64)
    requires
        probe::audio_says(a, s),
    ensures
        a.channels == s.channels,
        text::opt_text(a.channel_layout) == text::opt_text(s.channel_layout),
        text::opt_text(s.sample_rate) == Some(text::decimal(rate as nat)) ==> a.sample_rate_hz
            == Some(rate),
        s.sample_rate is None || is_no_number(s.sample_rate->0@) ==> a.sample_rate_hz is None,
        text::opt_text(s.bit_rate) == Some(text::decimal(bits as nat)) ==> a.bitrate_bps == Some(
            bits,
        ),
        s.bit_rate is None || is_no_number(s.bit_rate->0@) ==> a.bitrate_bps is None,
        s.codec_name is None ==> (a.codec matches AudioCodec::Unknown(kept) && kept@
            == "(missing codec_name)"@),
{
    lemma_number(rate as nat, u32::MAX as nat);
    lemma_number(bits as nat, u64::MAX as nat);
    if s.sample_rate is None || is_no_number(s.sample_rate->0@) {
        lemma_no_number(s.sample_rate, u32::MAX as nat);
    }
    if s.bit_rate is None || is_no_number(s.bit_rate->0@) {
        lemma_no_number(s.bit_rate, u64::MAX as nat);
    }
}

/// The language is the value of the tag `language`, or, where there is none,
/// of `LANGUAGE`; without either it is unknown.
pub proof fn law_language(a: AudioInfo, s: RawStream, i: int)
    requires
        probe::audio_says(a, s),
    ensures
        ({
            let tags = s.tags@;
            let plain = exists|j: int| 0 <= j < tags.len() && #[trigger] tags[j].0@ == "language"@;
            let loud = exists|j: int| 0 <= j < tags.len() && #[trigger] tags[j].0@ == "LANGUAGE"@;
            &&& !plain && !loud <==> a.language is None
            &&& 0 <= i < tags.len() && tags[i].0@ == "language"@ && (forall|j: int|
                0 <= j < i ==> #[trigger] tags[j].0@ != "language"@) ==> text::opt_text(a.language)
                == Some(tags[i].1@)
            &&& !plain && 0 <= i < tags.len() && tags[i].0@ == "LANGUAGE"@ && (forall|j: int|
                0 <= j < i ==> #[trigger] tags[j].0@ != "LANGUAGE"@) ==> text::opt_text(a.language)
                == Some(tags[i].1@)
        }),
{
    lemma_tag(s.tags@, "language"@, i);
    lemma_tag(s.tags@, "LANGUAGE"@, i);
}

/// A tag is found where it first stands.
proof fn lemma_tag(tags: Seq<(String, String)>, key: Seq<char>, i: int)
    ensures
        probe::tag(tags, key) is Some <==> exists|j: int|
            0 <= j < tags.len() && #[trigger] tags[j].0@ == key,
        0 <= i < tags.len() && tags[i].0@ == key && (forall|j: int|
            0 <= j < i ==> #[trigger] tags[j].0@ != key) ==> probe::tag(tags, key) == Some(
            tags[i].1@,
        ),
    decreases tags.len(),
{
    if tags.len() > 0 && tags[0].0@ != key {
        let rest = tags.drop_first();
        lemma_tag(rest, key, i - 1);
        if exists|j: int| 0 <= j < tags.len() && #[trigger] tags[j].0@ == key {
            let j = choose|j: int| 0 <= j < tags.len() && #[trigger] tags[j].0@ == key;
            assert(rest[j - 1].0@ == key);
        }
        if exists|j: int| 0 <= j < rest.len() && #[trigger] rest[j].0@ == key {
            let j = choose|j: int| 0 <= j < rest.len() && #[trigger] rest[j].0@ == key;
            assert(tags[j + 1].0@ == key);
        }
        if 0 <= i < tags.len() && tags[i].0@ == key && (forall|j: int|
            0 <= j < i ==> #[trigger] tags[j].0@ != key) {
            assert(rest[i - 1] == tags[i]);
            assert forall|j: int| 0 <= j < i - 1 implies #[trigger] rest[j].0@ != key by {
                assert(rest[j] == tags[j + 1]);
            }
        }
    } else if tags.len() > 0 {
        assert(tags[0].0@ == key);
    }
}

/// Whether ffprobe calls `s` a stream of this kind.
pub open spec fn called(s: RawStream, kind: Seq<char>) -> bool {
    s.codec_type is Some && s.codec_type->0@ == kind
}

/// The streams of a kind are those that are called so, in their order.
proof fn lemma_streams(streams: Seq<RawStream>, kind: Seq<char>)
    ensures
        probe::streams_of(streams, kind) == streams.filter(|s: RawStream| called(s, kind)),
    decreases streams.len(),
{
    reveal(Seq::filter);
    if streams.len() > 0 {
        lemma_streams(streams.drop_last(), kind);
    } else {
        assert(streams.filter(|s: RawStream| called(s, kind)) =~= Seq::<RawStream>::empty());
    }
}

/// The profile shows the first video stream, and each audio stream in its
/// order; it takes nothing from the others.
pub proof fn law_streams(
    p: MediaProfile,
    file: Seq<char>,
    raw: RawOutput,
    before: Seq<RawStream>,
    s: RawStream,
    after: Seq<RawStream>,
)
    requires
        probe::profile_says(p, file, raw),
        raw.streams@ == before + seq![s] + after,
    ensures
        called(s, "video"@) && (forall|i: int|
            0 <= i < before.len() ==> !called(#[trigger] before[i], "video"@))
            ==> probe::video_says(p.video, s),
        p.audio@.len() == raw.streams@.filter(|t: RawStream| called(t, "audio"@)).len(),
        called(s, "audio"@) ==> probe::audio_says(
            p.audio@[before.filter(|t: RawStream| called(t, "audio"@)).len() as int],
            s,
        ),
{
    let streams = raw.streams@;
    let video = |t: RawStream| called(t, "video"@);
    let audio = |t: RawStream| called(t, "audio"@);
    lemma_streams(streams, "video"@);
    lemma_streams(streams, "audio"@);
    Seq::filter_distributes_over_add(before + seq![s], after, video);
    Seq::filter_distributes_over_add(before, seq![s], video);
    Seq::filter_distributes_over_add(before + seq![s], after, audio);
    Seq::filter_distributes_over_add(before, seq![s], audio);
    lemma_single(s, "video"@);
    lemma_single(s, "audio"@);
    if called(s, "video"@) && (forall|i: int|
        0 <= i < before.len() ==> !called(#[trigger] before[i], "video"@)) {
        lemma_none(before, "video"@);
        assert(streams.filter(video)[0] == s);
    }
    if called(s, "audio"@) {
        let n = before.filter(audio).len() as int;
        assert(streams.filter(audio)[n] == s);
        assert(probe::audio_says(p.audio@[n], probe::streams_of(streams, "audio"@)[n]));
    }
}

/// One stream.
proof fn lemma_single(s: RawStream, kind: Seq<char>)
    ensures
        seq![s].filter(|t: RawStream| called(t, kind)) == (if called(s, kind) {
            seq![s]
        } else {
            Seq::empty()
        }),
{
    reveal(Seq::filter);
    let none = seq![s].drop_last();
    assert(none =~= Seq::<RawStream>::empty());
    assert(none.filter(|t: RawStream| called(t, kind)) =~= Seq::<RawStream>::empty());
    assert(seq![s].last() == s);
    assert(seq![s].filter(|t: RawStream| called(t, kind)) =~= (if called(s, kind) {
        seq![s]
    } else {
        Seq::empty()
    }));
}

/// No stream of the kind.
proof fn lemma_none(streams: Seq<RawStream>, kind: Seq<char>)
    requires
        forall|i: int| 0 <= i < streams.len() ==> !called(#[trigger] streams[i], kind),
    ensures
        streams.filter(|t: RawStream| called(t, kind)).len() == 0,
    decreases streams.len(),
{
    reveal(Seq::filter);
    if streams.len() > 0 {
        assert(streams.last() == streams[streams.len() - 1]);
        lemma_none(streams.drop_last(), kind);
    }
}

/// The size and the bitrate of the file read back as ffprobe writes them.
pub proof fn law_file_fields(p: MediaProfile, file: Seq<char>, raw: RawOutput, n: u64)
    requires
        probe::profile_says(p, file, raw),
    ensures
        raw.format is None ==> p.file_size_bytes is None && p.bitrate_bps is None
            && p.duration_secs is None,
        raw.format matches Some(format) ==> {
            &&& text::opt_text(format.size) == Some(text::decimal(n as nat)) ==> p.file_size_bytes
                == Some(n)
            &&& format.size is None || is_no_number(format.size->0@) ==> p.file_size_bytes is None
            &&& text::opt_text(format.bit_rate) == Some(text::decimal(n as nat)) ==> p.bitrate_bps
                == Some(n)
            &&& format.bit_rate is None || is_no_number(format.bit_rate->0@)
                ==> p.bitrate_bps is None
            &&& format.duration is None ==> p.duration_secs is None
            &&& format.format_name is None ==> p.container is Unknown
        },
{
    lemma_number(n as nat, u64::MAX as nat);
    if let Some(format) = raw.format {
        if format.size is None || is_no_number(format.size->0@) {
            lemma_no_number(format.size, u64::MAX as nat);
        }
        if format.bit_rate is None || is_no_number(format.bit_rate->0@) {
            lemma_no_number(format.bit_rate, u64::MAX as nat);
        }
    }
}

/// A file is described exactly where it is there, is a file, can be read by
/// ffprobe and has a video stream. Else the first of these that fails is the
/// error.
pub proof fn law_probe_outcome(
    path: Seq<char>,
    state: ProbeState,
    event: ProbeEvent,
    next: ProbeState,
)
    requires
        probe::is_probe_next(path, state, event, next),
        !(state is Done || state is Failed),
    ensures
        next is Done <==> state is Decode && (event matches ProbeEvent::Decoded(Ok(raw)) && exists|
            i: int,
        |
            0 <= i < raw.streams@.len() && called(#[trigger] raw.streams@[i], "video"@)),
        next matches ProbeState::Failed(e) ==> match e@ {
            ErrorView::InputNotFound(p) => state is CheckExists && event == ProbeEvent::Answer(
                false,
            ) && p == path,
            ErrorView::InputNotFile(p) => state is CheckIsFile && event == ProbeEvent::Answer(false)
                && p == path,
            ErrorView::FfprobeNotFound(why) => state is Locate && (
            event matches ProbeEvent::Located(Err(said)) && said@ == why),
            ErrorView::Io(why) => state is Run && (event matches ProbeEvent::SpawnFailed(said)
                && said@ == why),
            ErrorView::FfprobeFailed { path: p, status, stderr } => state is Run && p == path && (
            event matches ProbeEvent::Exited { success, code, stderr: text, .. } && !success
                && stderr == text@ && (code is Some ==> status == code->0) && (code is None
                ==> status == -1)),
            ErrorView::FfprobeParse { path: p, .. } => state is Decode && p == path && (
            event matches ProbeEvent::Decoded(Err(_))),
            ErrorView::NoStreams(p) => state is Decode && p == path && (
            event matches ProbeEvent::Decoded(Ok(raw)) && raw.streams@.len() == 0),
            ErrorView::NoVideoStream(p) => state is Decode && p == path && (
            event matches ProbeEvent::Decoded(Ok(raw)) && raw.streams@.len() > 0),
            _ => false,
        },
        state is CheckExists && event == ProbeEvent::Answer(true) ==> next is CheckIsFile,
        state is CheckExists && event == ProbeEvent::Answer(false) ==> next is Failed,
        state is CheckIsFile && event == ProbeEvent::Answer(true) ==> next is Locate,
        state is CheckIsFile && event == ProbeEvent::Answer(false) ==> next is Failed,
        event matches ProbeEvent::Located(Ok(found)) ==> state is Locate ==> next == (
        ProbeState::Run { ffprobe: found }),
        event matches ProbeEvent::Located(Err(_)) ==> state is Locate ==> next is Failed,
        event matches ProbeEvent::Exited { success, stdout: said, .. } ==> state is Run ==> if success {
            next == (ProbeState::Decode { stdout: said })
        } else {
            next is Failed
        },
        state is Run && event is SpawnFailed ==> next is Failed,
        state is Decode && event is Decoded ==> next is Done || next is Failed,
{
    if let ProbeEvent::Decoded(Ok(raw)) = event {
        lemma_some(raw.streams@, "video"@);
    }
}

/// There is a stream of a kind exactly where one is called so.
proof fn lemma_some(streams: Seq<RawStream>, kind: Seq<char>)
    ensures
        probe::streams_of(streams, kind).len() > 0 <==> exists|i: int|
            0 <= i < streams.len() && called(#[trigger] streams[i], kind),
    decreases streams.len(),
{
    if streams.len() > 0 {
        let front = streams.drop_last();
        lemma_some(front, kind);
        assert(streams.last() == streams[streams.len() - 1]);
        if exists|i: int| 0 <= i < front.len() && called(#[trigger] front[i], kind) {
            let i = choose|i: int| 0 <= i < front.len() && called(#[trigger] front[i], kind);
            assert(called(streams[i], kind));
        }
        if exists|i: int| 0 <= i < streams.len() && called(#[trigger] streams[i], kind) {
            let i = choose|i: int| 0 <= i < streams.len() && called(#[trigger] streams[i], kind);
            if i < front.len() {
                assert(called(front[i], kind));
            }
        }
    }
}

/// ffprobe is asked for all streams and the format of the file, as JSON, and
/// for nothing but errors beside it.
pub proof fn law_probe_arguments(path: Seq<char>, state: ProbeState, action: ProbeAction)
    requires
        probe::is_probe_action(path, state, action),
    ensures
        action is Spawn <==> state is Run,
        action matches ProbeAction::Spawn { program, args } ==> ({
            let a = text::texts(args@);
            &&& state matches ProbeState::Run { ffprobe } && program == ffprobe
            &&& a.len() == 7
            &&& a[6] == path
            &&& a[0] == "-v"@ && a[1] == "error"@
            &&& a[2] == "-print_format"@ && a[3] == "json"@
            &&& a[4] == "-show_streams"@ && a[5] == "-show_format"@
        }),
{
}

/// A whole number of seconds is shown as that time on a clock.
pub proof fn law_durations(p: MediaProfile, file: Seq<char>, raw: RawOutput, n: nat)
    requires
        probe::profile_says(p, file, raw),
        n < binary64::TWO_53,
        raw.format is Some,
        text::opt_text(raw.format->0.duration) == Some(text::decimal(n)),
    ensures
        p.duration_secs matches Some(secs) && crate::format::duration_text(secs)
            == crate::format::clock_text(n),
{
    let s = text::decimal(n);
    text::law_decimal_reads_back(n);
    cli::lemma_digits_are_a_numeral(s);
    cli::lemma_digits_are_a_number(n);
    double::law_short_products_are_exact(s, 1);
    let d = double::double_of(s, s.len() as int);
    assert(d.0 * 1 == d.0);
    binary64::lemma_nearest_whole_bounds(d.0);
    assert(double::rounded(d.0, d.1) == n);
    let secs = p.duration_secs->0;
    assert(secs.mantissa == d.0 && secs.exponent == d.1);
}

/// The container of a profile is the one that the format's name stands for,
/// seen with the file's extension.
pub proof fn law_container_of_profile(
    p: MediaProfile,
    file: Seq<char>,
    raw: RawOutput,
    c: Container,
)
    requires
        probe::profile_says(p, file, raw),
    ensures
        raw.format is Some && raw.format->0.format_name is Some && c.is_named(
            raw.format->0.format_name->0@,
        ) ==> p.container.same(c.refined(file)),
        raw.format is None || raw.format->0.format_name is None ==> (
        p.container matches Container::Unknown(kept) && kept@ == "(missing format_name)"@),
{
    if raw.format is Some && raw.format->0.format_name is Some {
        let name = raw.format->0.format_name->0@;
        let d = choose|d: Container| d.is_named(name) && p.container == d.refined(file);
        if c.is_named(name) {
            model::law_name_decides_container(c, d, name);
        }
    }
}

} // verus!
