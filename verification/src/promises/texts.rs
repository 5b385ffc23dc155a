//! What people are shown.

use vstd::prelude::*;

use crate::assess;
use crate::assess::Issue;
use crate::binary64;
use crate::cli::FlowFlags;
use crate::error::ErrorView;
use crate::execute;
use crate::execute::RunJob;
use crate::flow;
use crate::flow::{FlowFailure, FlowKind, Job, NoAnswer, Restored};
use crate::model::{
    AudioCodec, AudioInfo, Container, FieldOrder, MediaProfile, PixFmt, Seconds, VideoCodec,
    VideoInfo,
};
use crate::plan;
use crate::plan::{
    AudioStrategy, Intent, Overrides, RecipeView, VideoFilter, VideoStrategyView,
};
use crate::text;

verus! {

/// What video codecs are called. A codec that is not known is called by the
/// name that ffprobe has for it.
pub proof fn law_video_codec_labels(name: String)
    ensures
        VideoCodec::Mpeg1.label() == "MPEG-1"@,
        VideoCodec::Mpeg2.label() == "MPEG-2"@,
        VideoCodec::Mpeg4.label() == "MPEG-4 Part 2 (Xvid/DivX)"@,
        VideoCodec::Msmpeg4.label() == "Microsoft MPEG-4"@,
        VideoCodec::H263.label() == "H.263"@,
        VideoCodec::H264.label() == "H.264"@,
        VideoCodec::H265.label() == "H.265 (HEVC)"@,
        VideoCodec::Av1.label() == "AV1"@,
        VideoCodec::Vp8.label() == "VP8"@,
        VideoCodec::Vp9.label() == "VP9"@,
        VideoCodec::Vc1.label() == "VC-1"@,
        VideoCodec::Wmv1.label() == "WMV 1"@,
        VideoCodec::Wmv2.label() == "WMV 2"@,
        VideoCodec::Wmv3.label() == "WMV 3"@,
        VideoCodec::Theora.label() == "Theora"@,
        VideoCodec::Flv1.label() == "Sorenson Spark (FLV1)"@,
        VideoCodec::Unknown(name).label() == "unknown video codec ("@ + name@ + ")"@,
{
}

/// What audio codecs are called. All kinds of PCM and of Windows Media Audio,
/// and codecs that are not known, go by the name that ffprobe has for them.
pub proof fn law_audio_codec_labels(name: String)
    ensures
        AudioCodec::Aac.label() == "AAC"@,
        AudioCodec::Ac3.label() == "AC-3"@,
        AudioCodec::Eac3.label() == "E-AC-3"@,
        AudioCodec::Dts.label() == "DTS"@,
        AudioCodec::Mp2.label() == "MP2"@,
        AudioCodec::Mp3.label() == "MP3"@,
        AudioCodec::Opus.label() == "Opus"@,
        AudioCodec::Flac.label() == "FLAC"@,
        AudioCodec::Vorbis.label() == "Vorbis"@,
        AudioCodec::Alac.label() == "ALAC"@,
        AudioCodec::Pcm(name).label() == "PCM ("@ + name@ + ")"@,
        AudioCodec::Wma(name).label() == "WMA ("@ + name@ + ")"@,
        AudioCodec::Unknown(name).label() == "unknown audio codec ("@ + name@ + ")"@,
{
}

/// What containers, field orders and pixel formats are called.
pub proof fn law_other_labels(name: String)
    ensures
        Container::Mp4.label() == "MP4"@,
        Container::Mov.label() == "MOV"@,
        Container::Mkv.label() == "Matroska (MKV)"@,
        Container::WebM.label() == "WebM"@,
        Container::MpegPs.label() == "MPEG-PS"@,
        Container::MpegTs.label() == "MPEG-TS"@,
        Container::Asf.label() == "ASF/WMV"@,
        Container::Avi.label() == "AVI"@,
        Container::Flv.label() == "FLV"@,
        Container::Unknown(name).label() == "unknown ("@ + name@ + ")"@,
        FieldOrder::Progressive.label() == "progressive"@,
        FieldOrder::InterlacedTopFirst.label() == "interlaced (TFF)"@,
        FieldOrder::InterlacedBottomFirst.label() == "interlaced (BFF)"@,
        FieldOrder::Unknown.label() == "unknown field order"@,
        PixFmt::Other(name).label() == name@,
        forall|format: PixFmt, shown: Seq<char>| #[trigger]
            format.is_named(shown) ==> format.label() == shown,
{
}

/// Two values that are the same go by the same names.
pub proof fn law_same_goes_by_the_same_names(
    a: VideoCodec,
    b: VideoCodec,
    c: AudioCodec,
    d: AudioCodec,
    e: PixFmt,
    f: PixFmt,
    name: Seq<char>,
)
    ensures
        a.same(b) ==> a.is_named(name) == b.is_named(name) && a.label() == b.label(),
        c.same(d) ==> c.is_named(name) == d.is_named(name) && c.label() == d.label(),
        e.same(f) ==> e.is_named(name) == f.is_named(name) && e.label() == f.label(),
{
}

/// Whether `n` is a whole number nearest to `num / den`.
pub open spec fn is_nearest(n: nat, num: nat, den: nat) -> bool {
    -(den as int) <= 2 * (n * den - num) <= den
}

/// Whether `n` is the whole number nearest to `num / den`, and the even one
/// where two are as near.
pub open spec fn is_nearest_even(n: nat, num: nat, den: nat) -> bool {
    &&& is_nearest(n, num, den)
    &&& 2 * (n * den - num) == den || 2 * (num - n * den) == den ==> n % 2 == 0
}

/// Whether `n` is the whole number nearest to `num / den`, and the larger one
/// where two are as near.
pub open spec fn is_nearest_up(n: nat, num: nat, den: nat) -> bool {
    -(den as int) < 2 * (n * den - num) <= den
}

/// Rounding gives a nearest whole number.
pub proof fn lemma_round(num: nat, den: nat)
    requires
        den > 0,
    ensures
        is_nearest_even(binary64::round_half_even(num, den), num, den),
        is_nearest_up(binary64::round_half_up(num, den), num, den),
{
    vstd::arithmetic::div_mod::lemma_fundamental_div_mod(num as int, den as int);
    let q = (num / den) as int;
    let d = den as int;
    assert((q + 1) * d == q * d + d) by (nonlinear_arith);
    assert(d * q == q * d) by (nonlinear_arith);
}

/// Below 1024 a size is shown in bytes. From there on it is shown in the
/// largest unit that it reaches, each of 1024 of the one before, and to the
/// nearest tenth.
pub proof fn law_bytes(bytes: u64)
    requires
        bytes < 0x20_0000_0000_0000,
    ensures
        bytes < 0x400 ==> crate::format::bytes_text(bytes) == text::decimal(bytes as nat) + " B"@,
        0x400 <= bytes < 0x10_0000 ==> shows_even_tenths(
            crate::format::bytes_text(bytes),
            bytes as nat,
            0x400,
            " KiB"@,
        ),
        0x10_0000 <= bytes < 0x4000_0000 ==> shows_even_tenths(
            crate::format::bytes_text(bytes),
            bytes as nat,
            0x10_0000,
            " MiB"@,
        ),
        0x4000_0000 <= bytes < 0x100_0000_0000 ==> shows_even_tenths(
            crate::format::bytes_text(bytes),
            bytes as nat,
            0x4000_0000,
            " GiB"@,
        ),
        0x100_0000_0000 <= bytes < 0x4_0000_0000_0000 ==> shows_even_tenths(
            crate::format::bytes_text(bytes),
            bytes as nat,
            0x100_0000_0000,
            " TiB"@,
        ),
        0x4_0000_0000_0000 <= bytes ==> shows_even_tenths(
            crate::format::bytes_text(bytes),
            bytes as nat,
            0x4_0000_0000_0000,
            " PiB"@,
        ),
{
    binary64::lemma_nearest_whole_bounds(bytes as nat);
    let value = bytes as nat;
    let unit = crate::format::byte_unit(value);
    lemma_round(10 * value, unit);
    let tenths = binary64::round_half_even(10 * value, unit);
    assert(bytes >= 0x400 ==> crate::format::bytes_text(bytes) == tenths_shown(tenths)
        + crate::format::byte_unit_name(value));
}

/// Tenths, with one decimal place.
pub open spec fn tenths_shown(tenths: nat) -> Seq<char> {
    text::decimal(tenths / 10).push('.').push(text::digit(tenths % 10))
}

/// Whether `shown` is `amount` in units of `unit`, to the nearest tenth.
pub open spec fn shows_tenths(shown: Seq<char>, amount: nat, unit: nat, name: Seq<char>) -> bool {
    exists|tenths: nat|
        shown == #[trigger] tenths_shown(tenths) + name && is_nearest(tenths, 10 * amount, unit)
}

/// Whether `shown` is `amount` in units of `unit`, to the nearest tenth, and
/// to the even one where two are as near.
pub open spec fn shows_even_tenths(
    shown: Seq<char>,
    amount: nat,
    unit: nat,
    name: Seq<char>,
) -> bool {
    exists|tenths: nat|
        shown == #[trigger] tenths_shown(tenths) + name && is_nearest_even(
            tenths,
            10 * amount,
            unit,
        )
}

/// A size in a summary has no tenths from a hundred of its unit on.
pub proof fn law_summary_sizes(bytes: u64)
    requires
        bytes < 0x20_0000_0000_0000,
    ensures
        bytes < 100 * 0x400 ==> crate::format::size_text(bytes) == crate::format::bytes_text(bytes),
        0x10_0000 <= bytes < 100 * 0x10_0000 ==> crate::format::size_text(bytes) == crate::format::bytes_text(
            bytes,
        ),
        0x4000_0000 <= bytes < 100 * 0x4000_0000 ==> crate::format::size_text(bytes)
            == crate::format::bytes_text(bytes),
        0x100_0000_0000 <= bytes < 100 * 0x100_0000_0000 ==> crate::format::size_text(bytes)
            == crate::format::bytes_text(bytes),
        100 * 0x400 <= bytes < 0x10_0000 ==> shows_even_whole(
            crate::format::size_text(bytes),
            bytes as nat,
            0x400,
            " KiB"@,
        ),
        100 * 0x10_0000 <= bytes < 0x4000_0000 ==> shows_even_whole(
            crate::format::size_text(bytes),
            bytes as nat,
            0x10_0000,
            " MiB"@,
        ),
        100 * 0x4000_0000 <= bytes < 0x100_0000_0000 ==> shows_even_whole(
            crate::format::size_text(bytes),
            bytes as nat,
            0x4000_0000,
            " GiB"@,
        ),
        100 * 0x100_0000_0000 <= bytes < 0x4_0000_0000_0000 ==> shows_even_whole(
            crate::format::size_text(bytes),
            bytes as nat,
            0x100_0000_0000,
            " TiB"@,
        ),
{
    binary64::lemma_nearest_whole_bounds(bytes as nat);
    let value = bytes as nat;
    let unit = crate::format::byte_unit(value);
    lemma_round(value, unit);
    let n = binary64::round_half_even(value, unit);
    assert(value >= 0x400 && value >= 100 * unit ==> crate::format::size_text(bytes) == text::decimal(n)
        + crate::format::byte_unit_name(value));
}

/// Whether `shown` is `amount` in units of `unit`, to the nearest whole one.
pub open spec fn shows_whole(shown: Seq<char>, amount: nat, unit: nat, name: Seq<char>) -> bool {
    exists|n: nat| shown == #[trigger] text::decimal(n) + name && is_nearest(n, amount, unit)
}

/// Whether `shown` is `amount` in units of `unit`, to the nearest whole one,
/// and to the even one where two are as near.
pub open spec fn shows_even_whole(
    shown: Seq<char>,
    amount: nat,
    unit: nat,
    name: Seq<char>,
) -> bool {
    exists|n: nat| shown == #[trigger] text::decimal(n) + name && is_nearest_even(n, amount, unit)
}

/// A time is shown in hours, minutes and seconds, of which the leading zeros
/// are left out, and each behind the first has two digits.
pub proof fn law_clock(hours: nat, minutes: nat, seconds: nat)
    requires
        minutes < 60,
        seconds < 60,
    ensures
        ({
            let total = 3600 * hours + 60 * minutes + seconds;
            let mm = seq![text::digit(minutes / 10), text::digit(minutes % 10)];
            let ss = seq![text::digit(seconds / 10), text::digit(seconds % 10)];
            &&& hours > 0 ==> crate::format::clock_text(total) == text::decimal(hours) + "h"@ + mm + "m"@
                + ss + "s"@
            &&& hours == 0 && minutes > 0 ==> crate::format::clock_text(total) == text::decimal(minutes)
                + "m"@ + ss + "s"@
            &&& hours == 0 && minutes == 0 ==> crate::format::clock_text(total) == text::decimal(seconds)
                + "s"@
        }),
{
    let total = 3600 * hours + 60 * minutes + seconds;
    assert(total / 3600 == hours && total % 3600 == 60 * minutes + seconds && total % 60 == seconds
        && (total % 3600) / 60 == minutes);
    lemma_two_digits(minutes);
    lemma_two_digits(seconds);
}

/// Two digits are the tens and the ones.
proof fn lemma_two_digits(n: nat)
    requires
        n < 100,
    ensures
        text::two_digits(n) == seq![text::digit(n / 10), text::digit(n % 10)],
{
    if n < 10 {
        assert(text::digit(0) == '0');
    } else {
        assert(text::decimal(n / 10) =~= seq![text::digit(n / 10)]);
        assert(text::decimal(n) == text::decimal(n / 10).push(text::digit(n % 10)));
    }
    assert(text::two_digits(n) =~= seq![text::digit(n / 10), text::digit(n % 10)]);
}

/// What is shown of the picture: codec and size always, and the field order;
/// and each of the others exactly where it is known and not as usual.
pub proof fn law_video_line(v: VideoInfo)
    ensures
        ({
            let size = text::decimal(v.width as nat) + "x"@ + text::decimal(v.height as nat);
            let wide = if v.display_width() == v.width {
                Seq::empty()
            } else {
                " (display "@ + (text::decimal(v.display_width() as nat) + "x"@ + text::decimal(
                    v.height as nat,
                )) + ")"@
            };
            let rate = if v.framerate is None {
                Seq::empty()
            } else {
                ", "@ + binary64::ratio_text(v.framerate->0.num, v.framerate->0.den) + " fps"@
            };
            let pixels = if v.pix_fmt is None {
                Seq::empty()
            } else {
                ", "@ + v.pix_fmt->0.label()
            };
            let shape = if v.sar is None || v.sar->0.num == v.sar->0.den {
                Seq::empty()
            } else {
                ", SAR "@ + text::decimal(v.sar->0.num as nat) + ":"@ + text::decimal(
                    v.sar->0.den as nat,
                )
            };
            let hdr = if v.is_hdr {
                ", HDR"@
            } else {
                Seq::empty()
            };
            crate::format::video_text(v) == v.codec.label() + ", "@ + size + wide + ", "@
                + v.field_order.label() + rate + pixels + shape + hdr
        }),
{
}

/// What is shown of an audio track: the codec always, and each of the others
/// exactly where it is known. A layout goes before a number of channels.
pub proof fn law_audio_line(a: AudioInfo)
    ensures
        ({
            let channels = if a.channel_layout is Some {
                ", "@ + a.channel_layout->0@
            } else if a.channels is None {
                Seq::empty()
            } else if a.channels->0 == 1 {
                ", "@ + text::decimal(1) + " channel"@
            } else {
                ", "@ + text::decimal(a.channels->0 as nat) + " channels"@
            };
            let rate = if a.sample_rate_hz is None {
                Seq::empty()
            } else {
                ", "@ + crate::format::khz_text(a.sample_rate_hz->0) + " kHz"@
            };
            let bits = if a.bitrate_bps is None {
                Seq::empty()
            } else {
                ", "@ + crate::format::bitrate_text(a.bitrate_bps->0)
            };
            let language = if a.language is None {
                Seq::empty()
            } else {
                " ("@ + a.language->0@ + ")"@
            };
            crate::format::audio_text(a) == a.codec.label() + channels + rate + bits + language
        }),
{
}

/// A profile has a line for the file, the container, the video and each audio
/// track, which are numbered from one.
pub proof fn law_profile_lines(path: Seq<char>, p: MediaProfile, i: int)
    ensures
        ({
            let size = if p.file_size_bytes is None {
                Seq::empty()
            } else {
                ", "@ + crate::format::bytes_text(p.file_size_bytes->0)
            };
            let time = if p.duration_secs is None {
                Seq::empty()
            } else {
                ", "@ + crate::format::duration_text(p.duration_secs->0)
            };
            let bits = if p.bitrate_bps is None {
                Seq::empty()
            } else {
                ", "@ + crate::format::bitrate_text(p.bitrate_bps->0)
            };
            crate::format::profile_text(path, p) == "File:      "@ + path + "\nContainer: "@
                + p.container.label() + size + time + bits + "\nVideo:     "@
                + crate::format::video_text(p.video) + (if p.audio@.len() == 0 {
                "\nAudio:     (none)"@
            } else {
                crate::format::audio_lines(p.audio@)
            })
        }),
        0 <= i < p.audio@.len() ==> crate::format::audio_lines(p.audio@.take(i + 1))
            == crate::format::audio_lines(p.audio@.take(i)) + "\nAudio "@ + text::decimal(
            (i + 1) as nat,
        ) + ":   "@ + crate::format::audio_text(p.audio@[i]),
        p.audio@.take(p.audio@.len() as int) == p.audio@,
        crate::format::audio_lines(p.audio@.take(0)).len() == 0,
{
    if 0 <= i < p.audio@.len() {
        let more = p.audio@.take(i + 1);
        assert(more.drop_last() =~= p.audio@.take(i));
        assert(more.last() == p.audio@[i]);
    }
    assert(p.audio@.take(p.audio@.len() as int) =~= p.audio@);
}

/// What each issue is called.
pub proof fn law_issue_texts(issue: Issue)
    ensures
        issue matches Issue::LegacyVideoCodec(codec) ==> crate::format::issue_text(issue)
            == "legacy video codec ("@ + codec.label() + ")"@,
        issue matches Issue::LegacyAudioCodec(codec) ==> crate::format::issue_text(issue)
            == "legacy audio codec ("@ + codec.label() + ")"@,
        issue matches Issue::LegacyContainer(c) ==> crate::format::issue_text(issue)
            == "legacy container ("@ + c.label() + ")"@,
        issue is MissingSeekIndex ==> crate::format::issue_text(issue) == "missing seek index"@,
        issue is Interlaced ==> crate::format::issue_text(issue) == "interlaced source"@,
        issue is NonModernPixelFormat ==> crate::format::issue_text(issue)
            == "non-modern pixel format"@,
        issue matches Issue::BitrateExcessive { actual, threshold } ==> crate::format::issue_text(
            issue,
        ) == "excessive bitrate ("@ + crate::format::bitrate_text(actual) + ", threshold "@
            + crate::format::bitrate_text(threshold) + ")"@,
        issue is ResolutionWasteful ==> crate::format::issue_text(issue) == "wasteful resolution"@,
        issue matches Issue::NonSquarePixels(sar) ==> crate::format::issue_text(issue)
            == "non-square pixels (SAR "@ + text::decimal(sar.num as nat) + ":"@ + text::decimal(
            sar.den as nat,
        ) + ")"@,
        issue is AudioCodecIncompatibleWithTargetContainer ==> crate::format::issue_text(issue)
            == "audio codec incompatible with target container"@,
{
}

/// The issues stand one below the other, the first behind the heading.
pub proof fn law_issue_lines(first: Issue, issues: Seq<Issue>, last: Issue)
    ensures
        crate::format::issue_lines(seq![first]) == "Issues:    "@ + crate::format::issue_text(
            first,
        ),
        issues.len() > 0 ==> crate::format::issue_lines(issues.push(last))
            == crate::format::issue_lines(issues) + "\n           "@ + crate::format::issue_text(
            last,
        ),
        crate::format::issue_lines(Seq::empty()).len() == 0,
{
    assert(issues.push(last).drop_last() =~= issues);
}

/// The first line of a plan says by which encoder and how the video is
/// encoded.
pub proof fn law_strategy_texts(recipe: RecipeView, output: Seq<char>)
    ensures
        ({
            let headline = match recipe.video_strategy {
                VideoStrategyView::Copy => "Remux without re-encoding (stream copy)"@,
                VideoStrategyView::ReencodeX264 { crf, preset } => "Re-encode video to H.264 (CRF "@
                    + text::decimal(crf as nat) + ", "@ + preset + " preset)"@,
                VideoStrategyView::ReencodeX265 { crf, preset } => "Re-encode video to H.265 (CRF "@
                    + text::decimal(crf as nat) + ", "@ + preset + " preset)"@,
                VideoStrategyView::ReencodeX264Abr {
                    target_bps,
                    preset,
                    ..
                } => "Re-encode video to H.264 ("@ + crate::format::bitrate_text(target_bps)
                    + " average, "@ + preset + " preset)"@,
                VideoStrategyView::ReencodeX265Abr {
                    target_bps,
                    preset,
                    ..
                } => "Re-encode video to H.265 ("@ + crate::format::bitrate_text(target_bps)
                    + " average, "@ + preset + " preset)"@,
            };
            crate::format::recipe_text(recipe, output) == "Plan:      "@ + headline + " in "@
                + recipe.output_container.label() + crate::format::filter_steps(
                recipe.video_filters,
            ) + crate::format::audio_step(recipe) + "\n           Output: "@ + output
        }),
{
}

/// Each step of a plan has its own line: the filters in order, and then what
/// happens to the audio. That nothing happens to the audio is said only where
/// something happens to the video.
pub proof fn law_plan_steps(recipe: RecipeView, filters: Seq<VideoFilter>, last: VideoFilter)
    ensures
        crate::format::filter_steps(Seq::empty()).len() == 0,
        crate::format::filter_steps(filters.push(last)) == crate::format::filter_steps(filters)
            + "\n           "@ + (match last {
            VideoFilter::Bwdif => "Deinterlace with bwdif"@,
            VideoFilter::FieldmatchDecimate => "Inverse telecine with fieldmatch and decimate"@,
            VideoFilter::Scale { width, height } => "Scale to "@ + (text::decimal(width as nat)
                + "x"@ + text::decimal(height as nat)),
            VideoFilter::SetSar { num, den } => if num == 1 && den == 1 {
                "Set square pixel aspect ratio"@
            } else {
                "Set pixel aspect ratio "@ + text::decimal(num as nat) + ":"@ + text::decimal(
                    den as nat,
                )
            },
        }),
        recipe.audio_strategy is Copy && recipe.video_strategy is Copy
            ==> crate::format::audio_step(recipe).len() == 0,
        recipe.audio_strategy is Copy && !(recipe.video_strategy is Copy)
            ==> crate::format::audio_step(recipe) == "\n           Copy audio"@,
        recipe.audio_strategy matches AudioStrategy::AacStereo { bitrate_bps }
            ==> crate::format::audio_step(recipe) == "\n           Downmix audio to AAC stereo "@
            + crate::format::bitrate_text(bitrate_bps),
        recipe.audio_strategy matches AudioStrategy::AacMultichannel { bitrate_bps }
            ==> crate::format::audio_step(recipe)
            == "\n           Re-encode audio to AAC multichannel "@ + crate::format::bitrate_text(
            bitrate_bps,
        ),
{
    assert(filters.push(last).drop_last() =~= filters);
}

/// The plans of a join and of an upgrade say what is particular to them.
pub proof fn law_other_plans(
    recipe: RecipeView,
    inputs: nat,
    input: Seq<char>,
    output: Seq<char>,
    backup: Seq<char>,
)
    ensures
        crate::format::upgrade_recipe_text(recipe, input, output, None)
            == crate::format::recipe_text(recipe, output) + "\n           Original "@ + input
            + " will be preserved unchanged"@,
        crate::format::upgrade_recipe_text(recipe, input, output, Some(backup))
            == crate::format::recipe_text(recipe, output) + "\n           Original "@ + input + (
        " will be renamed to "@ + backup),
        crate::format::concat_recipe_text(recipe, inputs, output) == "Plan:      "@ + ("Concat "@
            + text::decimal(inputs) + " inputs via demuxer (stream copy)"@) + " in "@
            + recipe.output_container.label() + crate::format::filter_steps(recipe.video_filters)
            + crate::format::audio_step(recipe) + "\n           Output: "@ + output,
{
}

/// What a finished job says: what was written, how large it was before and is
/// now, by how much it changed, if that is known, and how long it took.
pub proof fn law_summary(
    output: Seq<char>,
    inputs: nat,
    before: Option<u64>,
    after: u64,
    elapsed: Seconds,
)
    ensures
        ({
            let sizes = if before is None {
                crate::format::size_text(after)
            } else {
                crate::format::size_text(before->0) + " → "@ + crate::format::size_text(after) + (
                if before->0 == 0 {
                    Seq::empty()
                } else {
                    ", "@ + crate::format::change_text(before->0, after)
                })
            };
            let outcome = sizes + ", "@ + crate::format::duration_text(elapsed);
            &&& crate::format::completion_text(output, before, after, elapsed) == "Done. Wrote "@
                + output + " ("@ + outcome + ")."@
            &&& crate::format::concat_completion_text(output, inputs, before, after, elapsed)
                == "Done. Joined "@ + text::decimal(inputs) + " inputs into "@ + output + " ("@
                + outcome + ")."@
        }),
{
}

/// The change of a size is told to the nearest percent of what it was.
pub proof fn law_change(before: u64, after: u64)
    ensures
        before == after ==> crate::format::change_text(before, after) == "same size"@,
        before > after ==> exists|percent: nat|
            crate::format::change_text(before, after) == #[trigger] text::decimal(percent)
                + "% smaller"@ && is_nearest_up(
                percent,
                (100 * (before - after)) as nat,
                before as nat,
            ),
        0 < before < after ==> exists|percent: nat|
            crate::format::change_text(before, after) == #[trigger] text::decimal(percent)
                + "% larger"@ && is_nearest_up(
                percent,
                (100 * (after - before)) as nat,
                before as nat,
            ),
{
    if before > after {
        lemma_round((100 * (before - after)) as nat, before as nat);
        let percent = binary64::round_half_up((100 * (before - after)) as nat, before as nat);
        assert(crate::format::change_text(before, after) == text::decimal(percent)
            + "% smaller"@);
    } else if 0 < before < after {
        lemma_round((100 * (after - before)) as nat, before as nat);
        let percent = binary64::round_half_up((100 * (after - before)) as nat, before as nat);
        assert(crate::format::change_text(before, after) == text::decimal(percent) + "% larger"@);
    }
}

/// A dry run shows the very command that the job would run, but for the
/// output, which it shows in place of the partial output: read by a shell,
/// it is ffmpeg and the same arguments.
pub proof fn law_preview(job: Job, ffmpeg: Seq<char>, run: RunJob)
    requires
        job.wf(),
        job.asks_for(run),
        job.kind != FlowKind::Concat,
        job.backup is None,
    ensures
        ({
            let done = execute::argv(
                text::texts(run.inputs@),
                run.source_containers@,
                run.partial@,
                run.recipe@,
                run.overwrite,
                None,
            );
            exists|command: Seq<char>|
                flow::preview_text(job, ffmpeg) == "\nCommand:   "@ + command
                    + "\n\n(dry run — not executing)\n"@ && #[trigger] execute::words_of(command)
                    == Some(seq![ffmpeg] + done.drop_last().push(job.output@))
        }),
{
    let done = execute::argv(
        text::texts(run.inputs@),
        run.source_containers@,
        run.partial@,
        run.recipe@,
        run.overwrite,
        None,
    );
    let shown = execute::argv(
        text::texts(job.inputs@),
        job.source_containers@,
        job.output@,
        job.recipe@,
        job.flags.overwrite,
        None,
    );
    assert(shown =~= done.drop_last().push(job.output@));
    let command = flow::preview_command(job, ffmpeg);
    execute::law_command_reads_back(ffmpeg, shown);
    assert(execute::words_of(command) == Some(seq![ffmpeg] + done.drop_last().push(job.output@)));
}

/// A dry run of a join shows a placeholder for the list file, which is not
/// written, and says so.
pub proof fn law_join_preview(job: Job, ffmpeg: Seq<char>)
    requires
        job.kind == FlowKind::Concat,
    ensures
        exists|command: Seq<char>|
            flow::preview_text(job, ffmpeg) == "\nCommand:   "@ + command
                + "\n\n(dry run — not executing; the list file is created at run time)\n"@
                && #[trigger] execute::words_of(command) == Some(
                seq![ffmpeg] + execute::argv(
                    text::texts(job.inputs@),
                    job.source_containers@,
                    job.output@,
                    job.recipe@,
                    job.flags.overwrite,
                    Some("<concat-list-tempfile>"@),
                ),
            ),
{
    let shown = execute::argv(
        text::texts(job.inputs@),
        job.source_containers@,
        job.output@,
        job.recipe@,
        job.flags.overwrite,
        Some("<concat-list-tempfile>"@),
    );
    let command = flow::preview_command(job, ffmpeg);
    execute::law_command_reads_back(ffmpeg, shown);
    assert(execute::words_of(command) == Some(seq![ffmpeg] + shown));
}

/// A finished job says what it wrote, and where the original is if it was
/// moved.
pub proof fn law_done(job: Job, before: Option<u64>, after: u64, elapsed: Seconds)
    requires
        job.wf(),
    ensures
        ({
            let shown = flow::done_text(job, before, after, elapsed);
            let output = job.output@;
            &&& job.kind == FlowKind::Concat ==> shown == crate::format::concat_completion_text(
                output,
                job.inputs@.len(),
                before,
                after,
                elapsed,
            )
            &&& job.kind != FlowKind::Concat && job.backup is None ==> shown
                == crate::format::completion_text(output, before, after, elapsed)
            &&& job.backup is Some ==> shown == crate::format::completion_text(
                output,
                before,
                after,
                elapsed,
            ) + "\nOriginal preserved at: "@ + job.backup->0@
        }),
{
}

/// What each error says. An exit status is a signed number.
pub proof fn law_error_messages(
    path: Seq<char>,
    other: Seq<char>,
    why: Seq<char>,
    status: i32,
    n: usize,
)
    ensures
        ErrorView::FfprobeNotFound(why).message()
            == "ffprobe binary not found; install ffmpeg or set VIMPROVER_FFPROBE"@,
        ErrorView::FfmpegNotFound(why).message()
            == "ffmpeg binary not found; install ffmpeg or set VIMPROVER_FFMPEG"@,
        ErrorView::InputNotFound(path).message() == "input file does not exist: "@ + path,
        ErrorView::InputNotFile(path).message() == "input path is not a regular file: "@ + path,
        (ErrorView::FfprobeFailed { path, status, stderr: why }).message() == "ffprobe failed on "@
            + path + " (exit "@ + text::signed(status as int) + "):\n"@ + why,
        (ErrorView::FfprobeParse { path, source: why }).message()
            == "could not parse ffprobe output for "@ + path + ": "@ + why,
        ErrorView::NoStreams(path).message() == "ffprobe reported no streams for "@ + path,
        ErrorView::NoVideoStream(path).message() == "ffprobe reported no video stream for "@ + path,
        ErrorView::Io(why).message() == "i/o error: "@ + why,
        ErrorView::ConcatTooFewInputs(n).message() == "concat needs at least two inputs (got "@
            + text::decimal(n as nat) + ")"@,
        (ErrorView::ConcatInputsDiffer { path, why }).message() == "concat refused: "@ + path
            + " differs from the first input in its "@ + why
            + "; normalize the inputs first with `vimprover --reencode` or `--intent shrink`"@,
        ErrorView::NothingToShrink(why).message() == "nothing to shrink: "@ + why
            + "; pass --max-height or --target-bitrate to shrink it anyway"@,
        ErrorView::OutputExists(path).message() == "output already exists: "@ + path
            + " (pass --overwrite to replace)"@,
        ErrorView::PartialOutputExists(path).message()
            == "partial output from a prior run exists: "@ + path
            + " (pass --overwrite to replace, or remove it manually)"@,
        (ErrorView::FfmpegFailed { status }).message() == "ffmpeg failed (exit "@ + text::signed(
            status as int,
        ) + ")"@,
        (ErrorView::RenameFailed { from: path, to: other, source: why }).message()
            == "could not rename "@ + path + " to "@ + other + ": "@ + why,
        status < 0 ==> text::signed(status as int) == seq!['-'] + text::decimal((-status) as nat),
        status >= 0 ==> text::signed(status as int) == text::decimal(status as nat),
{
}

/// Beneath an error stands what it came of, where that has words of its own.
pub proof fn law_error_chains(error: ErrorView)
    ensures
        error.chain().len() <= 2,
        error.chain()[0] == error.message(),
        error.chain().len() == 2 <==> error is FfprobeNotFound || error is FfmpegNotFound
            || error is FfprobeParse || error is Io || error is RenameFailed,
        error matches ErrorView::FfprobeNotFound(why) ==> error.chain()[1] == why,
        error matches ErrorView::FfmpegNotFound(why) ==> error.chain()[1] == why,
        error matches ErrorView::FfprobeParse { source, .. } ==> error.chain()[1] == source,
        error matches ErrorView::Io(why) ==> error.chain()[1] == why,
        error matches ErrorView::RenameFailed { source, .. } ==> error.chain()[1] == source,
{
}

/// What is said of a job that failed. What encoding failed of stands beneath
/// the output, whatever became of the original; where that could not be moved
/// back, the user is told where it is.
pub proof fn law_failures(job: Job, failure: FlowFailure)
    requires
        job.wf(),
    ensures
        ({
            let chain = flow::failure_chain(job, failure);
            let backup = if job.backup is Some {
                job.backup->0@
            } else {
                Seq::empty()
            };
            match failure {
                FlowFailure::OutputExists => chain == seq![
                    "output already exists: "@ + job.output@ + " (pass --overwrite to replace)"@,
                ],
                FlowFailure::BackupExists => chain == seq![
                    "backup file from a prior upgrade exists: "@ + backup
                        + " (pass --overwrite to replace, or remove it manually)"@,
                ],
                FlowFailure::FfmpegNotFound(why) => chain == seq![
                    "ffmpeg binary not found; install ffmpeg or set VIMPROVER_FFMPEG"@,
                    why@,
                ],
                FlowFailure::NotAsked(NoAnswer::NoTerminal) => chain == seq![
                    "stdin is not a terminal; pass --yes to skip the confirmation prompt in non-interactive runs"@,
                ],
                FlowFailure::NotAsked(NoAnswer::Unreadable(why)) => chain == seq![
                    "reading confirmation from stdin"@,
                    why@,
                ],
                FlowFailure::NotMovedAside(why) => chain == seq![
                    "renaming original to backup ("@ + job.inputs@[0]@ + " → "@ + backup + ")"@,
                    why@,
                ],
                FlowFailure::NotEncoded { error, .. } => chain.len() == 1 + error@.chain().len()
                    && chain[0] == "encoding to "@ + job.output@ && chain.skip(1)
                    == error@.chain(),
            }
        }),
        flow::stranded_text(job, failure) is Some <==> job.backup is Some && (
        failure matches FlowFailure::NotEncoded { original: Restored::Stranded(_), .. }),
        flow::stranded_text(job, failure) matches Some(said) ==> (
        failure matches FlowFailure::NotEncoded { original: Restored::Stranded(why), .. } && said
            == "warning: upgrade failed and could not restore backup "@ + job.backup->0@ + " to "@
            + job.inputs@[0]@ + ": "@ + why@ + "\nthe original file is preserved at: "@
            + job.backup->0@),
{
    if let FlowFailure::NotEncoded { error, .. } = failure {
        assert(flow::failure_chain(job, failure).skip(1) =~= error@.chain());
    }
}

/// A word that a shell might read as more than itself is put between single
/// quotes; any other word is shown as it is.
pub proof fn law_shell_words(word: Seq<char>)
    ensures
        word.len() == 0 || (exists|i: int|
            0 <= i < word.len() && is_dangerous(#[trigger] word[i])) ==> execute::shell_word(word)
            == "'"@ + execute::quoted(word) + "'"@,
        word.len() > 0 && (forall|i: int|
            0 <= i < word.len() ==> !is_dangerous(#[trigger] word[i])) ==> execute::shell_word(word)
            == word,
{
    if exists|i: int| 0 <= i < word.len() && is_dangerous(#[trigger] word[i]) {
        let i = choose|i: int| 0 <= i < word.len() && is_dangerous(#[trigger] word[i]);
        assert(execute::is_shell_special(word[i]));
    }
    if word.len() > 0 && (forall|i: int|
        0 <= i < word.len() ==> !is_dangerous(#[trigger] word[i])) {
        assert forall|i: int| 0 <= i < word.len() implies !execute::is_shell_special(
            #[trigger] word[i],
        ) by {
            assert(!is_dangerous(word[i]));
        }
    }
}

/// Whether a shell gives `c` a meaning of its own: blanks, quotes, and all
/// that expands, redirects, groups, comments or separates.
pub open spec fn is_dangerous(c: char) -> bool {
    match c {
        '\'' | '"' | '\\' => true,
        '$' | '`' | '~' | '!' => true,
        '*' | '?' | '[' | ']' | '{' | '}' => true,
        '<' | '>' | '|' | '&' | ';' | '(' | ')' | '#' => true,
        _ => text::is_whitespace(c),
    }
}

/// Why there is nothing to shrink: the bitrate of the file, and the threshold
/// for its height.
pub proof fn law_too_small_to_shrink(
    profile: MediaProfile,
    issues: Seq<Issue>,
    intent: Intent,
    overrides: Overrides,
)
    requires
        intent is Shrink,
    ensures
        plan::planned(profile, issues, intent, overrides) matches Err(error) ==> ({
            let height = text::decimal(profile.video.height as nat);
            let bps = profile.bitrate_bps->0;
            let threshold = if profile.video.height > 1080 {
                15_000_000u64
            } else {
                5_000_000u64
            };
            error == ErrorView::NothingToShrink(
                "source is already "@ + crate::format::bitrate_text(bps) + " at "@ + height
                    + "p (threshold for "@ + height + "p is "@ + crate::format::bitrate_text(
                    threshold,
                ) + ")"@,
            )
        }),
{
}

/// What is said of two inputs that differ names both sides; what is not known
/// is called so.
pub proof fn law_differences(a: MediaProfile, b: MediaProfile)
    ensures
        ({
            let (v, w) = (a.video, b.video);
            let (x, y) = (a.audio@, b.audio@);
            let why = plan::mismatch(a, b);
            let alike = v.codec.same(w.codec);
            let sized = alike && v.width == w.width && v.height == w.height;
            &&& !alike ==> why == Some(
                "video codec"@ + " ("@ + v.codec.label() + " vs "@ + w.codec.label() + ")"@,
            )
            &&& alike && !sized ==> why == Some(
                "video resolution"@ + " ("@ + (text::decimal(v.width as nat) + "x"@ + text::decimal(
                    v.height as nat,
                )) + " vs "@ + (text::decimal(w.width as nat) + "x"@ + text::decimal(
                    w.height as nat,
                )) + ")"@,
            )
            &&& sized && v.pix_fmt is Some && w.pix_fmt is None ==> why == Some(
                "pixel format"@ + " ("@ + v.pix_fmt->0.label() + " vs "@ + "unknown"@ + ")"@,
            )
            &&& sized && v.pix_fmt is None && w.pix_fmt is Some ==> why == Some(
                "pixel format"@ + " ("@ + "unknown"@ + " vs "@ + w.pix_fmt->0.label() + ")"@,
            )
            &&& sized && v.pix_fmt is Some && w.pix_fmt is Some && !v.pix_fmt->0.same(w.pix_fmt->0)
                ==> why == Some(
                "pixel format"@ + " ("@ + v.pix_fmt->0.label() + " vs "@ + w.pix_fmt->0.label()
                    + ")"@,
            )
        }),
        plan::channels_text(None) == "unknown"@,
        plan::sample_rate_text(None) == "unknown"@,
{
}

/// What is said of two inputs whose pictures agree but for the frame rate, or
/// agree altogether.
pub proof fn law_later_differences(a: MediaProfile, b: MediaProfile)
    requires
        a.video.codec.same(b.video.codec),
        a.video.width == b.video.width,
        a.video.height == b.video.height,
        a.video.pix_fmt is Some <==> b.video.pix_fmt is Some,
        a.video.pix_fmt is Some ==> a.video.pix_fmt->0.same(b.video.pix_fmt->0),
    ensures
        ({
            let (r, s) = (a.video.framerate, b.video.framerate);
            let (x, y) = (a.audio@, b.audio@);
            let why = plan::mismatch(a, b);
            let apart = r is Some && s is Some && binary64::ratios_apart(
                r->0.num,
                r->0.den,
                s->0.num,
                s->0.den,
            );
            &&& apart ==> why == Some(
                "framerate"@ + " ("@ + binary64::ratio_fixed(r->0.num, r->0.den) + " vs "@ + (
                binary64::ratio_fixed(s->0.num, s->0.den) + " fps"@) + ")"@,
            )
            &&& !apart && x.len() > 0 && y.len() > 0 ==> if !x[0].codec.same(y[0].codec) {
                why == Some(
                    "audio codec"@ + " ("@ + x[0].codec.label() + " vs "@ + y[0].codec.label()
                        + ")"@,
                )
            } else if x[0].channels != y[0].channels {
                why == Some(
                    "audio channel count"@ + " ("@ + plan::channels_text(x[0].channels) + " vs "@
                        + plan::channels_text(y[0].channels) + ")"@,
                )
            } else if x[0].sample_rate_hz != y[0].sample_rate_hz {
                why == Some(
                    "audio sample rate"@ + " ("@ + plan::sample_rate_text(x[0].sample_rate_hz)
                        + " vs "@ + plan::sample_rate_text(y[0].sample_rate_hz) + ")"@,
                )
            } else {
                why is None
            }
        }),
{
}

/// How a number of channels and a sample rate are shown where they differ.
pub proof fn law_known_differences(n: u32)
    ensures
        plan::channels_text(Some(n)) == text::decimal(n as nat),
        plan::sample_rate_text(Some(n)) == text::decimal(n as nat) + " Hz"@,
{
}

/// What is found about a file is its profile, and below it the issues, if
/// there are any. A file with nothing wrong is left alone unless it was
/// forced or somebody said what to do with it.
pub proof fn law_report(input: Seq<char>, profile: MediaProfile, intent: Intent, flags: FlowFlags)
    ensures
        ({
            let issues = assess::issues_of(profile, intent);
            let shown = flow::findings_text(input, profile, intent);
            &&& issues.len() > 0 ==> shown == crate::format::profile_text(input, profile) + "\n"@ + (
            "\n"@ + crate::format::issue_lines(issues) + "\n"@)
            &&& issues.len() == 0 ==> shown =~= crate::format::profile_text(input, profile) + "\n"@
            &&& flow::left_alone(profile, intent, flags) <==> intent is Auto && !flags.force
                && issues.len() == 0
        }),
        flow::left_alone_text(input) == input
            + " is already fine — pass --force to process anyway, or use --reencode / --intent for an explicit action."@,
{
}

} // verus!
