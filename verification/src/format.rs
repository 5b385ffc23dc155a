//! Human-readable rendering of profiles, assessments, recipes and results.

use vstd::arithmetic::div_mod::*;
use vstd::prelude::*;

use crate::assess::{Assessment, Issue};
use crate::binary64;
use crate::double;
use crate::model::{AudioInfo, MediaProfile, PixFmt, Rational, Seconds, VideoInfo};
use crate::plan::{
    AudioStrategy, EncodeRecipe, RecipeView, VideoFilter, VideoStrategy, VideoStrategyView,
};
use crate::text;

verus! {

// ---------------------------------------------------------------------------
// Pretty formatters (bytes, duration, bitrate)
// ---------------------------------------------------------------------------

/// Bytes to a kibibyte.
pub const KIB: u128 = 0x400;

/// Bytes to a mebibyte.
pub const MIB: u128 = 0x10_0000;

/// Bytes to a gibibyte.
pub const GIB: u128 = 0x4000_0000;

/// Bytes to a tebibyte.
pub const TIB: u128 = 0x100_0000_0000;

/// Bytes to a pebibyte.
pub const PIB: u128 = 0x4_0000_0000_0000;

/// The largest binary unit that `value` bytes reach, from the kibibyte to the
/// pebibyte, in bytes.
pub open spec fn byte_unit(value: nat) -> nat {
    if value < MIB {
        KIB as nat
    } else if value < GIB {
        MIB as nat
    } else if value < TIB {
        GIB as nat
    } else if value < PIB {
        TIB as nat
    } else {
        PIB as nat
    }
}

/// The name of a binary unit, with a space before it.
pub open spec fn byte_unit_name(value: nat) -> Seq<char> {
    if value < MIB {
        " KiB"@
    } else if value < GIB {
        " MiB"@
    } else if value < TIB {
        " GiB"@
    } else if value < PIB {
        " TiB"@
    } else {
        " PiB"@
    }
}

/// A byte count with binary units and one decimal place, as double-precision
/// arithmetic gives it.
pub open spec fn bytes_text(bytes: u64) -> Seq<char> {
    let value = binary64::nearest_whole(bytes as nat);
    if value < KIB {
        text::decimal(bytes as nat) + " B"@
    } else {
        binary64::tenths_text(binary64::round_half_even(10 * value, byte_unit(value)))
            + byte_unit_name(value)
    }
}

/// A byte count with binary units, with one decimal place below a hundred of
/// a unit and none from there on.
pub open spec fn size_text(bytes: u64) -> Seq<char> {
    let value = binary64::nearest_whole(bytes as nat);
    if value < KIB || value < 100 * byte_unit(value) {
        bytes_text(bytes)
    } else {
        text::decimal(binary64::round_half_even(value, byte_unit(value))) + byte_unit_name(value)
    }
}

/// Whole seconds as `HhMMmSSs`, without leading components of zero.
pub open spec fn clock_text(total: nat) -> Seq<char> {
    let hours = total / 3600;
    let minutes = (total % 3600) / 60;
    let seconds = total % 60;
    if hours > 0 {
        text::decimal(hours) + "h"@ + text::two_digits(minutes) + "m"@ + text::two_digits(seconds)
            + "s"@
    } else if minutes > 0 {
        text::decimal(minutes) + "m"@ + text::two_digits(seconds) + "s"@
    } else {
        text::decimal(seconds) + "s"@
    }
}

/// A span of time, rounded to whole seconds.
pub open spec fn duration_text(secs: Seconds) -> Seq<char> {
    clock_text(double::cut_off(double::rounded(secs.mantissa as nat, secs.exponent as int)) as nat)
}

/// A sample rate in kHz, with one decimal place if it is not a whole number.
pub open spec fn khz_text(hz: u32) -> Seq<char> {
    if hz % 1000 == 0 {
        text::decimal((hz / 1000) as nat)
    } else {
        binary64::tenths_text(
            binary64::in_units(binary64::nearest_quotient(hz as nat, 1000), 10),
        )
    }
}

/// A bitrate in Mbps with one decimal place, in whole kbps or in bps.
pub open spec fn bitrate_text(bps: u64) -> Seq<char> {
    let value = binary64::nearest_whole(bps as nat);
    if bps >= 1_000_000 {
        binary64::tenths_text(
            binary64::in_units(binary64::nearest_quotient(value, 1_000_000), 10),
        ) + " Mbps"@
    } else if bps >= 1_000 {
        text::decimal(binary64::in_units(binary64::nearest_quotient(value, 1_000), 1)) + " kbps"@
    } else {
        text::decimal(bps as nat) + " bps"@
    }
}

/// The largest binary unit that `value` bytes reach, and its name.
fn unit_of(value: u128) -> (r: (u128, &'static str))
    ensures
        r.0 == byte_unit(value as nat),
        r.1@ == byte_unit_name(value as nat),
{
    if value < MIB {
        (KIB, " KiB")
    } else if value < GIB {
        (MIB, " MiB")
    } else if value < TIB {
        (GIB, " GiB")
    } else if value < PIB {
        (TIB, " TiB")
    } else {
        (PIB, " PiB")
    }
}

/// Format a byte count with binary units (KiB/MiB/GiB/TiB/PiB), one decimal.
pub fn format_bytes(bytes: u64) -> (r: String)
    ensures
        r@ == bytes_text(bytes),
{
    let value = binary64::nearest_whole_double(bytes as u128);
    let mut out = String::new();
    if value < KIB {
        text::push_decimal(&mut out, bytes);
        out.append(" B");
        assert(out@ =~= bytes_text(bytes));
    } else {
        let (unit, name) = unit_of(value);
        let tenths = binary64::half_even(10 * value, unit);
        proof {
            lemma_div_is_ordered_by_denominator(10 * value as int, KIB as int, unit as int);
        }
        binary64::push_tenths(&mut out, tenths as u64);
        out.append(name);
        assert(out@ =~= bytes_text(bytes));
    }
    out
}

/// Format a byte count for a summary: like [`format_bytes`], but without the
/// decimal from a hundred of a unit on.
pub fn format_size(bytes: u64) -> (r: String)
    ensures
        r@ == size_text(bytes),
{
    let value = binary64::nearest_whole_double(bytes as u128);
    let (unit, name) = unit_of(value);
    if value < KIB || value < 100 * unit {
        return format_bytes(bytes);
    }
    let whole = binary64::half_even(value, unit);
    proof {
        lemma_div_is_ordered_by_denominator(value as int, KIB as int, unit as int);
    }
    let mut out = String::new();
    text::push_decimal(&mut out, whole as u64);
    out.append(name);
    assert(out@ =~= size_text(bytes));
    out
}

/// Format a span of time as `HhMMmSSs`, omitting leading zero components.
pub fn format_duration(secs: Seconds) -> (r: String)
    ensures
        r@ == duration_text(secs),
{
    let total = double::whole(secs.mantissa, secs.exponent);
    let hours = total / 3600;
    let minutes = (total % 3600) / 60;
    let seconds = total % 60;
    let mut out = String::new();
    if hours > 0 {
        text::push_decimal(&mut out, hours);
        out.append("h");
        text::push_two_digits(&mut out, minutes);
        out.append("m");
        text::push_two_digits(&mut out, seconds);
    } else if minutes > 0 {
        text::push_decimal(&mut out, minutes);
        out.append("m");
        text::push_two_digits(&mut out, seconds);
    } else {
        text::push_decimal(&mut out, seconds);
    }
    out.append("s");
    assert(out@ =~= duration_text(secs));
    out
}

/// Format an audio sample rate (Hz) in kHz, preserving fractional rates like
/// 44.1.
pub fn format_khz(hz: u32) -> (r: String)
    ensures
        r@ == khz_text(hz),
{
    let mut out = String::new();
    if hz % 1000 == 0 {
        text::push_decimal(&mut out, (hz / 1000) as u64);
    } else {
        let tenths = binary64::units(binary64::ratio(hz, 1000), 10);
        binary64::push_tenths(&mut out, tenths);
    }
    assert(out@ =~= khz_text(hz));
    out
}

/// Format a bitrate (bits per second) as kbps or Mbps.
pub fn format_bitrate(bps: u64) -> (r: String)
    ensures
        r@ == bitrate_text(bps),
{
    let value = binary64::nearest_whole_double(bps as u128);
    let mut out = String::new();
    if bps >= 1_000_000 {
        let mbps = binary64::nearest_double(value, 1_000_000);
        let tenths = binary64::units(mbps, 10);
        binary64::push_tenths(&mut out, tenths);
        out.append(" Mbps");
    } else if bps >= 1_000 {
        let kbps = binary64::nearest_double(value, 1_000);
        let whole = binary64::units(kbps, 1);
        text::push_decimal(&mut out, whole);
        out.append(" kbps");
    } else {
        text::push_decimal(&mut out, bps);
        out.append(" bps");
    }
    assert(out@ =~= bitrate_text(bps));
    out
}

// ---------------------------------------------------------------------------
// Profiles
// ---------------------------------------------------------------------------

/// `width` by `height`.
pub open spec fn size_by(width: u32, height: u32) -> Seq<char> {
    text::decimal(width as nat) + "x"@ + text::decimal(height as nat)
}

/// The display size, where it differs from the coded size.
pub open spec fn display_piece(v: VideoInfo) -> Seq<char> {
    if v.display_width() != v.width {
        " (display "@ + size_by(v.display_width(), v.height) + ")"@
    } else {
        Seq::empty()
    }
}

/// The frame rate, where it is known.
pub open spec fn framerate_piece(rate: Option<Rational>) -> Seq<char> {
    match rate {
        Some(rate) => ", "@ + binary64::ratio_text(rate.num, rate.den) + " fps"@,
        None => Seq::empty(),
    }
}

/// The pixel format, where it is known.
pub open spec fn pix_fmt_piece(format: Option<PixFmt>) -> Seq<char> {
    match format {
        Some(format) => ", "@ + format.label(),
        None => Seq::empty(),
    }
}

/// The sample aspect ratio, where the pixels are known not to be square.
pub open spec fn sar_piece(sar: Option<Rational>) -> Seq<char> {
    match sar {
        Some(sar) => if sar.num != sar.den {
            ", SAR "@ + text::decimal(sar.num as nat) + ":"@ + text::decimal(sar.den as nat)
        } else {
            Seq::empty()
        },
        None => Seq::empty(),
    }
}

/// A video stream on one line.
pub open spec fn video_text(v: VideoInfo) -> Seq<char> {
    v.codec.label() + ", "@ + size_by(v.width, v.height) + display_piece(v) + ", "@
        + v.field_order.label() + framerate_piece(v.framerate) + pix_fmt_piece(v.pix_fmt)
        + sar_piece(v.sar) + (if v.is_hdr {
        ", HDR"@
    } else {
        Seq::empty()
    })
}

/// The channel layout, or else the number of channels, where known.
pub open spec fn channels_piece(a: AudioInfo) -> Seq<char> {
    match (a.channel_layout, a.channels) {
        (Some(layout), _) => ", "@ + layout@,
        (None, Some(channels)) => ", "@ + text::decimal(channels as nat) + (if channels == 1 {
            " channel"@
        } else {
            " channels"@
        }),
        (None, None) => Seq::empty(),
    }
}

/// The sample rate, where it is known.
pub open spec fn sample_rate_piece(hz: Option<u32>) -> Seq<char> {
    match hz {
        Some(hz) => ", "@ + khz_text(hz) + " kHz"@,
        None => Seq::empty(),
    }
}

/// A bitrate, where it is known.
pub open spec fn bitrate_piece(bps: Option<u64>) -> Seq<char> {
    match bps {
        Some(bps) => ", "@ + bitrate_text(bps),
        None => Seq::empty(),
    }
}

/// A language, where it is known.
pub open spec fn language_piece(language: Option<String>) -> Seq<char> {
    match language {
        Some(language) => " ("@ + language@ + ")"@,
        None => Seq::empty(),
    }
}

/// An audio stream on one line.
pub open spec fn audio_text(a: AudioInfo) -> Seq<char> {
    a.codec.label() + channels_piece(a) + sample_rate_piece(a.sample_rate_hz) + bitrate_piece(
        a.bitrate_bps,
    ) + language_piece(a.language)
}

/// The audio streams, one line each.
pub open spec fn audio_lines(audio: Seq<AudioInfo>) -> Seq<char>
    decreases audio.len(),
{
    if audio.len() == 0 {
        Seq::empty()
    } else {
        audio_lines(audio.drop_last()) + "\nAudio "@ + text::decimal(audio.len()) + ":   "@
            + audio_text(audio.last())
    }
}

/// A file's size, where it is known.
pub open spec fn file_size_piece(bytes: Option<u64>) -> Seq<char> {
    match bytes {
        Some(bytes) => ", "@ + bytes_text(bytes),
        None => Seq::empty(),
    }
}

/// A duration, where it is known.
pub open spec fn duration_piece(secs: Option<Seconds>) -> Seq<char> {
    match secs {
        Some(secs) => ", "@ + duration_text(secs),
        None => Seq::empty(),
    }
}

/// The profile of a file.
pub open spec fn profile_text(path: Seq<char>, p: MediaProfile) -> Seq<char> {
    "File:      "@ + path + "\nContainer: "@ + p.container.label() + file_size_piece(
        p.file_size_bytes,
    ) + duration_piece(p.duration_secs) + bitrate_piece(p.bitrate_bps) + "\nVideo:     "@
        + video_text(p.video) + (if p.audio@.len() == 0 {
        "\nAudio:     (none)"@
    } else {
        audio_lines(p.audio@)
    })
}

/// Append `width` by `height`.
pub fn push_size_by(out: &mut String, width: u32, height: u32)
    ensures
        final(out)@ == old(out)@ + size_by(width, height),
{
    text::push_decimal(out, width as u64);
    out.append("x");
    text::push_decimal(out, height as u64);
    assert(out@ =~= old(out)@ + size_by(width, height));
}

/// Append the display size, where it differs from the coded size.
fn push_display(out: &mut String, v: &VideoInfo)
    ensures
        final(out)@ == old(out)@ + display_piece(*v),
{
    let (width, height) = v.display_size();
    if width != v.width {
        out.append(" (display ");
        push_size_by(out, width, height);
        out.append(")");
    }
    assert(out@ =~= old(out)@ + display_piece(*v));
}

/// The quotient of a frame rate: a whole number when it is one to within a
/// millionth, else with three decimal places.
pub fn render_framerate(r: Rational) -> (s: String)
    ensures
        s@ == binary64::ratio_text(r.num, r.den),
{
    r.to_string()
}

/// Append the frame rate and the pixel format, where they are known.
fn push_picture(out: &mut String, v: &VideoInfo)
    ensures
        final(out)@ == old(out)@ + framerate_piece(v.framerate) + pix_fmt_piece(v.pix_fmt),
{
    if let Some(rate) = v.framerate {
        out.append(", ");
        out.append(render_framerate(rate).as_str());
        out.append(" fps");
    }
    assert(out@ =~= old(out)@ + framerate_piece(v.framerate));
    let ghost seen = out@;
    if let Some(format) = &v.pix_fmt {
        out.append(", ");
        out.append(format.to_string().as_str());
    }
    assert(out@ =~= seen + pix_fmt_piece(v.pix_fmt));
}

/// Append the sample aspect ratio, where the pixels are known not to be
/// square.
fn push_sar(out: &mut String, sar: Option<Rational>)
    ensures
        final(out)@ == old(out)@ + sar_piece(sar),
{
    if let Some(sar) = sar {
        if sar.num != sar.den {
            out.append(", SAR ");
            text::push_decimal(out, sar.num as u64);
            out.append(":");
            text::push_decimal(out, sar.den as u64);
        }
    }
    assert(out@ =~= old(out)@ + sar_piece(sar));
}

/// Render a video stream on one line.
pub fn render_video(v: &VideoInfo) -> (r: String)
    ensures
        r@ == video_text(*v),
{
    let mut line = v.codec.to_string();
    line.append(", ");
    push_size_by(&mut line, v.width, v.height);
    push_display(&mut line, v);
    line.append(", ");
    line.append(v.field_order.to_string().as_str());
    push_picture(&mut line, v);
    push_sar(&mut line, v.sar);
    let ghost seen = line@;
    if v.is_hdr {
        line.append(", HDR");
    }
    assert(line@ =~= seen + (if v.is_hdr {
        ", HDR"@
    } else {
        Seq::empty()
    }));
    line
}

/// Append the channel layout, or else the number of channels, where known.
fn push_channels(out: &mut String, a: &AudioInfo)
    ensures
        final(out)@ == old(out)@ + channels_piece(*a),
{
    if let Some(layout) = &a.channel_layout {
        out.append(", ");
        out.append(layout.as_str());
    } else if let Some(channels) = a.channels {
        out.append(", ");
        text::push_decimal(out, channels as u64);
        if channels == 1 {
            out.append(" channel");
        } else {
            out.append(" channels");
        }
    }
    assert(out@ =~= old(out)@ + channels_piece(*a));
}

/// Append the sample rate, where it is known.
fn push_sample_rate(out: &mut String, hz: Option<u32>)
    ensures
        final(out)@ == old(out)@ + sample_rate_piece(hz),
{
    if let Some(hz) = hz {
        out.append(", ");
        out.append(format_khz(hz).as_str());
        out.append(" kHz");
    }
    assert(out@ =~= old(out)@ + sample_rate_piece(hz));
}

/// Append a bitrate, where it is known.
fn push_bitrate(out: &mut String, bps: Option<u64>)
    ensures
        final(out)@ == old(out)@ + bitrate_piece(bps),
{
    if let Some(bps) = bps {
        out.append(", ");
        out.append(format_bitrate(bps).as_str());
    }
    assert(out@ =~= old(out)@ + bitrate_piece(bps));
}

/// Render an audio stream on one line.
pub fn render_audio(a: &AudioInfo) -> (r: String)
    ensures
        r@ == audio_text(*a),
{
    let mut line = a.codec.to_string();
    push_channels(&mut line, a);
    push_sample_rate(&mut line, a.sample_rate_hz);
    push_bitrate(&mut line, a.bitrate_bps);
    let ghost seen = line@;
    if let Some(language) = &a.language {
        line.append(" (");
        line.append(language.as_str());
        line.append(")");
    }
    assert(line@ =~= seen + language_piece(a.language));
    line
}

/// Append the audio streams, one line each.
fn push_audio_lines(out: &mut String, audio: &Vec<AudioInfo>)
    ensures
        final(out)@ == old(out)@ + audio_lines(audio@),
{
    let ghost start = out@;
    assert(start + audio_lines(audio@.take(0)) =~= start);
    for i in 0..audio.len()
        invariant
            out@ == start + audio_lines(audio@.take(i as int)),
    {
        assert(audio@.take(i + 1).drop_last() == audio@.take(i as int));
        out.append("\nAudio ");
        text::push_decimal(out, i as u64 + 1);
        out.append(":   ");
        out.append(render_audio(&audio[i]).as_str());
        assert(out@ =~= start + audio_lines(audio@.take(i + 1)));
    }
    assert(audio@.take(audio@.len() as int) == audio@);
}

/// Append a file's size and duration, where they are known.
fn push_extent(out: &mut String, p: &MediaProfile)
    ensures
        final(out)@ == old(out)@ + file_size_piece(p.file_size_bytes) + duration_piece(
            p.duration_secs,
        ),
{
    if let Some(bytes) = p.file_size_bytes {
        out.append(", ");
        out.append(format_bytes(bytes).as_str());
    }
    assert(out@ =~= old(out)@ + file_size_piece(p.file_size_bytes));
    let ghost seen = out@;
    if let Some(secs) = p.duration_secs {
        out.append(", ");
        out.append(format_duration(secs).as_str());
    }
    assert(out@ =~= seen + duration_piece(p.duration_secs));
}

/// Produce the human-readable block for a single file.
pub fn render_profile(path: &str, profile: &MediaProfile) -> (r: String)
    ensures
        r@ == profile_text(path@, *profile),
{
    let mut out = "File:      ".to_owned();
    out.append(path);
    out.append("\nContainer: ");
    out.append(profile.container.to_string().as_str());
    push_extent(&mut out, profile);
    push_bitrate(&mut out, profile.bitrate_bps);
    out.append("\nVideo:     ");
    out.append(render_video(&profile.video).as_str());
    if profile.audio.len() == 0 {
        out.append("\nAudio:     (none)");
    } else {
        push_audio_lines(&mut out, &profile.audio);
    }
    out
}

// ---------------------------------------------------------------------------
// Assessments
// ---------------------------------------------------------------------------

/// What an issue is called.
pub open spec fn issue_text(issue: Issue) -> Seq<char> {
    match issue {
        Issue::LegacyVideoCodec(codec) => "legacy video codec ("@ + codec.label() + ")"@,
        Issue::LegacyAudioCodec(codec) => "legacy audio codec ("@ + codec.label() + ")"@,
        Issue::LegacyContainer(container) => "legacy container ("@ + container.label() + ")"@,
        Issue::MissingSeekIndex => "missing seek index"@,
        Issue::Interlaced => "interlaced source"@,
        Issue::NonModernPixelFormat => "non-modern pixel format"@,
        Issue::BitrateExcessive { actual, threshold } => {
            "excessive bitrate ("@ + bitrate_text(actual) + ", threshold "@ + bitrate_text(
                threshold,
            ) + ")"@
        },
        Issue::ResolutionWasteful => "wasteful resolution"@,
        Issue::NonSquarePixels(sar) => {
            "non-square pixels (SAR "@ + text::decimal(sar.num as nat) + ":"@ + text::decimal(
                sar.den as nat,
            ) + ")"@
        },
        Issue::AudioCodecIncompatibleWithTargetContainer => {
            "audio codec incompatible with target container"@
        },
    }
}

/// The issues, one line each, in a column.
pub open spec fn issue_lines(issues: Seq<Issue>) -> Seq<char>
    decreases issues.len(),
{
    if issues.len() == 0 {
        Seq::empty()
    } else if issues.len() == 1 {
        "Issues:    "@ + issue_text(issues[0])
    } else {
        issue_lines(issues.drop_last()) + "\n           "@ + issue_text(issues.last())
    }
}

/// Append what an issue is called.
fn push_issue(out: &mut String, issue: &Issue)
    ensures
        final(out)@ == old(out)@ + issue_text(*issue),
{
    match issue {
        Issue::LegacyVideoCodec(codec) => {
            out.append("legacy video codec (");
            out.append(codec.to_string().as_str());
            out.append(")");
        },
        Issue::LegacyAudioCodec(codec) => {
            out.append("legacy audio codec (");
            out.append(codec.to_string().as_str());
            out.append(")");
        },
        Issue::LegacyContainer(container) => {
            out.append("legacy container (");
            out.append(container.to_string().as_str());
            out.append(")");
        },
        Issue::MissingSeekIndex => {
            out.append("missing seek index");
        },
        Issue::Interlaced => {
            out.append("interlaced source");
        },
        Issue::NonModernPixelFormat => {
            out.append("non-modern pixel format");
        },
        Issue::BitrateExcessive { actual, threshold } => {
            out.append("excessive bitrate (");
            out.append(format_bitrate(*actual).as_str());
            out.append(", threshold ");
            out.append(format_bitrate(*threshold).as_str());
            out.append(")");
        },
        Issue::ResolutionWasteful => {
            out.append("wasteful resolution");
        },
        Issue::NonSquarePixels(sar) => {
            out.append("non-square pixels (SAR ");
            text::push_decimal(out, sar.num as u64);
            out.append(":");
            text::push_decimal(out, sar.den as u64);
            out.append(")");
        },
        Issue::AudioCodecIncompatibleWithTargetContainer => {
            out.append("audio codec incompatible with target container");
        },
    }
    assert(out@ =~= old(out)@ + issue_text(*issue));
}

/// Produce the `Issues:` block, unless there are none.
pub fn render_assessment(assessment: &Assessment) -> (r: Option<String>)
    ensures
        text::opt_text(r) == (if assessment.issues@.len() == 0 {
            None
        } else {
            Some(issue_lines(assessment.issues@))
        }),
{
    let issues = &assessment.issues;
    if issues.len() == 0 {
        return None;
    }
    let mut out = String::new();
    assert(out@ =~= issue_lines(issues@.take(0)));
    for i in 0..issues.len()
        invariant
            out@ == issue_lines(issues@.take(i as int)),
    {
        assert(issues@.take(i + 1).drop_last() == issues@.take(i as int));
        if i == 0 {
            out.append("Issues:    ");
        } else {
            out.append("\n           ");
        }
        push_issue(&mut out, &issues[i]);
        assert(out@ =~= issue_lines(issues@.take(i + 1)));
    }
    assert(issues@.take(issues@.len() as int) == issues@);
    Some(out)
}

// ---------------------------------------------------------------------------
// Recipes
// ---------------------------------------------------------------------------

/// What happens to the video.
pub open spec fn strategy_text(strategy: VideoStrategyView) -> Seq<char> {
    match strategy {
        VideoStrategyView::Copy => "Remux without re-encoding (stream copy)"@,
        VideoStrategyView::ReencodeX264 { crf, preset } => {
            "Re-encode video to H.264 (CRF "@ + text::decimal(crf as nat) + ", "@ + preset
                + " preset)"@
        },
        VideoStrategyView::ReencodeX265 { crf, preset } => {
            "Re-encode video to H.265 (CRF "@ + text::decimal(crf as nat) + ", "@ + preset
                + " preset)"@
        },
        VideoStrategyView::ReencodeX264Abr { target_bps, preset, .. } => {
            "Re-encode video to H.264 ("@ + bitrate_text(target_bps) + " average, "@ + preset
                + " preset)"@
        },
        VideoStrategyView::ReencodeX265Abr { target_bps, preset, .. } => {
            "Re-encode video to H.265 ("@ + bitrate_text(target_bps) + " average, "@ + preset
                + " preset)"@
        },
    }
}

/// What a filter does.
pub open spec fn filter_step(filter: VideoFilter) -> Seq<char> {
    match filter {
        VideoFilter::Bwdif => "Deinterlace with bwdif"@,
        VideoFilter::FieldmatchDecimate => "Inverse telecine with fieldmatch and decimate"@,
        VideoFilter::Scale { width, height } => "Scale to "@ + size_by(width, height),
        VideoFilter::SetSar { num, den } => if num == 1 && den == 1 {
            "Set square pixel aspect ratio"@
        } else {
            "Set pixel aspect ratio "@ + text::decimal(num as nat) + ":"@ + text::decimal(
                den as nat,
            )
        },
    }
}

/// What the filters do, one line each.
pub open spec fn filter_steps(filters: Seq<VideoFilter>) -> Seq<char>
    decreases filters.len(),
{
    if filters.len() == 0 {
        Seq::empty()
    } else {
        filter_steps(filters.drop_last()) + "\n           "@ + filter_step(filters.last())
    }
}

/// What happens to the audio, on a line of its own. Where everything is
/// copied nothing needs saying.
pub open spec fn audio_step(recipe: RecipeView) -> Seq<char> {
    match recipe.audio_strategy {
        AudioStrategy::Copy => if recipe.video_strategy is Copy {
            Seq::empty()
        } else {
            "\n           Copy audio"@
        },
        AudioStrategy::AacStereo { bitrate_bps } => {
            "\n           Downmix audio to AAC stereo "@ + bitrate_text(bitrate_bps)
        },
        AudioStrategy::AacMultichannel { bitrate_bps } => {
            "\n           Re-encode audio to AAC multichannel "@ + bitrate_text(bitrate_bps)
        },
    }
}

/// A recipe, under what it begins with.
pub open spec fn plan_text(headline: Seq<char>, recipe: RecipeView, output: Seq<char>) -> Seq<
    char,
> {
    "Plan:      "@ + headline + " in "@ + recipe.output_container.label() + filter_steps(
        recipe.video_filters,
    ) + audio_step(recipe) + "\n           Output: "@ + output
}

/// The recipe for one input.
pub open spec fn recipe_text(recipe: RecipeView, output: Seq<char>) -> Seq<char> {
    plan_text(strategy_text(recipe.video_strategy), recipe, output)
}

/// The recipe for joining inputs.
pub open spec fn concat_recipe_text(recipe: RecipeView, inputs: nat, output: Seq<char>) -> Seq<
    char,
> {
    plan_text(
        "Concat "@ + text::decimal(inputs) + " inputs via demuxer (stream copy)"@,
        recipe,
        output,
    )
}

/// The recipe for an upgrade in place, and what becomes of the original.
pub open spec fn upgrade_recipe_text(
    recipe: RecipeView,
    input: Seq<char>,
    output: Seq<char>,
    backup: Option<Seq<char>>,
) -> Seq<char> {
    recipe_text(recipe, output) + "\n           Original "@ + input + (match backup {
        Some(backup) => " will be renamed to "@ + backup,
        None => " will be preserved unchanged"@,
    })
}

/// What happens to the video.
fn describe_strategy(strategy: &VideoStrategy) -> (r: String)
    ensures
        r@ == strategy_text(strategy@),
{
    match strategy {
        VideoStrategy::Copy => "Remux without re-encoding (stream copy)".to_owned(),
        VideoStrategy::ReencodeX264 { crf, preset } => {
            let mut out = "Re-encode video to H.264 (CRF ".to_owned();
            text::push_decimal(&mut out, *crf as u64);
            out.append(", ");
            out.append(preset.as_str());
            out.append(" preset)");
            out
        },
        VideoStrategy::ReencodeX265 { crf, preset } => {
            let mut out = "Re-encode video to H.265 (CRF ".to_owned();
            text::push_decimal(&mut out, *crf as u64);
            out.append(", ");
            out.append(preset.as_str());
            out.append(" preset)");
            out
        },
        VideoStrategy::ReencodeX264Abr { target_bps, preset, .. } => {
            let mut out = "Re-encode video to H.264 (".to_owned();
            out.append(format_bitrate(*target_bps).as_str());
            out.append(" average, ");
            out.append(preset.as_str());
            out.append(" preset)");
            out
        },
        VideoStrategy::ReencodeX265Abr { target_bps, preset, .. } => {
            let mut out = "Re-encode video to H.265 (".to_owned();
            out.append(format_bitrate(*target_bps).as_str());
            out.append(" average, ");
            out.append(preset.as_str());
            out.append(" preset)");
            out
        },
    }
}

/// Append what a filter does.
fn push_filter_step(out: &mut String, filter: &VideoFilter)
    ensures
        final(out)@ == old(out)@ + filter_step(*filter),
{
    match filter {
        VideoFilter::Bwdif => {
            out.append("Deinterlace with bwdif");
        },
        VideoFilter::FieldmatchDecimate => {
            out.append("Inverse telecine with fieldmatch and decimate");
        },
        VideoFilter::Scale { width, height } => {
            out.append("Scale to ");
            push_size_by(out, *width, *height);
        },
        VideoFilter::SetSar { num, den } => {
            if *num == 1 && *den == 1 {
                out.append("Set square pixel aspect ratio");
            } else {
                out.append("Set pixel aspect ratio ");
                text::push_decimal(out, *num as u64);
                out.append(":");
                text::push_decimal(out, *den as u64);
            }
        },
    }
    assert(out@ =~= old(out)@ + filter_step(*filter));
}

/// Append what the filters do, one line each.
fn push_filter_steps(out: &mut String, filters: &Vec<VideoFilter>)
    ensures
        final(out)@ == old(out)@ + filter_steps(filters@),
{
    let ghost start = out@;
    assert(start + filter_steps(filters@.take(0)) =~= start);
    for i in 0..filters.len()
        invariant
            out@ == start + filter_steps(filters@.take(i as int)),
    {
        assert(filters@.take(i + 1).drop_last() == filters@.take(i as int));
        out.append("\n           ");
        push_filter_step(out, &filters[i]);
        assert(out@ =~= start + filter_steps(filters@.take(i + 1)));
    }
    assert(filters@.take(filters@.len() as int) == filters@);
}

/// Append what happens to the audio.
fn push_audio_step(out: &mut String, recipe: &EncodeRecipe)
    ensures
        final(out)@ == old(out)@ + audio_step(recipe@),
{
    match recipe.audio_strategy {
        AudioStrategy::Copy => {
            if !matches!(recipe.video_strategy, VideoStrategy::Copy) {
                out.append("\n           Copy audio");
            }
        },
        AudioStrategy::AacStereo { bitrate_bps } => {
            out.append("\n           Downmix audio to AAC stereo ");
            out.append(format_bitrate(bitrate_bps).as_str());
        },
        AudioStrategy::AacMultichannel { bitrate_bps } => {
            out.append("\n           Re-encode audio to AAC multichannel ");
            out.append(format_bitrate(bitrate_bps).as_str());
        },
    }
    assert(out@ =~= old(out)@ + audio_step(recipe@));
}

/// Render a recipe under what it begins with.
fn render_plan(headline: &str, recipe: &EncodeRecipe, output: &str) -> (r: String)
    ensures
        r@ == plan_text(headline@, recipe@, output@),
{
    let mut out = "Plan:      ".to_owned();
    out.append(headline);
    out.append(" in ");
    out.append(recipe.output_container.to_string().as_str());
    push_filter_steps(&mut out, &recipe.video_filters);
    push_audio_step(&mut out, recipe);
    out.append("\n           Output: ");
    out.append(output);
    out
}

/// Produce the `Plan:` block for one input.
pub fn render_recipe(recipe: &EncodeRecipe, output: &str) -> (r: String)
    ensures
        r@ == recipe_text(recipe@, output@),
{
    render_plan(describe_strategy(&recipe.video_strategy).as_str(), recipe, output)
}

/// Produce the `Plan:` block for joining inputs.
pub fn render_concat_recipe(recipe: &EncodeRecipe, inputs: &[String], output: &str) -> (r: String)
    ensures
        r@ == concat_recipe_text(recipe@, inputs@.len(), output@),
{
    let mut headline = "Concat ".to_owned();
    text::push_decimal(&mut headline, inputs.len() as u64);
    headline.append(" inputs via demuxer (stream copy)");
    render_plan(headline.as_str(), recipe, output)
}

/// Produce the `Plan:` block for an upgrade in place.
pub fn render_upgrade_recipe(
    recipe: &EncodeRecipe,
    input: &str,
    output: &str,
    backup: &Option<String>,
) -> (r: String)
    ensures
        r@ == upgrade_recipe_text(recipe@, input@, output@, text::opt_text(*backup)),
{
    let mut out = render_recipe(recipe, output);
    out.append("\n           Original ");
    out.append(input);
    let ghost seen = out@;
    match backup {
        Some(backup) => {
            out.append(" will be renamed to ");
            out.append(backup.as_str());
            assert(out@ =~= seen + (" will be renamed to "@ + backup@));
        },
        None => {
            out.append(" will be preserved unchanged");
        },
    }
    out
}

// ---------------------------------------------------------------------------
// Results
// ---------------------------------------------------------------------------

/// How the size has changed, in whole percent of `before`.
pub open spec fn change_text(before: u64, after: u64) -> Seq<char> {
    if after < before {
        text::decimal(
            binary64::round_half_up((100 * (before - after)) as nat, before as nat),
        ) + "% smaller"@
    } else if after > before {
        text::decimal(
            binary64::round_half_up((100 * (after - before)) as nat, before as nat),
        ) + "% larger"@
    } else {
        "same size"@
    }
}

/// The sizes before and after, and the time that it took.
pub open spec fn outcome_text(before: Option<u64>, after: u64, elapsed: Seconds) -> Seq<char> {
    (match before {
        Some(before) => size_text(before) + " → "@ + size_text(after) + (if before > 0 {
            ", "@ + change_text(before, after)
        } else {
            Seq::empty()
        }),
        None => size_text(after),
    }) + ", "@ + duration_text(elapsed)
}

/// The line that reports success.
pub open spec fn completion_text(
    output: Seq<char>,
    before: Option<u64>,
    after: u64,
    elapsed: Seconds,
) -> Seq<char> {
    "Done. Wrote "@ + output + " ("@ + outcome_text(before, after, elapsed) + ")."@
}

/// The line that reports that inputs were joined.
pub open spec fn concat_completion_text(
    output: Seq<char>,
    inputs: nat,
    before: Option<u64>,
    after: u64,
    elapsed: Seconds,
) -> Seq<char> {
    "Done. Joined "@ + text::decimal(inputs) + " inputs into "@ + output + " ("@ + outcome_text(
        before,
        after,
        elapsed,
    ) + ")."@
}

/// How the size has changed, in whole percent of `before`.
fn describe_change(before: u64, after: u64) -> (r: String)
    requires
        before > 0,
    ensures
        r@ == change_text(before, after),
{
    if after == before {
        return "same size".to_owned();
    }
    let difference = if after < before {
        before - after
    } else {
        after - before
    };
    let percent = binary64::half_up(100 * difference as u128, before as u128);
    let mut out = String::new();
    push_wide(&mut out, percent);
    if after < before {
        out.append("% smaller");
    } else {
        out.append("% larger");
    }
    assert(out@ =~= change_text(before, after));
    out
}

/// Append `n` in decimal.
fn push_wide(out: &mut String, n: u128)
    ensures
        final(out)@ == old(out)@ + text::decimal(n as nat),
    decreases n,
{
    if n >= 10 {
        push_wide(out, n / 10);
    }
    text::push_digit(out, (n % 10) as u8);
    assert(out@ =~= old(out)@ + text::decimal(n as nat));
}

/// The sizes before and after, and the time that it took.
fn describe_outcome(before: Option<u64>, after: u64, elapsed: Seconds) -> (r: String)
    ensures
        r@ == outcome_text(before, after, elapsed),
{
    let mut out = match before {
        Some(before) => {
            let mut out = format_size(before);
            out.append(" → ");
            out.append(format_size(after).as_str());
            let ghost seen = out@;
            if before > 0 {
                out.append(", ");
                out.append(describe_change(before, after).as_str());
                assert(out@ =~= seen + (", "@ + change_text(before, after)));
            } else {
                assert(out@ =~= seen + Seq::<char>::empty());
            }
            out
        },
        None => format_size(after),
    };
    out.append(", ");
    out.append(format_duration(elapsed).as_str());
    out
}

/// Produce the line that reports success.
pub fn render_completion_summary(
    output: &str,
    input_size: Option<u64>,
    output_size: u64,
    elapsed: Seconds,
) -> (r: String)
    ensures
        r@ == completion_text(output@, input_size, output_size, elapsed),
{
    let mut out = "Done. Wrote ".to_owned();
    out.append(output);
    out.append(" (");
    out.append(describe_outcome(input_size, output_size, elapsed).as_str());
    out.append(").");
    out
}

/// Produce the line that reports that inputs were joined.
pub fn render_concat_completion_summary(
    output: &str,
    inputs: usize,
    total_input_size: Option<u64>,
    output_size: u64,
    elapsed: Seconds,
) -> (r: String)
    ensures
        r@ == concat_completion_text(
            output@,
            inputs as nat,
            total_input_size,
            output_size,
            elapsed,
        ),
{
    let mut out = "Done. Joined ".to_owned();
    text::push_decimal(&mut out, inputs as u64);
    out.append(" inputs into ");
    out.append(output);
    out.append(" (");
    out.append(describe_outcome(total_input_size, output_size, elapsed).as_str());
    out.append(").");
    out
}

} // verus!
