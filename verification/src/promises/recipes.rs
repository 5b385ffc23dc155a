//! What stands in the recipe that planning returns.

use vstd::prelude::*;

use crate::assess::Issue;
use crate::binary64;
use crate::error::ErrorView;
use crate::model::{Container, MediaProfile};
use crate::plan;
use crate::plan::{
    AudioStrategy, Intent, Overrides, RecipeView, VideoCodecChoice, VideoFilter, VideoStrategyView,
};

verus! {

/// A cap on the height holds whatever else is asked for: the picture is
/// scaled to the largest even height up to the cap, and to the largest even
/// width that the display aspect ratio leaves at the cap.
pub proof fn law_shrinking_caps_the_height(
    profile: MediaProfile,
    issues: Seq<Issue>,
    overrides: Overrides,
    cap: u32,
    target: Option<u64>,
)
    requires
        cap < profile.video.height,
    ensures
        ({
            let intent = Intent::Shrink { max_height: Some(cap), target_bitrate_bps: target };
            let video = profile.video;
            &&& plan::planned(profile, issues, intent, overrides) matches Ok(recipe)
            &&& exists|i: int|
                0 <= i < recipe.video_filters.len() && (#[trigger] recipe.video_filters[i] matches VideoFilter::Scale {
                width,
                height,
            } && height % 2 == 0 && height <= cap < height + 2 && width % 2 == 0 && width
                * video.height <= video.display_width() * cap < (width + 2) * video.height)
            &&& forall|i: int, j: int|
                0 <= i < j < recipe.video_filters.len() ==> !(#[trigger] recipe.video_filters[i] is Scale
                    && #[trigger] recipe.video_filters[j] is Scale)
        }),
{
    let video = profile.video;
    let intent = Intent::Shrink { max_height: Some(cap), target_bitrate_bps: target };
    let recipe = plan::planned(profile, issues, intent, overrides)->Ok_0;
    lemma_scale(profile, Some(cap));
    let i: int = if video.field_order.interlaced() {
        1
    } else {
        0
    };
    assert(recipe.video_filters[i] is Scale);
}

/// The size of the scale filter.
proof fn lemma_scale(profile: MediaProfile, cap: Option<u32>)
    requires
        profile.video.height > 0,
    ensures
        ({
            let video = profile.video;
            let out = plan::height_out(video, cap);
            &&& plan::scale_filter(video, cap) matches VideoFilter::Scale { width, height }
            &&& height % 2 == 0 && height <= out < height + 2
            &&& width % 2 == 0 && width * video.height <= video.display_width() * out < (width + 2)
                * video.height
        }),
{
    let video = profile.video;
    let out = plan::height_out(video, cap);
    let w = plan::width_out(video, cap) as int;
    let h = video.height as int;
    let product = video.display_width() as int * out as int;
    plan::lemma_width_out(video, cap);
    plan::law_scaling_keeps_the_aspect_ratio(video, cap);
    let even = w - w % 2;
    assert(w * h <= product < (w + 1) * h);
    assert(even * h <= product < (even + 2) * h) by (nonlinear_arith)
        requires
            even <= w < even + 2,
            0 < h,
            w * h <= product < (w + 1) * h,
    ;
}

/// Whatever is encoded anew is deinterlaced exactly where it is interlaced,
/// scaled exactly where it is too high or its pixels are not square, and
/// declared square exactly where its pixels were not; in this order, and
/// with no other filter. A picture whose height is not known is not scaled.
pub proof fn law_filters(
    profile: MediaProfile,
    issues: Seq<Issue>,
    intent: Intent,
    overrides: Overrides,
)
    requires
        intent is Reencode || intent is Shrink,
    ensures
        plan::planned(profile, issues, intent, overrides) matches Ok(recipe) ==> ({
            let video = profile.video;
            let filters = recipe.video_filters;
            let cap = match intent {
                Intent::Shrink { max_height, .. } => max_height,
                _ => None,
            };
            let lower = cap is Some && cap->0 < video.height;
            let out = if lower {
                cap->0
            } else {
                video.height
            };
            let woven = video.field_order is InterlacedTopFirst || video.field_order is InterlacedBottomFirst;
            let oblong = video.height > 0 && video.sar is Some && video.sar->0.num
                != video.sar->0.den;
            let first: int = if woven {
                1
            } else {
                0
            };
            &&& filters.len() == first + (if oblong {
                2int
            } else if lower {
                1
            } else {
                0
            })
            &&& woven ==> filters[0] is Bwdif
            &&& oblong || lower ==> (filters[first] matches VideoFilter::Scale { width, height }
                && height % 2 == 0 && height <= out < height + 2 && width % 2 == 0 && width
                * video.height <= video.display_width() * out < (width + 2) * video.height)
            &&& oblong ==> filters[first + 1] == (VideoFilter::SetSar { num: 1, den: 1 })
        }),
{
    if profile.video.height > 0 {
        match intent {
            Intent::Shrink { max_height, .. } => lemma_scale(profile, max_height),
            _ => lemma_scale(profile, None),
        }
    }
}

/// With a target, shrinking asks for that average bitrate, for peaks of at
/// most a quarter more and for a buffer of two seconds. Without one it asks
/// for the CRF of the user, or else for one that rises by one above 720 lines
/// and by one more above 1080, from 22 for x264 and from 24 for x265.
pub proof fn law_shrinking_rate(
    profile: MediaProfile,
    issues: Seq<Issue>,
    overrides: Overrides,
    max_height: Option<u32>,
    target: Option<u64>,
)
    requires
        target matches Some(bps) ==> 2 * bps <= u64::MAX,
    ensures
        ({
            let intent = Intent::Shrink { max_height, target_bitrate_bps: target };
            plan::planned(profile, issues, intent, overrides) matches Ok(recipe) ==> ({
                let s = recipe.video_strategy;
                let h264 = overrides.video_codec == Some(VideoCodecChoice::X264);
                let lines = if max_height is Some && max_height->0 < profile.video.height {
                    max_height->0
                } else {
                    profile.video.height
                };
                let rise: int = (if lines > 720 {
                    1int
                } else {
                    0
                }) + (if lines > 1080 {
                    1int
                } else {
                    0
                });
                &&& target is Some && h264 ==> (s matches VideoStrategyView::ReencodeX264Abr {
                    target_bps,
                    max_bps,
                    bufsize_bps,
                    preset,
                } && target_bps == target->0 && 4 * max_bps <= 5 * target_bps < 4 * max_bps + 4
                    && bufsize_bps == 2 * target_bps && is_preset(overrides, preset, "slow"@))
                &&& target is Some && !h264 ==> (s matches VideoStrategyView::ReencodeX265Abr {
                    target_bps,
                    max_bps,
                    bufsize_bps,
                    preset,
                } && target_bps == target->0 && 4 * max_bps <= 5 * target_bps < 4 * max_bps + 4
                    && bufsize_bps == 2 * target_bps && is_preset(overrides, preset, "slow"@))
                &&& target is None && h264 ==> (s matches VideoStrategyView::ReencodeX264 {
                    crf,
                    preset,
                } && crf == (if overrides.crf is Some {
                    overrides.crf->0 as int
                } else {
                    22 + rise
                }) && is_preset(overrides, preset, "slow"@))
                &&& target is None && !h264 ==> (s matches VideoStrategyView::ReencodeX265 {
                    crf,
                    preset,
                } && crf == (if overrides.crf is Some {
                    overrides.crf->0 as int
                } else {
                    24 + rise
                }) && is_preset(overrides, preset, "slow"@))
            })
        }),
{
}

/// Whether `preset` is the user's, or `usual` where they named none.
pub open spec fn is_preset(overrides: Overrides, preset: Seq<char>, usual: Seq<char>) -> bool {
    if overrides.preset is Some {
        preset == overrides.preset->0@
    } else {
        preset == usual
    }
}

/// A re-encode asks for constant quality: by x265 above 1080 lines and for
/// HDR, else by x264, at a CRF of 20 for x264 and of 22 for x265, and of one
/// more above 720 and above 1080 lines. What the user named goes before all
/// of this.
pub proof fn law_reencoding_quality(
    profile: MediaProfile,
    issues: Seq<Issue>,
    overrides: Overrides,
)
    ensures
        plan::planned(profile, issues, Intent::Reencode, overrides) matches Ok(recipe) && ({
            let s = recipe.video_strategy;
            let h265 = if overrides.video_codec is Some {
                overrides.video_codec->0 is X265
            } else {
                profile.video.height > 1080 || profile.video.is_hdr
            };
            &&& !h265 ==> (s matches VideoStrategyView::ReencodeX264 { crf, preset } && crf == (
            if overrides.crf is Some {
                overrides.crf->0 as int
            } else if profile.video.height > 720 {
                21
            } else {
                20
            }) && is_preset(overrides, preset, "medium"@))
            &&& h265 ==> (s matches VideoStrategyView::ReencodeX265 { crf, preset } && crf == (
            if overrides.crf is Some {
                overrides.crf->0 as int
            } else if profile.video.height > 1080 {
                23
            } else {
                22
            }) && is_preset(overrides, preset, "medium"@))
        }),
{
}

/// Left to itself, planning re-encodes exactly where some issue is neither an
/// old container nor a missing index, and then as if asked to; else it copies
/// as if asked to.
pub proof fn law_auto(profile: MediaProfile, issues: Seq<Issue>, overrides: Overrides)
    ensures
        plan::planned(profile, issues, Intent::Auto, overrides) == plan::planned(
            profile,
            issues,
            if exists|i: int|
                0 <= i < issues.len() && !(#[trigger] issues[i] is LegacyContainer)
                    && !(issues[i] is MissingSeekIndex) {
                Intent::Reencode
            } else {
                Intent::Remux
            },
            overrides,
        ),
{
    if exists|i: int|
        0 <= i < issues.len() && !(#[trigger] issues[i] is LegacyContainer)
            && !(issues[i] is MissingSeekIndex) {
        let i = choose|i: int|
            0 <= i < issues.len() && !(#[trigger] issues[i] is LegacyContainer)
                && !(issues[i] is MissingSeekIndex);
        assert(issues[i].needs_reencode());
    }
}

/// A remux and a join copy every stream as it is, into the container asked
/// for or else Matroska.
pub proof fn law_copying(
    profile: MediaProfile,
    issues: Seq<Issue>,
    overrides: Overrides,
    inputs: Seq<String>,
    profiles: Seq<MediaProfile>,
)
    ensures
        plan::planned(profile, issues, Intent::Remux, overrides) matches Ok(recipe) && (
        copies_all(recipe, overrides) && recipe.concat is None),
        plan::concat_planned(inputs, profiles, overrides) matches Ok(recipe) ==> (copies_all(
            recipe,
            overrides,
        ) && recipe.concat is Some),
        plan::planned(profile, issues, Intent::Concat, overrides) is Err,
{
}

/// Whether the recipe copies every stream.
pub open spec fn copies_all(recipe: RecipeView, overrides: Overrides) -> bool {
    &&& recipe.video_strategy is Copy
    &&& recipe.audio_strategy is Copy
    &&& recipe.video_filters.len() == 0
    &&& recipe.output_container == (if overrides.container is Some {
        overrides.container->0
    } else {
        Container::Mkv
    })
    &&& recipe.output_container is Mp4 ==> recipe.extra_flags == seq!["-movflags"@, "+faststart"@]
    &&& !(recipe.output_container is Mp4) ==> recipe.extra_flags.len() == 0
}

/// A re-encode copies the first audio track exactly where it is AAC and may
/// keep its channels; what is encoded anew keeps more than two channels
/// exactly where that was asked for, at 384 kbps, and else is stereo at 192.
/// An unknown number of channels counts as two.
pub proof fn law_reencoding_audio(
    profile: MediaProfile,
    issues: Seq<Issue>,
    overrides: Overrides,
)
    ensures
        plan::planned(profile, issues, Intent::Reencode, overrides) matches Ok(recipe)
            && encodes_audio(profile, overrides, recipe.audio_strategy),
{
}

/// How the audio of a re-encode is treated.
pub open spec fn encodes_audio(
    profile: MediaProfile,
    overrides: Overrides,
    strategy: AudioStrategy,
) -> bool {
    let track = profile.audio@[0];
    let surround = track.channels is Some && track.channels->0 > 2;
    let kept = !surround || overrides.keep_multichannel_audio;
    if profile.audio@.len() == 0 || (track.codec is Aac && kept) {
        strategy is Copy
    } else if surround && kept {
        strategy == (AudioStrategy::AacMultichannel { bitrate_bps: 384_000 })
    } else {
        strategy == (AudioStrategy::AacStereo { bitrate_bps: 192_000 })
    }
}

/// Shrinking copies the first audio track wherever the container takes its
/// codec: Matroska takes every one; MP4 and QuickTime take AAC, MP3, FLAC,
/// ALAC and E-AC-3; WebM takes Opus and Vorbis; and no other container is
/// relied on. Else the audio is treated as in a re-encode.
pub proof fn law_shrinking_audio(
    profile: MediaProfile,
    issues: Seq<Issue>,
    overrides: Overrides,
    max_height: Option<u32>,
    target: Option<u64>,
)
    ensures
        ({
            let intent = Intent::Shrink { max_height, target_bitrate_bps: target };
            plan::planned(profile, issues, intent, overrides) matches Ok(recipe) ==> ({
                let c = recipe.output_container;
                let codec = profile.audio@[0].codec;
                let taken = c is Mkv || ((c is Mp4 || c is Mov) && (codec is Aac || codec is Mp3
                    || codec is Flac || codec is Alac || codec is Eac3)) || (c is WebM && (
                codec is Opus || codec is Vorbis));
                &&& c == (if overrides.container is Some {
                    overrides.container->0
                } else {
                    Container::Mkv
                })
                &&& profile.audio@.len() > 0 && taken ==> recipe.audio_strategy is Copy
                &&& !(profile.audio@.len() > 0 && taken) ==> encodes_audio(
                    profile,
                    overrides,
                    recipe.audio_strategy,
                )
            })
        }),
{
}

/// Whatever is encoded anew keeps a full color range, loses color resolution
/// exactly where MP4 players could not show it, and starts fast exactly in
/// MP4. It goes to the container asked for, or else Matroska, and there are
/// no other flags.
pub proof fn law_extra_flags(
    profile: MediaProfile,
    issues: Seq<Issue>,
    intent: Intent,
    overrides: Overrides,
)
    requires
        intent is Reencode || intent is Shrink,
    ensures
        plan::planned(profile, issues, intent, overrides) matches Ok(recipe) ==> ({
            let f = profile.video.pix_fmt;
            let full = f is Some && (f->0 is Yuvj420p || f->0 is Yuvj422p || f->0 is Yuvj444p);
            let rich = f is Some && (f->0 is Yuv422p || f->0 is Yuv422p10le || f->0 is Yuv444p
                || f->0 is Yuv444p10le || f->0 is Yuvj422p || f->0 is Yuvj444p);
            let mp4 = recipe.output_container is Mp4;
            let e = recipe.extra_flags;
            &&& recipe.output_container == (if overrides.container is Some {
                overrides.container->0
            } else {
                Container::Mkv
            })
            &&& recipe.concat is None
            &&& e.len() == (if full {
                2int
            } else {
                0
            }) + (if mp4 {
                2int
            } else {
                0
            }) + (if mp4 && rich {
                2int
            } else {
                0
            })
            &&& full ==> e.take(2) == seq!["-color_range"@, "pc"@]
            &&& mp4 ==> e.skip(e.len() - 2) == seq!["-movflags"@, "+faststart"@]
            &&& mp4 && rich ==> e.subrange(e.len() - 4, e.len() - 2) == seq![
                "-pix_fmt"@,
                "yuv420p"@,
            ]
        }),
{
    if plan::planned(profile, issues, intent, overrides) is Ok {
        let recipe = plan::planned(profile, issues, intent, overrides)->Ok_0;
        let e = recipe.extra_flags;
        let mp4 = recipe.output_container is Mp4;
        if plan::full_range(profile.video) {
            assert(e.take(2) =~= seq!["-color_range"@, "pc"@]);
        }
        if mp4 {
            assert(e.skip(e.len() - 2) =~= seq!["-movflags"@, "+faststart"@]);
            if plan::rich_chroma(profile.video) {
                assert(e.subrange(e.len() - 4, e.len() - 2) =~= seq!["-pix_fmt"@, "yuv420p"@]);
            }
        }
    }
}

/// Shrinking is refused exactly where nothing says how to: no cap below the
/// height, no target, and a known bitrate of at most 5 Mbps up to 1080 lines
/// or 15 Mbps above.
pub proof fn law_nothing_to_shrink(
    profile: MediaProfile,
    issues: Seq<Issue>,
    overrides: Overrides,
    max_height: Option<u32>,
    target: Option<u64>,
)
    ensures
        plan::planned(
            profile,
            issues,
            Intent::Shrink { max_height, target_bitrate_bps: target },
            overrides,
        ) is Err <==> {
            &&& max_height is None || profile.video.height <= max_height->0
            &&& target is None
            &&& profile.bitrate_bps is Some
            &&& profile.video.height <= 1080 ==> profile.bitrate_bps->0 <= 5_000_000
            &&& profile.video.height > 1080 ==> profile.bitrate_bps->0 <= 15_000_000
        },
{
}

/// Whether two inputs agree in everything that a join by copying needs. A
/// frame rate that is not known agrees with every other.
pub open spec fn joinable(a: MediaProfile, b: MediaProfile) -> bool {
    &&& a.video.codec.same(b.video.codec)
    &&& a.video.width == b.video.width
    &&& a.video.height == b.video.height
    &&& a.video.pix_fmt is Some <==> b.video.pix_fmt is Some
    &&& a.video.pix_fmt is Some ==> a.video.pix_fmt->0.same(b.video.pix_fmt->0)
    &&& a.video.framerate is Some && b.video.framerate is Some ==> !binary64::ratios_apart(
        a.video.framerate->0.num,
        a.video.framerate->0.den,
        b.video.framerate->0.num,
        b.video.framerate->0.den,
    )
    &&& a.audio@.len() == 0 <==> b.audio@.len() == 0
    &&& a.audio@.len() > 0 ==> a.audio@[0].codec.same(b.audio@[0].codec)
    &&& a.audio@.len() > 0 ==> a.audio@[0].channels == b.audio@[0].channels
    &&& a.audio@.len() > 0 ==> a.audio@[0].sample_rate_hz == b.audio@[0].sample_rate_hz
}

/// Inputs are joined exactly where there are two or more and each agrees with
/// the first; else the first that does not is named.
pub proof fn law_joining(
    inputs: Seq<String>,
    profiles: Seq<MediaProfile>,
    overrides: Overrides,
)
    ensures
        plan::concat_planned(inputs, profiles, overrides) is Ok <==> profiles.len() >= 2 && (forall|
            i: int,
        |
            1 <= i < profiles.len() ==> joinable(profiles[0], #[trigger] profiles[i])),
        profiles.len() >= 2 ==> (plan::concat_planned(inputs, profiles, overrides) matches Err(
            error,
        ) ==> (exists|k: int|
            1 <= k < profiles.len() && !joinable(profiles[0], #[trigger] profiles[k]) && (forall|
                i: int,
            |
                1 <= i < k ==> joinable(profiles[0], #[trigger] profiles[i])) && (
            error matches ErrorView::ConcatInputsDiffer { path, .. } && path == inputs[k]@))),
        profiles.len() < 2 && profiles.len() <= usize::MAX ==> plan::concat_planned(
            inputs,
            profiles,
            overrides,
        ) == Err::<RecipeView, ErrorView>(
            ErrorView::ConcatTooFewInputs(profiles.len() as usize),
        ),
{
    lemma_first_mismatch(profiles, 1);
}

/// Where the search for an input that does not agree ends.
proof fn lemma_first_mismatch(profiles: Seq<MediaProfile>, from: nat)
    requires
        from >= 1,
    ensures
        ({
            let at = plan::first_mismatch(profiles, from);
            &&& at <= profiles.len() || from > profiles.len()
            &&& from <= profiles.len() ==> from <= at
            &&& forall|i: int|
                from <= i < at ==> joinable(profiles[0], #[trigger] profiles[i])
            &&& at < profiles.len() ==> !joinable(profiles[0], profiles[at as int])
        }),
    decreases profiles.len() - from,
{
    if from < profiles.len() {
        assert(plan::mismatch(profiles[0], profiles[from as int]) is None <==> joinable(
            profiles[0],
            profiles[from as int],
        ));
        lemma_first_mismatch(profiles, from + 1);
    }
}

/// What a refused join says of two inputs is the first thing in which they do
/// not agree: codec, size, pixel format, frame rate, and then the audio.
pub proof fn law_mismatch_is_the_first(a: MediaProfile, b: MediaProfile)
    ensures
        plan::mismatch(a, b) is None <==> joinable(a, b),
        plan::mismatch(a, b) matches Some(why) ==> ({
            let (v, w) = (a.video, b.video);
            let (x, y) = (a.audio@, b.audio@);
            let sized = v.width == w.width && v.height == w.height;
            let formed = (v.pix_fmt is Some <==> w.pix_fmt is Some) && (v.pix_fmt is Some
                ==> v.pix_fmt->0.same(w.pix_fmt->0));
            let paced = v.framerate is Some && w.framerate is Some ==> !binary64::ratios_apart(
                v.framerate->0.num,
                v.framerate->0.den,
                w.framerate->0.num,
                w.framerate->0.den,
            );
            if !v.codec.same(w.codec) {
                begins(why, "video codec"@)
            } else if !sized {
                begins(why, "video resolution"@)
            } else if !formed {
                begins(why, "pixel format"@)
            } else if !paced {
                begins(why, "framerate"@)
            } else if x.len() == 0 {
                why == "audio tracks (reference has no audio, this input does)"@
            } else if y.len() == 0 {
                why == "audio tracks (reference has audio, this input does not)"@
            } else if !x[0].codec.same(y[0].codec) {
                begins(why, "audio codec"@)
            } else if x[0].channels != y[0].channels {
                begins(why, "audio channel count"@)
            } else {
                begins(why, "audio sample rate"@)
            }
        }),
{
    if let Some(why) = plan::mismatch(a, b) {
        assert forall|what: Seq<char>, p: Seq<char>, q: Seq<char>|
            why == #[trigger] plan::versus_text(what, p, q) implies begins(why, what) by {
            assert(why.take(what.len() as int) =~= what);
        }
    }
}

/// Whether `whole` begins with `part`.
pub open spec fn begins(whole: Seq<char>, part: Seq<char>) -> bool {
    part.len() <= whole.len() && whole.take(part.len() as int) == part
}

} // verus!
