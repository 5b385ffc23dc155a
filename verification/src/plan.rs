//! Planning: from a profile, its assessment and the user's wishes to an
//! [`EncodeRecipe`].
//!
//! - **Container:** Matroska unless one is asked for.
//! - **Video codec:** x264 by default; x265 above 1080 lines, for HDR, and
//!   whenever shrinking.
//! - **Filters:** interlaced sources are deinterlaced first; a downscale and
//!   the correction of non-square pixels are one scale in display space.
//! - **Audio:** re-encoding downmixes surround sound to AAC stereo unless it
//!   is to be kept; shrinking copies whatever the container takes.
//! - **MP4** always gets `-movflags +faststart`.

use vstd::prelude::*;

use crate::assess;
use crate::assess::{Assessment, Issue};
use crate::binary64;
use crate::error::{Error, ErrorView};
use crate::model::{AudioCodec, AudioInfo, Container, MediaProfile, PixFmt, VideoInfo};
use crate::path;
use crate::text;

verus! {

// ---------------------------------------------------------------------------
// Wishes
// ---------------------------------------------------------------------------

/// Top-level user intent. `Auto` derives the others from the assessment.
#[derive(Debug, Clone, Copy, PartialEq, Eq, Structural)]
pub enum Intent {
    Auto,
    /// Container/index repair only, no re-encode.
    Remux,
    /// Force re-encode even if codec is modern.
    Reencode,
    /// Downscale and/or re-encode smaller.
    Shrink { max_height: Option<u32>, target_bitrate_bps: Option<u64> },
    /// Multi-input mode (implicit when two or more inputs are given).
    Concat,
}

impl Intent {
    /// Whether a target bitrate, if there is one, leaves room for the rate
    /// control's headroom of twice as much.
    pub open spec fn target_in_range(self) -> bool {
        self matches Intent::Shrink { target_bitrate_bps: Some(target), .. } ==> 2 * target
            <= u64::MAX
    }
}

impl Default for Intent {
    fn default() -> (r: Self)
        ensures
            r == Intent::Auto,
    {
        Intent::Auto
    }
}

/// User overrides that bypass planner decisions.
#[derive(Debug, Clone)]
pub struct Overrides {
    pub container: Option<Container>,
    pub video_codec: Option<VideoCodecChoice>,
    pub crf: Option<u8>,
    pub preset: Option<String>,
    pub max_height: Option<u32>,
    pub keep_multichannel_audio: bool,
}

impl Default for Overrides {
    fn default() -> (r: Self)
        ensures
            r == (Overrides {
                container: None,
                video_codec: None,
                crf: None,
                preset: None,
                max_height: None,
                keep_multichannel_audio: false,
            }),
    {
        Overrides {
            container: None,
            video_codec: None,
            crf: None,
            preset: None,
            max_height: None,
            keep_multichannel_audio: false,
        }
    }
}

/// User-facing video-codec selection. Distinct from [`VideoStrategy`] so that
/// a caller can ask for x265 with the default CRF and preset.
#[derive(Debug, Clone, Copy, PartialEq, Eq, Structural)]
pub enum VideoCodecChoice {
    X264,
    X265,
}

// ---------------------------------------------------------------------------
// Recipes
// ---------------------------------------------------------------------------

/// What happens to the video stream.
#[derive(Debug, PartialEq, Eq)]
pub enum VideoStrategy {
    Copy,
    ReencodeX264 { crf: u8, preset: String },
    ReencodeX265 { crf: u8, preset: String },
    /// Single-pass average-bitrate (ABR) re-encode for shrink mode.
    ReencodeX264Abr { target_bps: u64, max_bps: u64, bufsize_bps: u64, preset: String },
    ReencodeX265Abr { target_bps: u64, max_bps: u64, bufsize_bps: u64, preset: String },
}

/// A [`VideoStrategy`] with its preset as a text.
pub enum VideoStrategyView {
    Copy,
    ReencodeX264 { crf: u8, preset: Seq<char> },
    ReencodeX265 { crf: u8, preset: Seq<char> },
    ReencodeX264Abr { target_bps: u64, max_bps: u64, bufsize_bps: u64, preset: Seq<char> },
    ReencodeX265Abr { target_bps: u64, max_bps: u64, bufsize_bps: u64, preset: Seq<char> },
}

impl View for VideoStrategy {
    type V = VideoStrategyView;

    open spec fn view(&self) -> VideoStrategyView {
        match *self {
            VideoStrategy::Copy => VideoStrategyView::Copy,
            VideoStrategy::ReencodeX264 { crf, preset } => VideoStrategyView::ReencodeX264 {
                crf,
                preset: preset@,
            },
            VideoStrategy::ReencodeX265 { crf, preset } => VideoStrategyView::ReencodeX265 {
                crf,
                preset: preset@,
            },
            VideoStrategy::ReencodeX264Abr { target_bps, max_bps, bufsize_bps, preset } => {
                VideoStrategyView::ReencodeX264Abr {
                    target_bps,
                    max_bps,
                    bufsize_bps,
                    preset: preset@,
                }
            },
            VideoStrategy::ReencodeX265Abr { target_bps, max_bps, bufsize_bps, preset } => {
                VideoStrategyView::ReencodeX265Abr {
                    target_bps,
                    max_bps,
                    bufsize_bps,
                    preset: preset@,
                }
            },
        }
    }
}

impl Clone for VideoStrategy {
    fn clone(&self) -> (r: Self)
        ensures
            r == *self,
    {
        match self {
            VideoStrategy::Copy => VideoStrategy::Copy,
            VideoStrategy::ReencodeX264 { crf, preset } => VideoStrategy::ReencodeX264 {
                crf: *crf,
                preset: preset.clone(),
            },
            VideoStrategy::ReencodeX265 { crf, preset } => VideoStrategy::ReencodeX265 {
                crf: *crf,
                preset: preset.clone(),
            },
            VideoStrategy::ReencodeX264Abr { target_bps, max_bps, bufsize_bps, preset } => {
                VideoStrategy::ReencodeX264Abr {
                    target_bps: *target_bps,
                    max_bps: *max_bps,
                    bufsize_bps: *bufsize_bps,
                    preset: preset.clone(),
                }
            },
            VideoStrategy::ReencodeX265Abr { target_bps, max_bps, bufsize_bps, preset } => {
                VideoStrategy::ReencodeX265Abr {
                    target_bps: *target_bps,
                    max_bps: *max_bps,
                    bufsize_bps: *bufsize_bps,
                    preset: preset.clone(),
                }
            },
        }
    }
}

/// What happens to the audio streams.
#[derive(Debug, Clone, Copy, PartialEq, Eq, Structural)]
pub enum AudioStrategy {
    Copy,
    AacStereo { bitrate_bps: u64 },
    AacMultichannel { bitrate_bps: u64 },
}

/// One step of the video filter chain.
#[derive(Debug, Clone, Copy, PartialEq, Eq, Structural)]
pub enum VideoFilter {
    /// Deinterlace with `bwdif=1`.
    Bwdif,
    /// Inverse telecine: `fieldmatch,decimate`.
    FieldmatchDecimate,
    Scale { width: u32, height: u32 },
    SetSar { num: u32, den: u32 },
}

/// How ffmpeg joins multiple inputs. Only set by [`plan_concat`].
#[derive(Debug, Clone, Copy, PartialEq, Eq, Structural)]
pub enum ConcatStrategy {
    /// ffmpeg's concat *demuxer* (`-f concat -safe 0 -i LIST.txt`), which
    /// joins uniform inputs without re-encoding.
    Demuxer,
}

/// Everything that is decided about an encode.
#[derive(Debug, PartialEq, Eq)]
pub struct EncodeRecipe {
    pub output_container: Container,
    pub video_strategy: VideoStrategy,
    pub video_filters: Vec<VideoFilter>,
    pub audio_strategy: AudioStrategy,
    pub extra_flags: Vec<String>,
    /// Set by [`plan_concat`]; `None` for ordinary single-file plans.
    pub concat: Option<ConcatStrategy>,
}

/// An [`EncodeRecipe`] with its strings as texts.
#[verifier::ext_equal]
pub struct RecipeView {
    pub output_container: Container,
    pub video_strategy: VideoStrategyView,
    pub video_filters: Seq<VideoFilter>,
    pub audio_strategy: AudioStrategy,
    pub extra_flags: Seq<Seq<char>>,
    pub concat: Option<ConcatStrategy>,
}

impl View for EncodeRecipe {
    type V = RecipeView;

    open spec fn view(&self) -> RecipeView {
        RecipeView {
            output_container: self.output_container,
            video_strategy: self.video_strategy@,
            video_filters: self.video_filters@,
            audio_strategy: self.audio_strategy,
            extra_flags: text::texts(self.extra_flags@),
            concat: self.concat,
        }
    }
}

impl Clone for EncodeRecipe {
    fn clone(&self) -> (r: Self)
        ensures
            r@ == self@,
    {
        let mut video_filters: Vec<VideoFilter> = Vec::new();
        for i in 0..self.video_filters.len()
            invariant
                video_filters@ == self.video_filters@.take(i as int),
        {
            video_filters.push(self.video_filters[i]);
            assert(video_filters@ =~= self.video_filters@.take(i + 1));
        }
        let extra_flags = text::first_copies(&self.extra_flags, self.extra_flags.len());
        let r = EncodeRecipe {
            output_container: self.output_container.clone(),
            video_strategy: self.video_strategy.clone(),
            video_filters,
            audio_strategy: self.audio_strategy,
            extra_flags,
            concat: self.concat,
        };
        assert(r@ =~= self@);
        r
    }
}

/// A planning result with its strings as texts.
pub open spec fn viewed(r: Result<EncodeRecipe, Error>) -> Result<RecipeView, ErrorView> {
    match r {
        Ok(recipe) => Ok(recipe@),
        Err(error) => Err(error@),
    }
}

// ---------------------------------------------------------------------------
// Planning rules
// ---------------------------------------------------------------------------

/// The container asked for, or Matroska, which takes every codec.
pub open spec fn chosen_container(overrides: Overrides) -> Container {
    match overrides.container {
        Some(container) => container,
        None => Container::Mkv,
    }
}

/// The preset asked for, or `default`.
pub open spec fn chosen_preset(overrides: Overrides, default: Seq<char>) -> Seq<char> {
    match overrides.preset {
        Some(preset) => preset@,
        None => default,
    }
}

/// x265 above 1080 lines and for HDR, else x264.
pub open spec fn codec_by_default(video: VideoInfo) -> VideoCodecChoice {
    if video.height > 1080 || video.is_hdr {
        VideoCodecChoice::X265
    } else {
        VideoCodecChoice::X264
    }
}

/// The CRF for re-encoding a picture of `height` lines.
pub open spec fn crf_by_default(codec: VideoCodecChoice, height: u32) -> u8 {
    match codec {
        VideoCodecChoice::X264 => if height <= 720 {
            20
        } else {
            21
        },
        VideoCodecChoice::X265 => if height <= 1080 {
            22
        } else {
            23
        },
    }
}

/// The CRF for shrinking to a picture of `height` lines.
pub open spec fn crf_for_shrinking(codec: VideoCodecChoice, height: u32) -> u8 {
    match codec {
        VideoCodecChoice::X264 => if height <= 720 {
            22
        } else if height <= 1080 {
            23
        } else {
            24
        },
        VideoCodecChoice::X265 => if height <= 720 {
            24
        } else if height <= 1080 {
            25
        } else {
            26
        },
    }
}

/// A constant-quality strategy.
pub open spec fn quality_strategy(
    codec: VideoCodecChoice,
    crf: u8,
    preset: Seq<char>,
) -> VideoStrategyView {
    match codec {
        VideoCodecChoice::X264 => VideoStrategyView::ReencodeX264 { crf, preset },
        VideoCodecChoice::X265 => VideoStrategyView::ReencodeX265 { crf, preset },
    }
}

/// An average-bitrate strategy: at most a quarter above the target, over a
/// buffer of twice the target.
pub open spec fn bitrate_strategy(
    codec: VideoCodecChoice,
    target_bps: u64,
    preset: Seq<char>,
) -> VideoStrategyView {
    let max_bps = (target_bps + target_bps / 4) as u64;
    let bufsize_bps = (2 * target_bps) as u64;
    match codec {
        VideoCodecChoice::X264 => VideoStrategyView::ReencodeX264Abr {
            target_bps,
            max_bps,
            bufsize_bps,
            preset,
        },
        VideoCodecChoice::X265 => VideoStrategyView::ReencodeX265Abr {
            target_bps,
            max_bps,
            bufsize_bps,
            preset,
        },
    }
}

/// The video strategy of a re-encode.
pub open spec fn reencode_strategy(video: VideoInfo, overrides: Overrides) -> VideoStrategyView {
    let codec = match overrides.video_codec {
        Some(codec) => codec,
        None => codec_by_default(video),
    };
    let crf = match overrides.crf {
        Some(crf) => crf,
        None => crf_by_default(codec, video.height),
    };
    quality_strategy(codec, crf, chosen_preset(overrides, "medium"@))
}

/// The video strategy of shrinking to `height` lines: constant quality, or
/// the average bitrate that was asked for.
pub open spec fn shrink_strategy(
    height: u32,
    target: Option<u64>,
    overrides: Overrides,
) -> VideoStrategyView {
    let codec = match overrides.video_codec {
        Some(codec) => codec,
        None => VideoCodecChoice::X265,
    };
    let preset = chosen_preset(overrides, "slow"@);
    match target {
        Some(target_bps) => bitrate_strategy(codec, target_bps, preset),
        None => {
            let crf = match overrides.crf {
                Some(crf) => crf,
                None => crf_for_shrinking(codec, height),
            };
            quality_strategy(codec, crf, preset)
        },
    }
}

/// Whether the picture is to be made smaller.
pub open spec fn downscales(video: VideoInfo, target_height: Option<u32>) -> bool {
    target_height matches Some(height) && height < video.height
}

/// Whether the pixels are known not to be square.
pub open spec fn stretches(video: VideoInfo) -> bool {
    video.sar matches Some(sar) && sar.num != sar.den
}

/// The largest even number up to `n`.
pub open spec fn even_down(n: nat) -> nat {
    (n - n % 2) as nat
}

/// The height of the picture that comes out, before it is made even.
pub open spec fn height_out(video: VideoInfo, target_height: Option<u32>) -> u32 {
    if downscales(video, target_height) {
        target_height->0
    } else {
        video.height
    }
}

/// The width that goes with [`height_out`], at the display aspect ratio.
pub open spec fn width_out(video: VideoInfo, target_height: Option<u32>) -> nat {
    video.display_width() as nat * height_out(video, target_height) as nat / (video.height as nat)
}

/// The one scale filter: display size or less, both sides even.
pub open spec fn scale_filter(video: VideoInfo, target_height: Option<u32>) -> VideoFilter {
    VideoFilter::Scale {
        width: even_down(width_out(video, target_height)) as u32,
        height: even_down(height_out(video, target_height) as nat) as u32,
    }
}

/// Deinterlacing of an interlaced source.
pub open spec fn deinterlace_filters(video: VideoInfo) -> Seq<VideoFilter> {
    if video.field_order.interlaced() {
        seq![VideoFilter::Bwdif]
    } else {
        Seq::empty()
    }
}

/// The filter chain: deinterlace, then scale, then declare square pixels.
pub open spec fn filters_of(video: VideoInfo, target_height: Option<u32>) -> Seq<VideoFilter> {
    let first = deinterlace_filters(video);
    if video.height == 0 || !(downscales(video, target_height) || stretches(video)) {
        first
    } else if stretches(video) {
        first.push(scale_filter(video, target_height)).push(VideoFilter::SetSar { num: 1, den: 1 })
    } else {
        first.push(scale_filter(video, target_height))
    }
}

/// Whether `container` natively and reliably accepts `codec` as a
/// stream-copied audio track.
pub open spec fn accepts_audio(container: Container, codec: AudioCodec) -> bool {
    match container {
        Container::Mkv => true,
        Container::Mp4 | Container::Mov => {
            codec is Aac || codec is Mp3 || codec is Flac || codec is Alac || codec is Eac3
        },
        Container::WebM => codec is Opus || codec is Vorbis,
        _ => false,
    }
}

/// The audio strategy of a re-encode, by the first track: AAC up to stereo is
/// copied, everything else becomes AAC; surround sound is downmixed unless it
/// is to be kept.
pub open spec fn audio_strategy_of(audio: Seq<AudioInfo>, overrides: Overrides) -> AudioStrategy {
    if audio.len() == 0 {
        AudioStrategy::Copy
    } else {
        let channels = match audio[0].channels {
            Some(channels) => channels,
            None => 2,
        };
        if channels > 2 && !overrides.keep_multichannel_audio {
            AudioStrategy::AacStereo { bitrate_bps: 192_000 }
        } else if audio[0].codec is Aac {
            AudioStrategy::Copy
        } else if channels > 2 {
            AudioStrategy::AacMultichannel { bitrate_bps: 384_000 }
        } else {
            AudioStrategy::AacStereo { bitrate_bps: 192_000 }
        }
    }
}

/// The audio strategy of shrinking: copied where the container takes the
/// first track, else as in a re-encode.
pub open spec fn shrink_audio_strategy(
    audio: Seq<AudioInfo>,
    container: Container,
    overrides: Overrides,
) -> AudioStrategy {
    if audio.len() > 0 && accepts_audio(container, audio[0].codec) {
        AudioStrategy::Copy
    } else {
        audio_strategy_of(audio, overrides)
    }
}

/// Whether the source uses the full range of color values.
pub open spec fn full_range(video: VideoInfo) -> bool {
    video.pix_fmt matches Some(format) && (format is Yuvj420p || format is Yuvj422p
        || format is Yuvj444p)
}

/// Whether the source has more color resolution than MP4 players expect.
pub open spec fn rich_chroma(video: VideoInfo) -> bool {
    video.pix_fmt matches Some(format) && (format is Yuv422p || format is Yuv422p10le
        || format is Yuv444p || format is Yuv444p10le || format is Yuvj422p || format is Yuvj444p)
}

/// What MP4 always gets.
pub open spec fn container_flags(container: Container) -> Seq<Seq<char>> {
    if container is Mp4 {
        seq!["-movflags"@, "+faststart"@]
    } else {
        Seq::empty()
    }
}

/// The extra flags of a re-encode.
pub open spec fn flags_of(video: VideoInfo, container: Container) -> Seq<Seq<char>> {
    (if full_range(video) {
        seq!["-color_range"@, "pc"@]
    } else {
        Seq::empty()
    }) + (if container is Mp4 && rich_chroma(video) {
        seq!["-pix_fmt"@, "yuv420p"@]
    } else {
        Seq::empty()
    }) + container_flags(container)
}

/// The recipe that copies all streams.
pub open spec fn copy_recipe(overrides: Overrides, concat: Option<ConcatStrategy>) -> RecipeView {
    RecipeView {
        output_container: chosen_container(overrides),
        video_strategy: VideoStrategyView::Copy,
        video_filters: Seq::empty(),
        audio_strategy: AudioStrategy::Copy,
        extra_flags: container_flags(chosen_container(overrides)),
        concat,
    }
}

/// The recipe that encodes the video anew.
pub open spec fn reencode_recipe(profile: MediaProfile, overrides: Overrides) -> RecipeView {
    RecipeView {
        output_container: chosen_container(overrides),
        video_strategy: reencode_strategy(profile.video, overrides),
        video_filters: filters_of(profile.video, None),
        audio_strategy: audio_strategy_of(profile.audio@, overrides),
        extra_flags: flags_of(profile.video, chosen_container(overrides)),
        concat: None,
    }
}

/// The recipe that makes the file smaller.
pub open spec fn shrink_recipe(
    profile: MediaProfile,
    overrides: Overrides,
    max_height: Option<u32>,
    target: Option<u64>,
) -> RecipeView {
    let height = height_out(profile.video, max_height);
    RecipeView {
        output_container: chosen_container(overrides),
        video_strategy: shrink_strategy(height, target, overrides),
        video_filters: filters_of(profile.video, max_height),
        audio_strategy: shrink_audio_strategy(
            profile.audio@,
            chosen_container(overrides),
            overrides,
        ),
        extra_flags: flags_of(profile.video, chosen_container(overrides)),
        concat: None,
    }
}

/// Whether shrinking would gain nothing: no downscale, no target bitrate, and
/// a bitrate at or below the threshold of the height.
pub open spec fn nothing_to_shrink(
    profile: MediaProfile,
    max_height: Option<u32>,
    target: Option<u64>,
) -> bool {
    &&& !downscales(profile.video, max_height)
    &&& target is None
    &&& profile.bitrate_bps matches Some(bps) && bps <= assess::bitrate_threshold(
        profile.video.height,
    )
}

/// Why there is nothing to shrink.
pub open spec fn already_small_text(bps: u64, height: u32) -> Seq<char> {
    "source is already "@ + crate::format::bitrate_text(bps) + " at "@ + text::decimal(
        height as nat,
    ) + "p (threshold for "@ + text::decimal(height as nat) + "p is "@
        + crate::format::bitrate_text(assess::bitrate_threshold(height)) + ")"@
}

/// The plan for shrinking.
pub open spec fn shrink_planned(
    profile: MediaProfile,
    overrides: Overrides,
    max_height: Option<u32>,
    target: Option<u64>,
) -> Result<RecipeView, ErrorView> {
    if nothing_to_shrink(profile, max_height, target) {
        Err(
            ErrorView::NothingToShrink(
                already_small_text(profile.bitrate_bps->0, profile.video.height),
            ),
        )
    } else {
        Ok(shrink_recipe(profile, overrides, max_height, target))
    }
}

/// The plan for one input with these issues.
pub open spec fn planned(
    profile: MediaProfile,
    issues: Seq<Issue>,
    intent: Intent,
    overrides: Overrides,
) -> Result<RecipeView, ErrorView> {
    match intent {
        Intent::Auto => if assess::reencode_needed(issues) {
            Ok(reencode_recipe(profile, overrides))
        } else {
            Ok(copy_recipe(overrides, None))
        },
        Intent::Remux => Ok(copy_recipe(overrides, None)),
        Intent::Reencode => Ok(reencode_recipe(profile, overrides)),
        Intent::Shrink { max_height, target_bitrate_bps } => shrink_planned(
            profile,
            overrides,
            max_height,
            target_bitrate_bps,
        ),
        Intent::Concat => Err(ErrorView::ConcatTooFewInputs(1)),
    }
}

// ---------------------------------------------------------------------------
// Planning
// ---------------------------------------------------------------------------

/// Build an [`EncodeRecipe`] from a profile, assessment, and user intent.
///
/// `Intent::Auto` consults the assessment: if any issue requires a re-encode,
/// it re-encodes; otherwise copying the streams is enough. Explicit intents
/// do exactly what was asked. Concatenation has its own entry,
/// [`plan_concat`].
pub fn plan(
    profile: &MediaProfile,
    assessment: &Assessment,
    intent: &Intent,
    overrides: &Overrides,
) -> (r: Result<EncodeRecipe, Error>)
    requires
        intent.target_in_range(),
    ensures
        viewed(r) == planned(*profile, assessment.issues@, *intent, *overrides),
{
    match intent {
        Intent::Auto => {
            if assessment.requires_reencode() {
                Ok(plan_reencode(profile, overrides))
            } else {
                Ok(plan_remux(profile, overrides))
            }
        },
        Intent::Remux => Ok(plan_remux(profile, overrides)),
        Intent::Reencode => Ok(plan_reencode(profile, overrides)),
        Intent::Shrink { max_height, target_bitrate_bps } => plan_shrink(
            profile,
            overrides,
            *max_height,
            *target_bitrate_bps,
        ),
        Intent::Concat => Err(Error::ConcatTooFewInputs(1)),
    }
}

/// The container asked for, or Matroska.
fn choose_container(overrides: &Overrides) -> (r: Container)
    ensures
        r == chosen_container(*overrides),
{
    match &overrides.container {
        Some(container) => container.clone(),
        None => Container::Mkv,
    }
}

/// The preset asked for, or `default`.
fn choose_preset(overrides: &Overrides, default: &str) -> (r: String)
    ensures
        r@ == chosen_preset(*overrides, default@),
{
    match &overrides.preset {
        Some(preset) => preset.clone(),
        None => default.to_owned(),
    }
}

/// Append a flag and its value.
fn push_flag(flags: &mut Vec<String>, flag: &str, value: &str)
    ensures
        text::texts(final(flags)@) == text::texts(old(flags)@) + seq![flag@, value@],
{
    flags.push(flag.to_owned());
    flags.push(value.to_owned());
    assert(text::texts(flags@) =~= text::texts(old(flags)@) + seq![flag@, value@]);
}

/// Append what `container` always gets.
fn push_container_flags(flags: &mut Vec<String>, container: &Container)
    ensures
        text::texts(final(flags)@) == text::texts(old(flags)@) + container_flags(*container),
{
    if matches!(container, Container::Mp4) {
        push_flag(flags, "-movflags", "+faststart");
    }
    assert(text::texts(flags@) =~= text::texts(old(flags)@) + container_flags(*container));
}

/// The recipe that copies all streams into the chosen container.
fn copy_streams(overrides: &Overrides, concat: Option<ConcatStrategy>) -> (r: EncodeRecipe)
    ensures
        r@ == copy_recipe(*overrides, concat),
{
    let output_container = choose_container(overrides);
    let mut extra_flags: Vec<String> = Vec::new();
    push_container_flags(&mut extra_flags, &output_container);
    let r = EncodeRecipe {
        output_container,
        video_strategy: VideoStrategy::Copy,
        video_filters: Vec::new(),
        audio_strategy: AudioStrategy::Copy,
        extra_flags,
        concat,
    };
    assert(r@ =~= copy_recipe(*overrides, concat));
    r
}

/// Build a stream-copy recipe. Whether a container other than Matroska takes
/// the codecs shows when ffmpeg runs.
pub fn plan_remux(_profile: &MediaProfile, overrides: &Overrides) -> (r: EncodeRecipe)
    ensures
        r@ == copy_recipe(*overrides, None),
{
    copy_streams(overrides, None)
}

/// Build a re-encode recipe.
pub fn plan_reencode(profile: &MediaProfile, overrides: &Overrides) -> (r: EncodeRecipe)
    ensures
        r@ == reencode_recipe(*profile, *overrides),
{
    let output_container = choose_container(overrides);
    let video_strategy = select_video_strategy(profile, overrides);
    let video_filters = select_video_filters(profile, None);
    let audio_strategy = select_audio_strategy(profile, overrides);
    let extra_flags = build_extra_flags(profile, &output_container);
    EncodeRecipe {
        output_container,
        video_strategy,
        video_filters,
        audio_strategy,
        extra_flags,
        concat: None,
    }
}

/// Build a shrink recipe, which always re-encodes.
///
/// Without a target bitrate the rate control is constant quality; with one it
/// is a single pass at that average bitrate. `max_height` only caps the
/// height: the picture is never scaled up. When the user gave no explicit
/// knob and the source is at or below the bitrate threshold of its height,
/// re-encoding would gain nothing and is refused.
pub fn plan_shrink(
    profile: &MediaProfile,
    overrides: &Overrides,
    max_height: Option<u32>,
    target_bitrate_bps: Option<u64>,
) -> (r: Result<EncodeRecipe, Error>)
    requires
        target_bitrate_bps matches Some(target) ==> 2 * target <= u64::MAX,
    ensures
        viewed(r) == shrink_planned(*profile, *overrides, max_height, target_bitrate_bps),
{
    let output_height = match max_height {
        Some(cap) => if cap < profile.video.height {
            cap
        } else {
            profile.video.height
        },
        None => profile.video.height,
    };
    let downscaling = output_height < profile.video.height;
    let threshold = assess::bitrate_threshold_for_height(output_height);
    if let Some(bps) = profile.bitrate_bps {
        if !downscaling && target_bitrate_bps.is_none() && bps <= threshold {
            let mut why = "source is already ".to_owned();
            why.append(crate::format::format_bitrate(bps).as_str());
            why.append(" at ");
            text::push_decimal(&mut why, profile.video.height as u64);
            why.append("p (threshold for ");
            text::push_decimal(&mut why, output_height as u64);
            why.append("p is ");
            why.append(crate::format::format_bitrate(threshold).as_str());
            why.append(")");
            return Err(Error::NothingToShrink(why));
        }
    }
    let output_container = choose_container(overrides);
    let codec = match overrides.video_codec {
        Some(codec) => codec,
        None => VideoCodecChoice::X265,
    };
    let preset = choose_preset(overrides, "slow");
    let video_strategy = match target_bitrate_bps {
        Some(target_bps) => {
            let max_bps = target_bps + target_bps / 4;
            let bufsize_bps = target_bps * 2;
            match codec {
                VideoCodecChoice::X264 => VideoStrategy::ReencodeX264Abr {
                    target_bps,
                    max_bps,
                    bufsize_bps,
                    preset,
                },
                VideoCodecChoice::X265 => VideoStrategy::ReencodeX265Abr {
                    target_bps,
                    max_bps,
                    bufsize_bps,
                    preset,
                },
            }
        },
        None => {
            let crf = match overrides.crf {
                Some(crf) => crf,
                None => shrink_default_crf(codec, output_height),
            };
            match codec {
                VideoCodecChoice::X264 => VideoStrategy::ReencodeX264 { crf, preset },
                VideoCodecChoice::X265 => VideoStrategy::ReencodeX265 { crf, preset },
            }
        },
    };
    let video_filters = select_video_filters(profile, Some(output_height));
    assert(filters_of(profile.video, Some(output_height)) == filters_of(profile.video, max_height));
    let audio_strategy = select_audio_strategy_for_shrink(profile, &output_container, overrides);
    let extra_flags = build_extra_flags(profile, &output_container);
    Ok(
        EncodeRecipe {
            output_container,
            video_strategy,
            video_filters,
            audio_strategy,
            extra_flags,
            concat: None,
        },
    )
}

/// Default CRF for shrink mode: more compression than [`default_crf`], since
/// a smaller file was asked for.
pub fn shrink_default_crf(codec: VideoCodecChoice, height: u32) -> (r: u8)
    ensures
        r == crf_for_shrinking(codec, height),
{
    match codec {
        VideoCodecChoice::X264 => {
            if height <= 720 {
                22
            } else if height <= 1080 {
                23
            } else {
                24
            }
        },
        VideoCodecChoice::X265 => {
            if height <= 720 {
                24
            } else if height <= 1080 {
                25
            } else {
                26
            }
        },
    }
}

/// The video strategy of a re-encode: overrides win over the defaults.
pub fn select_video_strategy(profile: &MediaProfile, overrides: &Overrides) -> (r: VideoStrategy)
    ensures
        r@ == reencode_strategy(profile.video, *overrides),
{
    let preset = choose_preset(overrides, "medium");
    let codec = match overrides.video_codec {
        Some(codec) => codec,
        None => default_codec_choice(profile),
    };
    let crf = match overrides.crf {
        Some(crf) => crf,
        None => default_crf(codec, profile.video.height),
    };
    match codec {
        VideoCodecChoice::X264 => VideoStrategy::ReencodeX264 { crf, preset },
        VideoCodecChoice::X265 => VideoStrategy::ReencodeX265 { crf, preset },
    }
}

/// Default codec: x264 up to 1080 lines SDR, x265 above or HDR.
pub fn default_codec_choice(profile: &MediaProfile) -> (r: VideoCodecChoice)
    ensures
        r == codec_by_default(profile.video),
{
    if profile.video.height > 1080 || profile.video.is_hdr {
        VideoCodecChoice::X265
    } else {
        VideoCodecChoice::X264
    }
}

/// Default CRF of a re-encode. A larger picture gets a higher CRF.
pub fn default_crf(codec: VideoCodecChoice, height: u32) -> (r: u8)
    ensures
        r == crf_by_default(codec, height),
{
    match codec {
        VideoCodecChoice::X264 => {
            if height <= 720 {
                20
            } else {
                21
            }
        },
        VideoCodecChoice::X265 => {
            if height <= 1080 {
                22
            } else {
                23
            }
        },
    }
}

/// The width out is at most the display width.
pub proof fn lemma_width_out(video: VideoInfo, target_height: Option<u32>)
    requires
        video.height > 0,
    ensures
        width_out(video, target_height) <= video.display_width(),
        !downscales(video, target_height) ==> width_out(video, target_height)
            == video.display_width(),
{
    let w = video.display_width() as int;
    let h = video.height as int;
    let out = height_out(video, target_height) as int;
    assert(w * out <= w * h) by (nonlinear_arith)
        requires
            0 <= w,
            0 <= out <= h,
    ;
    vstd::arithmetic::div_mod::lemma_div_is_ordered(w * out, w * h, h);
    vstd::arithmetic::div_mod::lemma_div_by_multiple(w, h);
}

/// Build the video filter chain.
///
/// The downscale and the correction of non-square pixels are computed in
/// *display* space, so that both together are a single scale. Both of its
/// sides are rounded down to even: in 4:2:0 the encoders reject odd ones.
pub fn select_video_filters(profile: &MediaProfile, target_height: Option<u32>) -> (r: Vec<
    VideoFilter,
>)
    ensures
        r@ == filters_of(profile.video, target_height),
{
    let video = &profile.video;
    let mut filters: Vec<VideoFilter> = Vec::new();
    if video.field_order.is_interlaced() {
        filters.push(VideoFilter::Bwdif);
    }
    assert(filters@ =~= deinterlace_filters(*video));
    let has_non_square_sar = match video.sar {
        Some(sar) => sar.num != sar.den,
        None => false,
    };
    let (display_w, display_h) = video.display_size();
    let (downscaling, out_h) = match target_height {
        Some(height) => if height < video.height {
            (true, height)
        } else {
            (false, display_h)
        },
        None => (false, display_h),
    };
    // A source without lines is left for ffmpeg to complain about.
    if display_h == 0 || !(downscaling || has_non_square_sar) {
        return filters;
    }
    proof {
        lemma_width_out(*video, target_height);
        assert(display_w * out_h <= 0xffff_ffff * 0xffff_ffff) by (nonlinear_arith)
            requires
                display_w <= 0xffff_ffff,
                out_h <= 0xffff_ffff,
        ;
    }
    let out_w = ((display_w as u64 * out_h as u64) / display_h as u64) as u32;
    filters.push(VideoFilter::Scale { width: out_w - out_w % 2, height: out_h - out_h % 2 });
    if has_non_square_sar {
        filters.push(VideoFilter::SetSar { num: 1, den: 1 });
    }
    filters
}

/// Whether `container` natively and reliably accepts `codec` as a
/// stream-copied audio track.
///
/// Matroska accepts essentially anything. AC-3 in MP4 is legal but widely
/// broken in players, so it is refused. Containers that are never written are
/// refused too.
pub fn container_supports_audio_copy(container: &Container, codec: &AudioCodec) -> (r: bool)
    ensures
        r == accepts_audio(*container, *codec),
{
    match container {
        Container::Mkv => true,
        Container::Mp4 | Container::Mov => {
            matches!(
                codec,
                AudioCodec::Aac | AudioCodec::Mp3 | AudioCodec::Flac | AudioCodec::Alac
                    | AudioCodec::Eac3
            )
        },
        Container::WebM => matches!(codec, AudioCodec::Opus | AudioCodec::Vorbis),
        _ => false,
    }
}

/// Audio strategy for shrink mode: re-encoding audio is generation loss for
/// almost no gain, so it is copied wherever the container takes it.
pub fn select_audio_strategy_for_shrink(
    profile: &MediaProfile,
    output_container: &Container,
    overrides: &Overrides,
) -> (r: AudioStrategy)
    ensures
        r == shrink_audio_strategy(profile.audio@, *output_container, *overrides),
{
    if profile.audio.len() == 0 {
        return AudioStrategy::Copy;
    }
    if container_supports_audio_copy(output_container, &profile.audio[0].codec) {
        AudioStrategy::Copy
    } else {
        select_audio_strategy(profile, overrides)
    }
}

/// Audio strategy of a re-encode. Without audio there is nothing to do.
pub fn select_audio_strategy(profile: &MediaProfile, overrides: &Overrides) -> (r: AudioStrategy)
    ensures
        r == audio_strategy_of(profile.audio@, *overrides),
{
    if profile.audio.len() == 0 {
        return AudioStrategy::Copy;
    }
    let primary = &profile.audio[0];
    let channels: u32 = match primary.channels {
        Some(channels) => channels,
        None => 2,
    };
    let is_aac = matches!(primary.codec, AudioCodec::Aac);
    let multichannel = channels > 2;
    if multichannel && overrides.keep_multichannel_audio {
        if is_aac {
            AudioStrategy::Copy
        } else {
            AudioStrategy::AacMultichannel { bitrate_bps: 384_000 }
        }
    } else if multichannel {
        AudioStrategy::AacStereo { bitrate_bps: 192_000 }
    } else if is_aac {
        AudioStrategy::Copy
    } else {
        AudioStrategy::AacStereo { bitrate_bps: 192_000 }
    }
}

/// Container- and source-driven extra flags.
///
/// Without `-color_range pc` a full-range source would be squeezed into the
/// limited range. 4:2:2 and 4:4:4 in MP4 play badly, so they become 4:2:0.
pub fn build_extra_flags(profile: &MediaProfile, output_container: &Container) -> (r: Vec<String>)
    ensures
        text::texts(r@) == flags_of(profile.video, *output_container),
{
    let mut extra: Vec<String> = Vec::new();
    assert(text::texts(extra@) =~= Seq::empty());
    if is_full_range_source(profile) {
        push_flag(&mut extra, "-color_range", "pc");
    }
    if matches!(output_container, Container::Mp4) {
        if let Some(format) = &profile.video.pix_fmt {
            if matches!(
                format,
                PixFmt::Yuv422p | PixFmt::Yuv422p10le | PixFmt::Yuv444p | PixFmt::Yuv444p10le
                    | PixFmt::Yuvj422p | PixFmt::Yuvj444p
            ) {
                push_flag(&mut extra, "-pix_fmt", "yuv420p");
            }
        }
    }
    push_container_flags(&mut extra, output_container);
    assert(text::texts(extra@) =~= flags_of(profile.video, *output_container));
    extra
}

/// Whether the source uses the full range of color values.
pub fn is_full_range_source(profile: &MediaProfile) -> (r: bool)
    ensures
        r == full_range(profile.video),
{
    match &profile.video.pix_fmt {
        Some(format) => matches!(format, PixFmt::Yuvj420p | PixFmt::Yuvj422p | PixFmt::Yuvj444p),
        None => false,
    }
}

// ---------------------------------------------------------------------------
// Concatenation
// ---------------------------------------------------------------------------

/// What differs between two inputs, and how.
pub open spec fn versus_text(what: Seq<char>, a: Seq<char>, b: Seq<char>) -> Seq<char> {
    what + " ("@ + a + " vs "@ + b + ")"@
}

/// A pixel format that may be unknown.
pub open spec fn format_text(format: Option<PixFmt>) -> Seq<char> {
    match format {
        Some(format) => format.label(),
        None => "unknown"@,
    }
}

/// A channel count that may be unknown.
pub open spec fn channels_text(channels: Option<u32>) -> Seq<char> {
    match channels {
        Some(channels) => text::decimal(channels as nat),
        None => "unknown"@,
    }
}

/// A sample rate that may be unknown.
pub open spec fn sample_rate_text(hz: Option<u32>) -> Seq<char> {
    match hz {
        Some(hz) => text::decimal(hz as nat) + " Hz"@,
        None => "unknown"@,
    }
}

/// Whether two pixel formats that may be unknown are the same.
pub open spec fn same_format(a: Option<PixFmt>, b: Option<PixFmt>) -> bool {
    match (a, b) {
        (Some(a), Some(b)) => a.same(b),
        (None, None) => true,
        _ => false,
    }
}

/// Whether both frame rates are known, and more than a fortieth of a frame per
/// second apart: 29.97 and 30 differ, and 23.976 and 24 do not.
pub open spec fn framerates_differ(a: VideoInfo, b: VideoInfo) -> bool {
    match (a.framerate, b.framerate) {
        (Some(x), Some(y)) => binary64::ratios_apart(x.num, x.den, y.num, y.den),
        _ => false,
    }
}

/// How the first audio tracks of two inputs differ.
pub open spec fn audio_mismatch(a: Seq<AudioInfo>, b: Seq<AudioInfo>) -> Option<Seq<char>> {
    if a.len() == 0 && b.len() == 0 {
        None
    } else if b.len() == 0 {
        Some("audio tracks (reference has audio, this input does not)"@)
    } else if a.len() == 0 {
        Some("audio tracks (reference has no audio, this input does)"@)
    } else if !a[0].codec.same(b[0].codec) {
        Some(versus_text("audio codec"@, a[0].codec.label(), b[0].codec.label()))
    } else if a[0].channels != b[0].channels {
        Some(
            versus_text(
                "audio channel count"@,
                channels_text(a[0].channels),
                channels_text(b[0].channels),
            ),
        )
    } else if a[0].sample_rate_hz != b[0].sample_rate_hz {
        Some(
            versus_text(
                "audio sample rate"@,
                sample_rate_text(a[0].sample_rate_hz),
                sample_rate_text(b[0].sample_rate_hz),
            ),
        )
    } else {
        None
    }
}

/// The first thing, if any, that keeps two inputs from being joined without
/// re-encoding.
pub open spec fn mismatch(a: MediaProfile, b: MediaProfile) -> Option<Seq<char>> {
    let (v, w) = (a.video, b.video);
    if !v.codec.same(w.codec) {
        Some(versus_text("video codec"@, v.codec.label(), w.codec.label()))
    } else if v.width != w.width || v.height != w.height {
        Some(
            versus_text(
                "video resolution"@,
                crate::format::size_by(v.width, v.height),
                crate::format::size_by(w.width, w.height),
            ),
        )
    } else if !same_format(v.pix_fmt, w.pix_fmt) {
        Some(versus_text("pixel format"@, format_text(v.pix_fmt), format_text(w.pix_fmt)))
    } else if framerates_differ(v, w) {
        let (x, y) = (v.framerate->0, w.framerate->0);
        Some(
            versus_text(
                "framerate"@,
                binary64::ratio_fixed(x.num, x.den),
                binary64::ratio_fixed(y.num, y.den) + " fps"@,
            ),
        )
    } else {
        audio_mismatch(a.audio@, b.audio@)
    }
}

/// The first of `profiles`, from `from` on, that does not match the first
/// one; their number if there is none.
pub open spec fn first_mismatch(profiles: Seq<MediaProfile>, from: nat) -> nat
    decreases profiles.len() - from,
{
    if from >= profiles.len() {
        profiles.len()
    } else if mismatch(profiles[0], profiles[from as int]) is Some {
        from
    } else {
        first_mismatch(profiles, from + 1)
    }
}

/// The plan for joining `inputs`.
pub open spec fn concat_planned(
    inputs: Seq<String>,
    profiles: Seq<MediaProfile>,
    overrides: Overrides,
) -> Result<RecipeView, ErrorView> {
    let at = first_mismatch(profiles, 1);
    if profiles.len() < 2 {
        Err(ErrorView::ConcatTooFewInputs(profiles.len() as usize))
    } else if at < profiles.len() {
        Err(
            ErrorView::ConcatInputsDiffer {
                path: inputs[at as int]@,
                why: mismatch(profiles[0], profiles[at as int])->0,
            },
        )
    } else {
        Ok(copy_recipe(overrides, Some(ConcatStrategy::Demuxer)))
    }
}

/// What differs between two inputs, and how.
fn versus(what: &str, a: &str, b: &str) -> (r: String)
    ensures
        r@ == versus_text(what@, a@, b@),
{
    let mut out = what.to_owned();
    out.append(" (");
    out.append(a);
    out.append(" vs ");
    out.append(b);
    out.append(")");
    out
}

/// `width` by `height`.
fn describe_resolution(width: u32, height: u32) -> (r: String)
    ensures
        r@ == crate::format::size_by(width, height),
{
    let mut out = String::new();
    crate::format::push_size_by(&mut out, width, height);
    assert(out@ =~= crate::format::size_by(width, height));
    out
}

/// A pixel format that may be unknown.
fn describe_format(format: &Option<PixFmt>) -> (r: String)
    ensures
        r@ == format_text(*format),
{
    match format {
        Some(format) => format.to_string(),
        None => "unknown".to_owned(),
    }
}

/// A channel count that may be unknown.
pub fn describe_channels(n: Option<u32>) -> (r: String)
    ensures
        r@ == channels_text(n),
{
    match n {
        Some(n) => text::decimal_text(n as u64),
        None => "unknown".to_owned(),
    }
}

/// A sample rate that may be unknown.
pub fn describe_sample_rate(hz: Option<u32>) -> (r: String)
    ensures
        r@ == sample_rate_text(hz),
{
    match hz {
        Some(hz) => {
            let mut out = text::decimal_text(hz as u64);
            out.append(" Hz");
            out
        },
        None => "unknown".to_owned(),
    }
}

/// Check whether two inputs can be joined without re-encoding: `Ok(())`, or
/// the first thing that differs.
///
/// The fields are those that ffmpeg's concat demuxer is sensitive to: video
/// codec, resolution, pixel format, framerate, audio codec, channel count and
/// sample rate. A tiny drift of the framerate is tolerated.
pub fn streams_compatible(a: &MediaProfile, b: &MediaProfile) -> (r: Result<(), String>)
    ensures
        match r {
            Ok(_) => mismatch(*a, *b) is None,
            Err(why) => mismatch(*a, *b) == Some(why@),
        },
{
    let v = &a.video;
    let w = &b.video;
    if !(v.codec == w.codec) {
        return Err(
            versus("video codec", v.codec.to_string().as_str(), w.codec.to_string().as_str()),
        );
    }
    if v.width != w.width || v.height != w.height {
        return Err(
            versus(
                "video resolution",
                describe_resolution(v.width, v.height).as_str(),
                describe_resolution(w.width, w.height).as_str(),
            ),
        );
    }
    if !(v.pix_fmt == w.pix_fmt) {
        return Err(
            versus(
                "pixel format",
                describe_format(&v.pix_fmt).as_str(),
                describe_format(&w.pix_fmt).as_str(),
            ),
        );
    }
    if let (Some(x), Some(y)) = (v.framerate, w.framerate) {
        if binary64::apart(x.num, x.den, y.num, y.den) {
            let mut first = String::new();
            binary64::push_ratio_fixed(&mut first, x.num, x.den);
            let mut second = String::new();
            binary64::push_ratio_fixed(&mut second, y.num, y.den);
            second.append(" fps");
            assert(first@ =~= binary64::ratio_fixed(x.num, x.den));
            assert(second@ =~= binary64::ratio_fixed(y.num, y.den) + " fps"@);
            return Err(versus("framerate", first.as_str(), second.as_str()));
        }
    }
    if a.audio.len() == 0 {
        if b.audio.len() == 0 {
            return Ok(());
        }
        return Err("audio tracks (reference has no audio, this input does)".to_owned());
    }
    if b.audio.len() == 0 {
        return Err("audio tracks (reference has audio, this input does not)".to_owned());
    }
    let x = &a.audio[0];
    let y = &b.audio[0];
    if !(x.codec == y.codec) {
        return Err(
            versus("audio codec", x.codec.to_string().as_str(), y.codec.to_string().as_str()),
        );
    }
    if !(x.channels == y.channels) {
        return Err(
            versus(
                "audio channel count",
                describe_channels(x.channels).as_str(),
                describe_channels(y.channels).as_str(),
            ),
        );
    }
    if !(x.sample_rate_hz == y.sample_rate_hz) {
        return Err(
            versus(
                "audio sample rate",
                describe_sample_rate(x.sample_rate_hz).as_str(),
                describe_sample_rate(y.sample_rate_hz).as_str(),
            ),
        );
    }
    Ok(())
}

/// Build a stream-copy concat recipe.
///
/// `inputs` and `profiles` correspond one to one. The inputs must have
/// matching streams; the first one that does not match the first is named.
pub fn plan_concat(
    inputs: &[String],
    profiles: &[MediaProfile],
    overrides: &Overrides,
) -> (r: Result<EncodeRecipe, Error>)
    requires
        inputs@.len() == profiles@.len(),
    ensures
        viewed(r) == concat_planned(inputs@, profiles@, *overrides),
{
    if profiles.len() < 2 {
        return Err(Error::ConcatTooFewInputs(profiles.len()));
    }
    for i in 1..profiles.len()
        invariant
            inputs@.len() == profiles@.len(),
            profiles@.len() >= 2,
            first_mismatch(profiles@, 1) == first_mismatch(profiles@, i as nat),
    {
        if let Err(why) = streams_compatible(&profiles[0], &profiles[i]) {
            return Err(Error::ConcatInputsDiffer { path: inputs[i].clone(), why });
        }
    }
    Ok(copy_streams(overrides, Some(ConcatStrategy::Demuxer)))
}

// ---------------------------------------------------------------------------
// Paths
// ---------------------------------------------------------------------------

/// Whether `ext` is, in any case, an extension of a container that is written.
pub open spec fn known_output_extension(ext: Seq<char>) -> bool {
    let lowered = text::ascii_lowercase(ext);
    ||| lowered == "mkv"@
    ||| lowered == "mp4"@
    ||| lowered == "m4v"@
    ||| lowered == "mov"@
    ||| lowered == "webm"@
}

/// Whether `ext` is, in any case, a common extension of media files.
pub open spec fn media_extension(ext: Seq<char>) -> bool {
    let lowered = text::ascii_lowercase(ext);
    ||| lowered == "mkv"@
    ||| lowered == "mp4"@
    ||| lowered == "m4v"@
    ||| lowered == "mov"@
    ||| lowered == "webm"@
    ||| lowered == "avi"@
    ||| lowered == "wmv"@
    ||| lowered == "asf"@
    ||| lowered == "flv"@
    ||| lowered == "f4v"@
    ||| lowered == "mpg"@
    ||| lowered == "mpeg"@
    ||| lowered == "m2v"@
    ||| lowered == "vob"@
    ||| lowered == "ts"@
    ||| lowered == "m2ts"@
    ||| lowered == "mts"@
    ||| lowered == "ogv"@
    ||| lowered == "ogm"@
    ||| lowered == "3gp"@
    ||| lowered == "3g2"@
    ||| lowered == "rm"@
    ||| lowered == "rmvb"@
    ||| lowered == "divx"@
}

/// Whether a path ends in an extension of a container that is written.
pub open spec fn has_known_extension(path: Seq<char>) -> bool {
    path::extension(path) matches Some(ext) && known_output_extension(ext)
}

/// The user's output name, with the container's extension behind it unless it
/// has one that is written.
pub open spec fn output_path(user_output: Seq<char>, container: Container) -> Seq<char> {
    if has_known_extension(user_output) {
        user_output
    } else {
        user_output + "."@ + container.extension()
    }
}

/// The container that an output path asks for by its extension.
pub open spec fn container_by_extension(output: Seq<char>) -> Option<Container> {
    match path::extension(output) {
        Some(ext) => if text::ascii_lowercase(ext) == "mkv"@ {
            Some(Container::Mkv)
        } else if text::ascii_lowercase(ext) == "mp4"@ || text::ascii_lowercase(ext) == "m4v"@ {
            Some(Container::Mp4)
        } else {
            None
        },
        None => None,
    }
}

/// Where the media extension of a file name starts: at its last dot, if what
/// stands behind is a media extension, else at its end.
pub open spec fn stem_end(name: Seq<char>) -> int {
    let dot = text::last_index(name, '.');
    if dot >= 0 && media_extension(name.skip(dot + 1)) {
        dot
    } else {
        name.len() as int
    }
}

/// The file name without its media extension.
pub open spec fn media_stem(name: Seq<char>) -> Seq<char> {
    name.take(stem_end(name))
}

/// The media extension of a file name, or `default`.
pub open spec fn media_extension_or(name: Seq<char>, default: Seq<char>) -> Seq<char> {
    if stem_end(name) < name.len() {
        name.skip(stem_end(name) + 1)
    } else {
        default
    }
}

/// The directory of `input`.
pub open spec fn directory_of(input: Seq<char>) -> Seq<char> {
    match path::parent(input) {
        Some(parent) => parent,
        None => Seq::empty(),
    }
}

/// The file name of `input`, empty if it has none.
pub open spec fn name_or_empty(input: Seq<char>) -> Seq<char> {
    match path::file_name(input) {
        Some(name) => name,
        None => Seq::empty(),
    }
}

/// Where the upgraded file goes: next to the input, under its stem.
pub open spec fn upgrade_output(input: Seq<char>, container: Container) -> Seq<char> {
    path::join(
        directory_of(input),
        media_stem(name_or_empty(input)) + "."@ + container.extension(),
    )
}

/// Where the original would be moved aside to.
pub open spec fn upgrade_backup(input: Seq<char>, container: Container) -> Seq<char> {
    let name = name_or_empty(input);
    path::join(
        directory_of(input),
        media_stem(name) + ".vimprover-orig."@ + media_extension_or(name, container.extension()),
    )
}

/// Turn the user-supplied output name into a concrete path.
///
/// A title with periods in it looks like it has an extension. Only extensions
/// of containers that are written count; anything else gets the canonical
/// extension *appended*, so that no name is mangled.
pub fn resolve_output_path(user_output: &str, recipe: &EncodeRecipe) -> (r: String)
    ensures
        r@ == output_path(user_output@, recipe.output_container),
{
    if let Some(ext) = path::extension_of(user_output) {
        if is_known_output_extension(ext.as_str()) {
            return user_output.to_owned();
        }
    }
    let mut out = user_output.to_owned();
    out.append(".");
    out.append(recipe.output_container.canonical_extension());
    out
}

/// Whether `ext` is one of the container extensions that are written
/// (case-insensitive, without a leading `.`).
pub fn is_known_output_extension(ext: &str) -> (r: bool)
    ensures
        r == known_output_extension(ext@),
{
    text::eq_lowered(ext, "mkv")
        || text::eq_lowered(ext, "mp4")
        || text::eq_lowered(ext, "m4v")
        || text::eq_lowered(ext, "mov")
        || text::eq_lowered(ext, "webm")
}

/// Best-effort inference of the desired output [`Container`] from the
/// extension of the user's output path.
pub fn container_from_output_extension(path: &str) -> (r: Option<Container>)
    ensures
        r == container_by_extension(path@),
{
    match path::extension_of(path) {
        Some(ext) => {
            if text::eq_lowered(ext.as_str(), "mkv") {
                Some(Container::Mkv)
            } else if text::eq_lowered(ext.as_str(), "mp4") || text::eq_lowered(
                ext.as_str(),
                "m4v",
            ) {
                Some(Container::Mp4)
            } else {
                None
            }
        },
        None => None,
    }
}

/// Output and (optional) backup paths for an upgrade in place.
#[derive(Debug, Clone, PartialEq, Eq)]
pub struct UpgradePaths {
    /// Where the encoded output is written.
    pub output: String,
    /// Where the original is moved to *before* encoding starts, when the
    /// output would otherwise collide with it. `None` means that the original
    /// stays where it is.
    pub backup: Option<String>,
}

/// Compute the output and (optional) backup paths for an upgrade in place.
///
/// The output is placed next to the input, with the input's stem and the
/// recipe's canonical container extension. A backup is only needed when the
/// output is the input.
pub fn resolve_upgrade_paths(input: &str, recipe: &EncodeRecipe) -> (r: UpgradePaths)
    ensures
        r.output@ == upgrade_output(input@, recipe.output_container),
        text::opt_text(r.backup) == (if path::same_path(
            upgrade_output(input@, recipe.output_container),
            input@,
        ) {
            Some(upgrade_backup(input@, recipe.output_container))
        } else {
            None
        }),
{
    let parent = match path::parent_of(input) {
        Some(parent) => parent,
        None => String::new(),
    };
    let name = match path::name_of(input) {
        Some(name) => name,
        None => String::new(),
    };
    assert(parent@ =~= directory_of(input@));
    assert(name@ =~= name_or_empty(input@));
    let target_ext = recipe.output_container.canonical_extension();
    let (stem, input_ext) = split_at_media_extension(name.as_str());
    let mut output_name = stem.clone();
    output_name.append(".");
    output_name.append(target_ext);
    let output = path::joined(parent.as_str(), output_name.as_str());
    if !path::same_place(output.as_str(), input) {
        return UpgradePaths { output, backup: None };
    }
    let mut backup_name = stem;
    backup_name.append(".vimprover-orig.");
    match input_ext {
        Some(ext) => {
            backup_name.append(ext.as_str());
        },
        None => {
            backup_name.append(target_ext);
        },
    }
    let backup = path::joined(parent.as_str(), backup_name.as_str());
    UpgradePaths { output, backup: Some(backup) }
}

/// Split a file name into its stem and its media extension. A last dot with
/// anything else behind it belongs to the stem, so that titles with periods
/// in them are not mangled.
pub fn split_at_media_extension(filename: &str) -> (r: (String, Option<String>))
    ensures
        r.0@ == media_stem(filename@),
        text::opt_text(r.1) == (if stem_end(filename@) < filename@.len() {
            Some(filename@.skip(stem_end(filename@) + 1))
        } else {
            None
        }),
{
    let v = text::chars_of(filename);
    assert(v@.take(v@.len() as int) == v@);
    let after = text::find_last(&v, v.len(), '.');
    if after > 0 {
        let ext = filename.substring_char(after, v.len());
        assert(ext@ =~= filename@.skip(after as int));
        if is_media_extension(ext) {
            let stem = filename.substring_char(0, after - 1);
            assert(stem@ =~= filename@.take(after - 1));
            return (stem.to_owned(), Some(ext.to_owned()));
        }
    }
    assert(filename@.take(filename@.len() as int) == filename@);
    (filename.to_owned(), None)
}

/// Whether `ext` is a common extension of media files. An unfamiliar one just
/// counts as part of the stem.
pub fn is_media_extension(ext: &str) -> (r: bool)
    ensures
        r == media_extension(ext@),
{
    text::eq_lowered(ext, "mkv")
        || text::eq_lowered(ext, "mp4")
        || text::eq_lowered(ext, "m4v")
        || text::eq_lowered(ext, "mov")
        || text::eq_lowered(ext, "webm")
        || text::eq_lowered(ext, "avi")
        || text::eq_lowered(ext, "wmv")
        || text::eq_lowered(ext, "asf")
        || text::eq_lowered(ext, "flv")
        || text::eq_lowered(ext, "f4v")
        || text::eq_lowered(ext, "mpg")
        || text::eq_lowered(ext, "mpeg")
        || text::eq_lowered(ext, "m2v")
        || text::eq_lowered(ext, "vob")
        || text::eq_lowered(ext, "ts")
        || text::eq_lowered(ext, "m2ts")
        || text::eq_lowered(ext, "mts")
        || text::eq_lowered(ext, "ogv")
        || text::eq_lowered(ext, "ogm")
        || text::eq_lowered(ext, "3gp")
        || text::eq_lowered(ext, "3g2")
        || text::eq_lowered(ext, "rm")
        || text::eq_lowered(ext, "rmvb")
        || text::eq_lowered(ext, "divx")
}

// ---------------------------------------------------------------------------
// Laws
// ---------------------------------------------------------------------------

/// The automatic plan re-encodes if the assessment calls for it, and copies
/// the streams otherwise.
pub proof fn law_auto_follows_the_assessment(
    profile: MediaProfile,
    issues: Seq<Issue>,
    overrides: Overrides,
)
    ensures
        assess::reencode_needed(issues) ==> planned(profile, issues, Intent::Auto, overrides)
            == planned(profile, issues, Intent::Reencode, overrides),
        !assess::reencode_needed(issues) ==> planned(profile, issues, Intent::Auto, overrides)
            == planned(profile, issues, Intent::Remux, overrides),
{
}

/// An explicit intent does what was asked, whatever the assessment says.
pub proof fn law_explicit_intents_ignore_the_assessment(
    profile: MediaProfile,
    one: Seq<Issue>,
    other: Seq<Issue>,
    intent: Intent,
    overrides: Overrides,
)
    requires
        !(intent is Auto),
    ensures
        planned(profile, one, intent, overrides) == planned(profile, other, intent, overrides),
{
}

/// Planning for one input fails in two cases alone: when inputs are to be
/// joined, and when there is nothing to shrink. Copying the streams leaves
/// them all as they are.
pub proof fn law_when_planning_fails(
    profile: MediaProfile,
    issues: Seq<Issue>,
    intent: Intent,
    overrides: Overrides,
)
    ensures
        planned(profile, issues, intent, overrides) is Err <==> match intent {
            Intent::Concat => true,
            Intent::Shrink { max_height, target_bitrate_bps } => nothing_to_shrink(
                profile,
                max_height,
                target_bitrate_bps,
            ),
            _ => false,
        },
        planned(profile, issues, Intent::Remux, overrides) matches Ok(recipe) && {
            &&& recipe.video_strategy is Copy
            &&& recipe.audio_strategy is Copy
            &&& recipe.video_filters.len() == 0
        },
{
}

/// Shrinking never copies the video, and is refused only when there is
/// neither a downscale nor a target bitrate to work towards.
pub proof fn law_shrinking_reencodes(
    profile: MediaProfile,
    overrides: Overrides,
    max_height: Option<u32>,
    target: Option<u64>,
)
    ensures
        match shrink_planned(profile, overrides, max_height, target) {
            Ok(recipe) => !(recipe.video_strategy is Copy),
            Err(_) => target is None && !downscales(profile.video, max_height),
        },
{
}

/// Whatever the user chose is in the recipe: container, codec, CRF and
/// preset.
pub proof fn law_overrides_win(profile: MediaProfile, overrides: Overrides)
    ensures
        ({
            let recipe = reencode_recipe(profile, overrides);
            &&& overrides.container matches Some(container) ==> recipe.output_container
                == container
            &&& overrides.video_codec == Some(VideoCodecChoice::X264)
                ==> recipe.video_strategy is ReencodeX264
            &&& overrides.video_codec == Some(VideoCodecChoice::X265)
                ==> recipe.video_strategy is ReencodeX265
            &&& overrides.crf matches Some(crf) ==> match recipe.video_strategy {
                VideoStrategyView::ReencodeX264 { crf: used, .. } => used == crf,
                VideoStrategyView::ReencodeX265 { crf: used, .. } => used == crf,
                _ => false,
            }
            &&& overrides.preset matches Some(preset) ==> match recipe.video_strategy {
                VideoStrategyView::ReencodeX264 { preset: used, .. } => used == preset@,
                VideoStrategyView::ReencodeX265 { preset: used, .. } => used == preset@,
                _ => false,
            }
        }),
{
}

/// A larger picture never gets a lower CRF, and shrinking always compresses
/// more than re-encoding.
pub proof fn law_crf_grows_with_height(codec: VideoCodecChoice, low: u32, high: u32)
    requires
        low <= high,
    ensures
        crf_by_default(codec, low) <= crf_by_default(codec, high),
        crf_for_shrinking(codec, low) <= crf_for_shrinking(codec, high),
        crf_by_default(codec, low) < crf_for_shrinking(codec, low),
{
}

/// MP4 always ends its flags with `-movflags +faststart`, for one input and
/// for several.
pub proof fn law_mp4_starts_fast(
    profile: MediaProfile,
    issues: Seq<Issue>,
    intent: Intent,
    overrides: Overrides,
    inputs: Seq<String>,
    profiles: Seq<MediaProfile>,
)
    ensures
        forall|recipe: RecipeView|
            #![trigger recipe.extra_flags]
            (planned(profile, issues, intent, overrides) == Ok::<_, ErrorView>(recipe)
                || concat_planned(inputs, profiles, overrides) == Ok::<_, ErrorView>(recipe))
                && recipe.output_container is Mp4 ==> {
                let n = recipe.extra_flags.len();
                &&& n >= 2
                &&& recipe.extra_flags[n - 2] == "-movflags"@
                &&& recipe.extra_flags[n - 1] == "+faststart"@
            },
{
    let container = chosen_container(overrides);
    if container is Mp4 {
        let flags = flags_of(profile.video, container);
        let n = flags.len();
        assert(flags[n - 2] == container_flags(container)[0]);
        assert(flags[n - 1] == container_flags(container)[1]);
    }
}

/// The filter chain holds one scale at most, with even sides that exceed
/// neither the display width nor the height of the source. Deinterlacing
/// comes before it, and square pixels are declared right behind it.
pub proof fn law_filter_chain(video: VideoInfo, target_height: Option<u32>)
    ensures
        ({
            let filters = filters_of(video, target_height);
            &&& forall|i: int|
                0 <= i < filters.len() ==> match #[trigger] filters[i] {
                    VideoFilter::Scale { width, height } => {
                        &&& width % 2 == 0 && height % 2 == 0
                        &&& width <= video.display_width()
                        &&& height <= video.height
                        &&& target_height matches Some(cap) ==> cap < video.height ==> height
                            <= cap
                    },
                    VideoFilter::Bwdif => i == 0 && video.field_order.interlaced(),
                    VideoFilter::SetSar { num, den } => {
                        num == 1 && den == 1 && i > 0 && filters[i - 1] is Scale && i
                            == filters.len() - 1
                    },
                    VideoFilter::FieldmatchDecimate => false,
                }
            &&& forall|i: int, j: int|
                0 <= i < j < filters.len() ==> !(#[trigger] filters[i] is Scale
                    && #[trigger] filters[j] is Scale)
            &&& video.field_order.interlaced() ==> filters.len() > 0 && filters[0] is Bwdif
        }),
{
    if video.height > 0 {
        lemma_width_out(video, target_height);
    }
}

/// The scaled picture keeps the display aspect ratio: its width is the largest
/// whole number that is not too wide for its height.
pub proof fn law_scaling_keeps_the_aspect_ratio(video: VideoInfo, target_height: Option<u32>)
    requires
        video.height > 0,
    ensures
        ({
            let width = width_out(video, target_height);
            let height = height_out(video, target_height) as nat;
            width * video.height <= video.display_width() * height < (width + 1) * video.height
        }),
{
    let product = video.display_width() as int * height_out(video, target_height) as int;
    let h = video.height as int;
    vstd::arithmetic::div_mod::lemma_fundamental_div_mod(product, h);
    let width = width_out(video, target_height) as int;
    assert(width * h <= product < (width + 1) * h) by (nonlinear_arith)
        requires
            product == h * width + product % h,
            0 <= product % h < h,
    ;
}

/// Into a container that can be chosen, shrinking copies no audio that the
/// container does not take.
pub proof fn law_shrinking_copies_only_accepted_audio(
    audio: Seq<AudioInfo>,
    container: Container,
    overrides: Overrides,
)
    requires
        container is Mkv || container is Mp4 || container is Mov,
    ensures
        shrink_audio_strategy(audio, container, overrides) is Copy ==> audio.len() == 0
            || accepts_audio(container, audio[0].codec),
{
}

/// What is done with a picture whose pixels are square and that is not made
/// smaller keeps its size.
pub proof fn law_no_needless_scale(video: VideoInfo, target_height: Option<u32>)
    requires
        !stretches(video),
        !downscales(video, target_height),
    ensures
        filters_of(video, target_height) == deinterlace_filters(video),
{
}

/// Every input matches itself, and matching does not depend on the order of
/// the two.
pub proof fn law_matching_is_symmetric(a: MediaProfile, b: MediaProfile)
    ensures
        mismatch(a, a) is None,
        mismatch(a, b) is None <==> mismatch(b, a) is None,
{
    if let (Some(x), Some(y)) = (a.video.framerate, b.video.framerate) {
        binary64::law_apart_is_symmetric(x.num, x.den, y.num, y.den);
    }
    if let Some(x) = a.video.framerate {
        binary64::law_apart_is_symmetric(x.num, x.den, x.num, x.den);
    }
}

/// Frame rates that differ by the drift of 23.976 from 24 or less match; those
/// that differ by that of 29.97 from 30 or more do not.
pub proof fn law_only_tiny_drift_is_tolerated(a: VideoInfo, b: VideoInfo)
    requires
        a.framerate matches Some(x) && 0 < x.den,
        b.framerate matches Some(y) && 0 < y.den,
    ensures
        ({
            let (x, y) = (a.framerate->0, b.framerate->0);
            let gap = x.num * y.den - y.num * x.den;
            let unit = x.den * y.den;
            &&& 1001 * gap >= 30 * unit || -1001 * gap >= 30 * unit ==> framerates_differ(a, b)
            &&& -24 * unit <= 1001 * gap <= 24 * unit ==> !framerates_differ(a, b)
        }),
{
    let (x, y) = (a.framerate->0, b.framerate->0);
    binary64::law_apart_follows_the_distance(x.num, x.den, y.num, y.den);
    assert(x.den * y.den > 0) by (nonlinear_arith)
        requires
            x.den > 0,
            y.den > 0,
    ;
}

/// What [`first_mismatch`] finds: everything before it matches.
proof fn lemma_first_mismatch(profiles: Seq<MediaProfile>, from: nat)
    requires
        from <= profiles.len(),
    ensures
        from <= first_mismatch(profiles, from) <= profiles.len(),
        first_mismatch(profiles, from) < profiles.len() ==> mismatch(
            profiles[0],
            profiles[first_mismatch(profiles, from) as int],
        ) is Some,
        forall|i: int|
            from <= i < first_mismatch(profiles, from) ==> mismatch(
                profiles[0],
                #[trigger] profiles[i],
            ) is None,
    decreases profiles.len() - from,
{
    if from < profiles.len() && mismatch(profiles[0], profiles[from as int]) is None {
        lemma_first_mismatch(profiles, from + 1);
    }
}

/// Inputs are joined exactly when there are two or more of them and every one
/// matches the first. Otherwise the earliest input that does not match is
/// named.
pub proof fn law_concat_needs_uniform_inputs(
    inputs: Seq<String>,
    profiles: Seq<MediaProfile>,
    overrides: Overrides,
)
    requires
        inputs.len() == profiles.len(),
    ensures
        concat_planned(inputs, profiles, overrides) is Ok <==> profiles.len() >= 2 && forall|
            i: int,
        |
            0 <= i < profiles.len() ==> mismatch(profiles[0], #[trigger] profiles[i]) is None,
        concat_planned(inputs, profiles, overrides) matches Err(
            ErrorView::ConcatInputsDiffer { path, why },
        ) ==> exists|i: int|
            {
                &&& 0 < i < profiles.len()
                &&& path == (#[trigger] inputs[i])@
                &&& mismatch(profiles[0], profiles[i]) == Some(why)
                &&& forall|j: int|
                    0 <= j < i ==> mismatch(profiles[0], #[trigger] profiles[j]) is None
            },
        concat_planned(inputs, profiles, overrides) matches Ok(recipe) ==> {
            &&& recipe.video_strategy is Copy
            &&& recipe.audio_strategy is Copy
            &&& recipe.video_filters.len() == 0
        },
{
    if profiles.len() >= 2 {
        lemma_first_mismatch(profiles, 1);
        law_matching_is_symmetric(profiles[0], profiles[0]);
        let at = first_mismatch(profiles, 1);
        if at < profiles.len() {
            let named = inputs[at as int];
            assert(mismatch(profiles[0], profiles[at as int]) is Some);
        }
    }
}

/// The containers that an output can be written in.
pub open spec fn is_output_container(container: Container) -> bool {
    container is Mp4 || container is Mov || container is Mkv || container is WebM
}

/// The canonical extensions are plain, and those of output containers are
/// known.
pub proof fn lemma_container_extension(container: Container)
    ensures
        path::is_plain_extension(container.extension()),
        2 <= container.extension().len() <= 4,
        is_output_container(container) ==> known_output_extension(container.extension()),
{
    reveal_strlit("mp4");
    reveal_strlit("mov");
    reveal_strlit("mkv");
    reveal_strlit("webm");
    reveal_strlit("mpg");
    reveal_strlit("ts");
    reveal_strlit("wmv");
    reveal_strlit("avi");
    reveal_strlit("flv");
    reveal_strlit("bin");
    let ext = container.extension();
    if is_output_container(container) {
        assert(text::ascii_lowercase(ext) =~= ext);
    }
}

/// Resolving an output name only ever appends. Where the name is that of a
/// file, the result has an extension that is written, stays in the same
/// directory, and is its own resolution.
pub proof fn law_output_path(user_output: Seq<char>, container: Container)
    ensures
        text::starts_with(output_path(user_output, container), user_output),
        is_output_container(container) && path::file_name(user_output) is Some
            && path::strip_tail(user_output) == user_output ==> {
            let resolved = output_path(user_output, container);
            &&& has_known_extension(resolved)
            &&& output_path(resolved, container) == resolved
            &&& path::parent(resolved) == path::parent(user_output)
        },
{
    reveal_strlit(".");
    let resolved = output_path(user_output, container);
    assert(resolved.take(user_output.len() as int) =~= user_output);
    if is_output_container(container) && path::file_name(user_output) is Some && path::strip_tail(
        user_output,
    ) == user_output && !has_known_extension(user_output) {
        lemma_container_extension(container);
        assert("."@ =~= seq!['.']);
        path::lemma_append_extension(user_output, container.extension());
    }
}

/// An upgraded file stands next to the original. The original is to be moved
/// aside exactly when the two would be the same file, and then to a place
/// that is neither.
pub proof fn law_upgrade_paths(input: Seq<char>, container: Container)
    requires
        path::file_name(input) is Some,
    ensures
        path::parent(upgrade_output(input, container)) == path::parent(input),
        path::parent(upgrade_backup(input, container)) == path::parent(input),
        path::file_name(upgrade_output(input, container)) == Some(
            media_stem(path::file_name(input)->0) + "."@ + container.extension(),
        ),
        path::file_name(upgrade_backup(input, container)) == Some(
            media_stem(path::file_name(input)->0) + ".vimprover-orig."@ + media_extension_or(
                path::file_name(input)->0,
                container.extension(),
            ),
        ),
        path::same_path(upgrade_output(input, container), input) <==> path::file_name(
            upgrade_output(input, container),
        ) == path::file_name(input),
        !path::same_path(upgrade_backup(input, container), upgrade_output(input, container)),
        path::same_path(upgrade_output(input, container), input) ==> !path::same_path(
            upgrade_backup(input, container),
            input,
        ),
{
    reveal_strlit(".");
    reveal_strlit(".vimprover-orig.");
    let name = path::file_name(input)->0;
    let parent = path::parent(input)->0;
    path::lemma_file_name_is_plain(input);
    path::lemma_components_of_parent(input);
    lemma_container_extension(container);
    text::lemma_last_index(name, '.');
    let stem = media_stem(name);
    let output_name = stem + "."@ + container.extension();
    let ext = media_extension_or(name, container.extension());
    let backup_name = stem + ".vimprover-orig."@ + ext;
    assert(path::is_plain_name(output_name)) by {
        assert(output_name.len() > 1);
        assert forall|i: int| 0 <= i < output_name.len() implies output_name[i] != '/' by {
            if i < stem.len() {
                assert(output_name[i] == name[i]);
            } else if i > stem.len() {
                assert(output_name[i] == container.extension()[i - stem.len() - 1]);
            }
        }
    }
    assert(path::is_plain_name(backup_name)) by {
        assert(backup_name.len() > 1);
        assert forall|i: int| 0 <= i < backup_name.len() implies backup_name[i] != '/' by {
            if i < stem.len() {
                assert(backup_name[i] == name[i]);
            } else if i < stem.len() + 16 {
                assert(backup_name[i] == ".vimprover-orig."@[i - stem.len()]);
            } else if stem_end(name) < name.len() {
                assert(backup_name[i] == name[stem_end(name) + 1 + (i - stem.len() - 16)]);
            } else {
                assert(backup_name[i] == container.extension()[i - stem.len() - 16]);
            }
        }
    }
    assert(output_name.len() > 2);
    assert(backup_name.len() > 2);
    path::lemma_join(parent, output_name);
    path::lemma_join(parent, backup_name);
    let output = upgrade_output(input, container);
    let backup = upgrade_backup(input, container);
    assert(output_name.len() < backup_name.len());
    assert(path::components(output).last() == output_name);
    assert(path::components(backup).last() == backup_name);
    assert(path::components(input).last() == name);
}

} // verus!
