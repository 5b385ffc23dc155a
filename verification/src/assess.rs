//! Deciding whether a probed file needs work.
//!
//! A file is "fine" (not to be touched without `--force`) if all of these
//! hold:
//!
//! - its video codec is H.264, H.265, AV1 or VP9;
//! - every audio codec is AAC, Opus or FLAC, or AC-3 or E-AC-3 outside of MP4
//!   and WebM;
//! - its container is MP4, Matroska or WebM;
//! - it is progressive;
//! - its pixel format is yuv420p or yuv420p10le, as far as it is known;
//! - its pixels are square.
//!
//! When shrinking, a bitrate above the threshold of its height, and a high
//! resolution at a low bitrate, are issues too.

use vstd::prelude::*;

use crate::model::{AudioCodec, AudioInfo, Container, MediaProfile, Rational, VideoCodec};
use crate::plan::Intent;

verus! {

/// A single thing that makes a file "not fine".
#[derive(Debug, Clone, PartialEq, Eq)]
pub enum Issue {
    LegacyVideoCodec(VideoCodec),
    LegacyAudioCodec(AudioCodec),
    LegacyContainer(Container),
    /// MP4 with moov at end, MKV without Cues. A profile does not show it.
    MissingSeekIndex,
    Interlaced,
    /// Pixel format not in {yuv420p, yuv420p10le}.
    NonModernPixelFormat,
    BitrateExcessive { actual: u64, threshold: u64 },
    /// A source above 1080 lines at a bitrate that 1080 lines would need.
    ResolutionWasteful,
    /// The sample aspect ratio is not 1:1.
    NonSquarePixels(Rational),
    AudioCodecIncompatibleWithTargetContainer,
}

impl Issue {
    /// Whether copying the streams into another container does not help.
    pub open spec fn needs_reencode(self) -> bool {
        !(self is LegacyContainer || self is MissingSeekIndex)
    }
}

/// Result of [`assess`] over a [`MediaProfile`].
#[derive(Debug, Clone, PartialEq, Eq)]
pub struct Assessment {
    pub issues: Vec<Issue>,
}

impl Default for Assessment {
    fn default() -> (r: Self)
        ensures
            r.issues@ == Seq::<Issue>::empty(),
    {
        Assessment { issues: Vec::new() }
    }
}

/// Whether some of the issues call for encoding the streams anew.
pub open spec fn reencode_needed(issues: Seq<Issue>) -> bool {
    exists|i: int| 0 <= i < issues.len() && (#[trigger] issues[i]).needs_reencode()
}

impl Assessment {
    /// A file is "fine" (not to be touched without `--force`) iff no issues
    /// were found.
    pub fn is_fine(&self) -> (r: bool)
        ensures
            r == (self.issues@.len() == 0),
    {
        self.issues.len() == 0
    }

    /// Whether some issue calls for encoding the streams anew. Otherwise
    /// copying them into another container is enough.
    pub fn requires_reencode(&self) -> (r: bool)
        ensures
            r == reencode_needed(self.issues@),
    {
        for i in 0..self.issues.len()
            invariant
                forall|j: int| 0 <= j < i ==> !(#[trigger] self.issues@[j]).needs_reencode(),
        {
            match self.issues[i] {
                Issue::LegacyContainer(_) | Issue::MissingSeekIndex => {},
                _ => {
                    assert(self.issues@[i as int].needs_reencode());
                    return true;
                },
            }
        }
        false
    }
}

// ---------------------------------------------------------------------------
// The rules
// ---------------------------------------------------------------------------

/// Whether the video codec needs no replacement.
pub open spec fn modern_video(codec: VideoCodec) -> bool {
    codec is H264 || codec is H265 || codec is Av1 || codec is Vp9
}

/// Whether an audio track can stay as it is in `container`.
pub open spec fn modern_audio(codec: AudioCodec, container: Container) -> bool {
    match codec {
        AudioCodec::Aac | AudioCodec::Opus | AudioCodec::Flac => true,
        AudioCodec::Ac3 | AudioCodec::Eac3 => !(container is Mp4 || container is WebM),
        _ => false,
    }
}

/// Whether the container needs no replacement.
pub open spec fn modern_container(container: Container) -> bool {
    container is Mp4 || container is Mkv || container is WebM
}

/// The bitrate, in bits per second, above which a picture of `height` lines
/// is worth shrinking.
pub open spec fn bitrate_threshold(height: u32) -> u64 {
    if height <= 1080 {
        5_000_000
    } else {
        15_000_000
    }
}

/// The audio tracks that cannot stay as they are, in order.
pub open spec fn audio_issues(audio: Seq<AudioInfo>, container: Container) -> Seq<Issue>
    decreases audio.len(),
{
    if audio.len() == 0 {
        Seq::empty()
    } else {
        let before = audio_issues(audio.drop_last(), container);
        if modern_audio(audio.last().codec, container) {
            before
        } else {
            before.push(Issue::LegacyAudioCodec(audio.last().codec))
        }
    }
}

/// `issue` alone if it is there, else nothing.
pub open spec fn issue_if(there: bool, issue: Issue) -> Seq<Issue> {
    if there {
        seq![issue]
    } else {
        Seq::empty()
    }
}

/// Whether the bitrate is known and above the threshold of the height.
pub open spec fn bitrate_excessive(profile: MediaProfile) -> bool {
    profile.bitrate_bps matches Some(bps) && bps > bitrate_threshold(profile.video.height)
}

/// Whether the picture has more than 1080 lines, at a bitrate known to be no
/// more than what 1080 lines need.
pub open spec fn resolution_wasteful(profile: MediaProfile) -> bool {
    &&& profile.video.height > 1080
    &&& profile.bitrate_bps matches Some(bps) && bps <= bitrate_threshold(1080)
}

/// Whether the pixel format is known and not broadly compatible.
pub open spec fn pixel_format_outdated(profile: MediaProfile) -> bool {
    profile.video.pix_fmt matches Some(format) && !format.modern()
}

/// What is wrong with `profile`, in the order of the variants of [`Issue`].
pub open spec fn issues_of(profile: MediaProfile, intent: Intent) -> Seq<Issue> {
    issue_if(
        !modern_video(profile.video.codec),
        Issue::LegacyVideoCodec(profile.video.codec),
    ) + audio_issues(profile.audio@, profile.container) + issue_if(
        !modern_container(profile.container),
        Issue::LegacyContainer(profile.container),
    ) + issue_if(profile.video.field_order.interlaced(), Issue::Interlaced) + issue_if(
        pixel_format_outdated(profile),
        Issue::NonModernPixelFormat,
    ) + issue_if(
        intent is Shrink && bitrate_excessive(profile),
        Issue::BitrateExcessive {
            actual: profile.bitrate_bps->0,
            threshold: bitrate_threshold(profile.video.height),
        },
    ) + issue_if(
        intent is Shrink && resolution_wasteful(profile),
        Issue::ResolutionWasteful,
    ) + issue_if(
        !profile.video.square_pixels(),
        Issue::NonSquarePixels(profile.video.sar->0),
    )
}

/// The bitrate, in bits per second, above which a picture of `height` lines
/// is worth shrinking.
pub fn bitrate_threshold_for_height(height: u32) -> (r: u64)
    ensures
        r == bitrate_threshold(height),
{
    if height <= 1080 {
        5_000_000
    } else {
        15_000_000
    }
}

/// Append the issues of the audio tracks.
fn push_audio_issues(issues: &mut Vec<Issue>, audio: &Vec<AudioInfo>, container: &Container)
    ensures
        final(issues)@ == old(issues)@ + audio_issues(audio@, *container),
{
    assert(issues@ =~= old(issues)@ + audio_issues(audio@.take(0), *container));
    for i in 0..audio.len()
        invariant
            issues@ == old(issues)@ + audio_issues(audio@.take(i as int), *container),
    {
        assert(audio@.take(i + 1).drop_last() == audio@.take(i as int));
        let modern = match audio[i].codec {
            AudioCodec::Aac | AudioCodec::Opus | AudioCodec::Flac => true,
            AudioCodec::Ac3 | AudioCodec::Eac3 => !matches!(
                container,
                Container::Mp4 | Container::WebM
            ),
            _ => false,
        };
        if !modern {
            issues.push(Issue::LegacyAudioCodec(audio[i].codec.clone()));
        }
        assert(issues@ =~= old(issues)@ + audio_issues(audio@.take(i + 1), *container));
    }
    assert(audio@.take(audio@.len() as int) == audio@);
}

/// Append the issues that matter when shrinking.
fn push_size_issues(issues: &mut Vec<Issue>, profile: &MediaProfile, intent: &Intent)
    ensures
        final(issues)@ == old(issues)@ + issue_if(
            intent is Shrink && bitrate_excessive(*profile),
            Issue::BitrateExcessive {
                actual: profile.bitrate_bps->0,
                threshold: bitrate_threshold(profile.video.height),
            },
        ) + issue_if(intent is Shrink && resolution_wasteful(*profile), Issue::ResolutionWasteful),
{
    if matches!(intent, Intent::Shrink { .. }) {
        if let Some(actual) = profile.bitrate_bps {
            let threshold = bitrate_threshold_for_height(profile.video.height);
            if actual > threshold {
                issues.push(Issue::BitrateExcessive { actual, threshold });
            }
            if profile.video.height > 1080 && actual <= bitrate_threshold_for_height(1080) {
                issues.push(Issue::ResolutionWasteful);
            }
        }
    }
}

/// Run every "is this file fine?" rule against `profile`.
pub fn assess(profile: &MediaProfile, intent: &Intent) -> (r: Assessment)
    ensures
        r.issues@ == issues_of(*profile, *intent),
{
    let mut issues: Vec<Issue> = Vec::new();
    let video = &profile.video;
    if !matches!(
        video.codec,
        VideoCodec::H264 | VideoCodec::H265 | VideoCodec::Av1 | VideoCodec::Vp9
    ) {
        issues.push(Issue::LegacyVideoCodec(video.codec.clone()));
    }
    assert(issues@ =~= issue_if(
        !modern_video(video.codec),
        Issue::LegacyVideoCodec(video.codec),
    ));
    push_audio_issues(&mut issues, &profile.audio, &profile.container);
    let ghost seen = issues@;
    if !matches!(profile.container, Container::Mp4 | Container::Mkv | Container::WebM) {
        issues.push(Issue::LegacyContainer(profile.container.clone()));
    }
    assert(issues@ =~= seen + issue_if(
        !modern_container(profile.container),
        Issue::LegacyContainer(profile.container),
    ));
    let ghost seen = issues@;
    if video.field_order.is_interlaced() {
        issues.push(Issue::Interlaced);
    }
    assert(issues@ =~= seen + issue_if(video.field_order.interlaced(), Issue::Interlaced));
    let ghost seen = issues@;
    if let Some(format) = &video.pix_fmt {
        if !format.is_modern() {
            issues.push(Issue::NonModernPixelFormat);
        }
    }
    assert(issues@ =~= seen + issue_if(
        pixel_format_outdated(*profile),
        Issue::NonModernPixelFormat,
    ));
    push_size_issues(&mut issues, profile, intent);
    let ghost seen = issues@;
    if let Some(sar) = video.sar {
        if !video.has_square_pixels() {
            issues.push(Issue::NonSquarePixels(sar));
        }
    }
    assert(issues@ =~= seen + issue_if(
        !video.square_pixels(),
        Issue::NonSquarePixels(video.sar->0),
    ));
    Assessment { issues }
}

// ---------------------------------------------------------------------------
// Laws
// ---------------------------------------------------------------------------

/// The audio tracks raise no issue exactly when each can stay as it is.
proof fn lemma_audio_issues_empty(audio: Seq<AudioInfo>, container: Container)
    ensures
        audio_issues(audio, container).len() == 0 <==> forall|i: int|
            0 <= i < audio.len() ==> modern_audio((#[trigger] audio[i]).codec, container),
    decreases audio.len(),
{
    if audio.len() > 0 {
        lemma_audio_issues_empty(audio.drop_last(), container);
        if audio_issues(audio, container).len() == 0 {
            assert forall|i: int| 0 <= i < audio.len() implies modern_audio(
                (#[trigger] audio[i]).codec,
                container,
            ) by {
                if i < audio.len() - 1 {
                    assert(audio.drop_last()[i] == audio[i]);
                }
            }
        } else if modern_audio(audio.last().codec, container) {
            let i = choose|i: int|
                0 <= i < audio.drop_last().len() && !modern_audio(
                    (#[trigger] audio.drop_last()[i]).codec,
                    container,
                );
            assert(audio[i] == audio.drop_last()[i]);
        } else {
            assert(audio[audio.len() - 1] == audio.last());
        }
    }
}

/// A file that is not to be shrunk has no issues exactly when its video
/// codec, every audio codec, its container, its field order, its pixel format
/// and its pixel shape are all modern.
pub proof fn law_fine_iff_all_modern(profile: MediaProfile, intent: Intent)
    requires
        !(intent is Shrink),
    ensures
        issues_of(profile, intent).len() == 0 <==> {
            &&& modern_video(profile.video.codec)
            &&& forall|i: int|
                0 <= i < profile.audio@.len() ==> modern_audio(
                    (#[trigger] profile.audio@[i]).codec,
                    profile.container,
                )
            &&& modern_container(profile.container)
            &&& !profile.video.field_order.interlaced()
            &&& !pixel_format_outdated(profile)
            &&& profile.video.square_pixels()
        },
{
    lemma_audio_issues_empty(profile.audio@, profile.container);
}

/// Asking to shrink can only add issues.
pub proof fn law_shrinking_finds_no_less(profile: MediaProfile, intent: Intent, shrink: Intent)
    requires
        shrink is Shrink,
    ensures
        issues_of(profile, intent).len() <= issues_of(profile, shrink).len(),
        forall|issue: Issue|
            issues_of(profile, intent).contains(issue) && !(intent is Shrink)
                ==> issues_of(profile, shrink).contains(issue),
{
    let head = issue_if(
        !modern_video(profile.video.codec),
        Issue::LegacyVideoCodec(profile.video.codec),
    ) + audio_issues(profile.audio@, profile.container) + issue_if(
        !modern_container(profile.container),
        Issue::LegacyContainer(profile.container),
    ) + issue_if(profile.video.field_order.interlaced(), Issue::Interlaced) + issue_if(
        pixel_format_outdated(profile),
        Issue::NonModernPixelFormat,
    );
    let tail = issue_if(
        !profile.video.square_pixels(),
        Issue::NonSquarePixels(profile.video.sar->0),
    );
    let more = issues_of(profile, shrink);
    assert forall|issue: Issue|
        issues_of(profile, intent).contains(issue) && !(intent is Shrink) implies more.contains(
        issue,
    ) by {
        let some = issues_of(profile, intent);
        let i = choose|i: int| 0 <= i < some.len() && some[i] == issue;
        if i < head.len() {
            assert(some[i] == head[i]);
            assert(more[i] == head[i]);
        } else {
            assert(tail.len() == 1);
            assert(some[i] == tail[0]);
            assert(more[more.len() - 1] == tail[0]);
        }
    }
}

} // verus!
