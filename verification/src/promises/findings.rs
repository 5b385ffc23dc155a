//! What is found to be wrong with a file.

use vstd::prelude::*;

use crate::assess;
use crate::assess::Issue;
use crate::flow;
use crate::model::{AudioInfo, Container, MediaProfile, Rational};
use crate::plan;
use crate::plan::{Intent, Overrides};
use crate::promises::recipes;

verus! {

/// Whether an audio track of this codec is out of date in this container:
/// AAC, Opus and FLAC never are, AC-3 and E-AC-3 are in MP4 and WebM, and
/// every other codec always is.
pub open spec fn is_old_track(track: AudioInfo, container: Container) -> bool {
    let c = track.codec;
    &&& !(c is Aac || c is Opus || c is Flac)
    &&& c is Ac3 || c is Eac3 ==> container is Mp4 || container is WebM
}

/// Each issue is found exactly where the file shows it. How full the file is
/// matters only where it is to be made smaller.
pub proof fn law_findings(profile: MediaProfile, intent: Intent, issue: Issue)
    ensures
        assess::issues_of(profile, intent).contains(issue) <==> ({
            let video = profile.video;
            let shrinks = intent is Shrink;
            match issue {
                Issue::LegacyVideoCodec(codec) => codec == video.codec && !(codec is H264
                    || codec is H265 || codec is Av1 || codec is Vp9),
                Issue::LegacyAudioCodec(codec) => exists|i: int|
                    0 <= i < profile.audio@.len() && (#[trigger] profile.audio@[i]).codec == codec
                        && is_old_track(profile.audio@[i], profile.container),
                Issue::LegacyContainer(container) => container == profile.container && !(
                container is Mp4 || container is Mkv || container is WebM),
                Issue::MissingSeekIndex => false,
                Issue::Interlaced => video.field_order is InterlacedTopFirst
                    || video.field_order is InterlacedBottomFirst,
                Issue::NonModernPixelFormat => video.pix_fmt is Some && !(
                video.pix_fmt->0 is Yuv420p || video.pix_fmt->0 is Yuv420p10le),
                Issue::BitrateExcessive { actual, threshold } => shrinks && profile.bitrate_bps
                    == Some(actual) && actual > threshold && threshold == (if video.height > 1080 {
                    15_000_000int
                } else {
                    5_000_000
                }),
                Issue::ResolutionWasteful => shrinks && video.height > 1080
                    && profile.bitrate_bps is Some && profile.bitrate_bps->0 <= 5_000_000,
                Issue::NonSquarePixels(sar) => video.sar == Some(sar) && !(sar.num == 1 && sar.den
                    == 1),
                Issue::AudioCodecIncompatibleWithTargetContainer => false,
            }
        }),
{
    let video = profile.video;
    let a = assess::issue_if(
        !assess::modern_video(video.codec),
        Issue::LegacyVideoCodec(video.codec),
    );
    let b = assess::audio_issues(profile.audio@, profile.container);
    let c = assess::issue_if(
        !assess::modern_container(profile.container),
        Issue::LegacyContainer(profile.container),
    );
    let d = assess::issue_if(video.field_order.interlaced(), Issue::Interlaced);
    let e = assess::issue_if(
        assess::pixel_format_outdated(profile),
        Issue::NonModernPixelFormat,
    );
    let f = assess::issue_if(
        intent is Shrink && assess::bitrate_excessive(profile),
        Issue::BitrateExcessive {
            actual: profile.bitrate_bps->0,
            threshold: assess::bitrate_threshold(video.height),
        },
    );
    let g = assess::issue_if(
        intent is Shrink && assess::resolution_wasteful(profile),
        Issue::ResolutionWasteful,
    );
    let h = assess::issue_if(
        !video.square_pixels(),
        Issue::NonSquarePixels(video.sar->0),
    );
    assert(assess::issues_of(profile, intent) == a + b + c + d + e + f + g + h);
    lemma_contains(a, b, issue);
    lemma_contains(a + b, c, issue);
    lemma_contains(a + b + c, d, issue);
    lemma_contains(a + b + c + d, e, issue);
    lemma_contains(a + b + c + d + e, f, issue);
    lemma_contains(a + b + c + d + e + f, g, issue);
    lemma_contains(a + b + c + d + e + f + g, h, issue);
    lemma_issue_if(!assess::modern_video(video.codec), Issue::LegacyVideoCodec(video.codec), issue);
    lemma_audio_issues(profile.audio@, profile.container, issue);
    lemma_issue_if(
        !assess::modern_container(profile.container),
        Issue::LegacyContainer(profile.container),
        issue,
    );
    lemma_issue_if(video.field_order.interlaced(), Issue::Interlaced, issue);
    lemma_issue_if(
        assess::pixel_format_outdated(profile),
        Issue::NonModernPixelFormat,
        issue,
    );
    lemma_issue_if(
        intent is Shrink && assess::bitrate_excessive(profile),
        Issue::BitrateExcessive {
            actual: profile.bitrate_bps->0,
            threshold: assess::bitrate_threshold(video.height),
        },
        issue,
    );
    lemma_issue_if(
        intent is Shrink && assess::resolution_wasteful(profile),
        Issue::ResolutionWasteful,
        issue,
    );
    lemma_issue_if(!video.square_pixels(), Issue::NonSquarePixels(video.sar->0), issue);
    if let Issue::NonSquarePixels(sar) = issue {
        assert(sar.num == 1 && sar.den == 1 <==> sar == Rational { num: 1, den: 1 });
    }
}

/// What is in one of two sequences is in their sum.
proof fn lemma_contains(a: Seq<Issue>, b: Seq<Issue>, issue: Issue)
    ensures
        (a + b).contains(issue) <==> a.contains(issue) || b.contains(issue),
{
    let whole = a + b;
    if a.contains(issue) {
        let i = choose|i: int| 0 <= i < a.len() && a[i] == issue;
        assert(whole[i] == issue);
    }
    if b.contains(issue) {
        let i = choose|i: int| 0 <= i < b.len() && b[i] == issue;
        assert(whole[a.len() + i] == issue);
    }
    if whole.contains(issue) {
        let i = choose|i: int| 0 <= i < whole.len() && whole[i] == issue;
        if i < a.len() {
            assert(a[i] == issue);
        } else {
            assert(b[i - a.len()] == issue);
        }
    }
}

/// One issue, where it is there.
proof fn lemma_issue_if(there: bool, one: Issue, issue: Issue)
    ensures
        assess::issue_if(there, one).contains(issue) <==> there && one == issue,
{
    if there {
        assert(assess::issue_if(there, one)[0] == one);
    }
}

/// The issues of the audio tracks.
proof fn lemma_audio_issues(audio: Seq<AudioInfo>, container: Container, issue: Issue)
    ensures
        assess::audio_issues(audio, container).contains(issue) <==> (
        issue matches Issue::LegacyAudioCodec(codec) && exists|i: int|
            0 <= i < audio.len() && (#[trigger] audio[i]).codec == codec && is_old_track(
                audio[i],
                container,
            )),
    decreases audio.len(),
{
    let found = assess::audio_issues(audio, container);
    if audio.len() > 0 {
        let before = assess::audio_issues(audio.drop_last(), container);
        let last = audio.last();
        lemma_audio_issues(audio.drop_last(), container, issue);
        assert(last == audio[audio.len() - 1]);
        if is_old_track(last, container) {
            let one = seq![Issue::LegacyAudioCodec(last.codec)];
            assert(found =~= before + one);
            lemma_contains(before, one, issue);
            assert(one[0] == Issue::LegacyAudioCodec(last.codec));
        } else {
            assert(found == before);
        }
        if let Issue::LegacyAudioCodec(codec) = issue {
            if exists|i: int|
                0 <= i < audio.len() && (#[trigger] audio[i]).codec == codec && is_old_track(
                    audio[i],
                    container,
                ) {
                let i = choose|i: int|
                    0 <= i < audio.len() && (#[trigger] audio[i]).codec == codec && is_old_track(
                        audio[i],
                        container,
                    );
                if i < audio.len() - 1 {
                    assert(audio.drop_last()[i] == audio[i]);
                }
            }
            if before.contains(issue) {
                let i = choose|i: int|
                    0 <= i < audio.drop_last().len() && (#[trigger] audio.drop_last()[i]).codec
                        == codec && is_old_track(audio.drop_last()[i], container);
                assert(audio[i] == audio.drop_last()[i]);
            }
        }
    }
}

/// In which place an issue is shown.
pub open spec fn place(issue: Issue) -> int {
    match issue {
        Issue::LegacyVideoCodec(_) => 0,
        Issue::LegacyAudioCodec(_) => 1,
        Issue::LegacyContainer(_) => 2,
        Issue::MissingSeekIndex => 3,
        Issue::Interlaced => 3,
        Issue::NonModernPixelFormat => 4,
        Issue::BitrateExcessive { .. } => 5,
        Issue::ResolutionWasteful => 6,
        Issue::NonSquarePixels(_) => 7,
        Issue::AudioCodecIncompatibleWithTargetContainer => 8,
    }
}

/// Whether the issues stand in order of their place.
#[verifier::opaque]
pub open spec fn in_order(issues: Seq<Issue>) -> bool {
    forall|i: int, j: int|
        0 <= i < j < issues.len() ==> place(#[trigger] issues[i]) <= place(#[trigger] issues[j])
}

/// Whether nothing but an issue of an audio track is there twice.
#[verifier::opaque]
pub open spec fn only_tracks_twice(issues: Seq<Issue>) -> bool {
    forall|i: int, j: int|
        0 <= i < j < issues.len() && #[trigger] issues[i] == #[trigger] issues[j]
            ==> issues[i] is LegacyAudioCodec
}

/// Those of the issues that are about an audio track.
#[verifier::opaque]
pub open spec fn tracks(issues: Seq<Issue>) -> Seq<Issue> {
    issues.filter(|issue: Issue| issue is LegacyAudioCodec)
}

/// The issues of those audio tracks that are out of date.
#[verifier::opaque]
pub open spec fn old_tracks(audio: Seq<AudioInfo>, container: Container) -> Seq<Issue> {
    audio.filter(|track: AudioInfo| is_old_track(track, container)).map_values(
        |track: AudioInfo| Issue::LegacyAudioCodec(track.codec),
    )
}

/// The issues stand in a fixed order, the audio tracks in theirs, and none is
/// there twice but for the tracks, of which each one that is out of date
/// counts.
pub proof fn law_order_of_findings(profile: MediaProfile, intent: Intent)
    ensures
        in_order(assess::issues_of(profile, intent)),
        only_tracks_twice(assess::issues_of(profile, intent)),
        tracks(assess::issues_of(profile, intent)) == old_tracks(profile.audio@, profile.container),
{
    let video = profile.video;
    let a = assess::issue_if(
        !assess::modern_video(video.codec),
        Issue::LegacyVideoCodec(video.codec),
    );
    let b = assess::audio_issues(profile.audio@, profile.container);
    let c = assess::issue_if(
        !assess::modern_container(profile.container),
        Issue::LegacyContainer(profile.container),
    );
    let d = assess::issue_if(video.field_order.interlaced(), Issue::Interlaced);
    let e = assess::issue_if(
        assess::pixel_format_outdated(profile),
        Issue::NonModernPixelFormat,
    );
    let f = assess::issue_if(
        intent is Shrink && assess::bitrate_excessive(profile),
        Issue::BitrateExcessive {
            actual: profile.bitrate_bps->0,
            threshold: assess::bitrate_threshold(video.height),
        },
    );
    let g = assess::issue_if(
        intent is Shrink && assess::resolution_wasteful(profile),
        Issue::ResolutionWasteful,
    );
    let h = assess::issue_if(
        !video.square_pixels(),
        Issue::NonSquarePixels(video.sar->0),
    );
    let all = assess::issues_of(profile, intent);
    assert(all == a + b + c + d + e + f + g + h);
    lemma_lone(!assess::modern_video(video.codec), Issue::LegacyVideoCodec(video.codec));
    lemma_lone(
        !assess::modern_container(profile.container),
        Issue::LegacyContainer(profile.container),
    );
    lemma_lone(video.field_order.interlaced(), Issue::Interlaced);
    lemma_lone(assess::pixel_format_outdated(profile), Issue::NonModernPixelFormat);
    lemma_lone(
        intent is Shrink && assess::bitrate_excessive(profile),
        Issue::BitrateExcessive {
            actual: profile.bitrate_bps->0,
            threshold: assess::bitrate_threshold(video.height),
        },
    );
    lemma_lone(intent is Shrink && assess::resolution_wasteful(profile), Issue::ResolutionWasteful);
    lemma_lone(!video.square_pixels(), Issue::NonSquarePixels(video.sar->0));
    lemma_tracks_in_order(profile.audio@, profile.container);
    lemma_all_tidy(a, b, c, d, e, f, g, h);
    lemma_tidy(all);
}

/// All parts one behind the other.
proof fn lemma_all_tidy(
    a: Seq<Issue>,
    b: Seq<Issue>,
    c: Seq<Issue>,
    d: Seq<Issue>,
    e: Seq<Issue>,
    f: Seq<Issue>,
    g: Seq<Issue>,
    h: Seq<Issue>,
)
    requires
        lone(a, 0),
        forall|i: int| 0 <= i < b.len() ==> #[trigger] b[i] is LegacyAudioCodec,
        lone(c, 2),
        lone(d, 3),
        lone(e, 4),
        lone(f, 5),
        lone(g, 6),
        lone(h, 7),
    ensures
        tidy(a + b + c + d + e + f + g + h, 7),
        tracks(a + b + c + d + e + f + g + h) == tracks(b),
{
    lemma_tidy_tracks(a, b);
    lemma_sum_is_tidy(a + b, c, 2);
    lemma_sum_is_tidy(a + b + c, d, 3);
    lemma_sum_is_tidy(a + b + c + d, e, 4);
    lemma_sum_is_tidy(a + b + c + d + e, f, 5);
    lemma_sum_is_tidy(a + b + c + d + e + f, g, 6);
    lemma_sum_is_tidy(a + b + c + d + e + f + g, h, 7);
}

/// What it means to be tidy.
proof fn lemma_tidy(issues: Seq<Issue>)
    requires
        tidy(issues, 7),
    ensures
        in_order(issues),
        only_tracks_twice(issues),
{
    reveal(tidy);
}

/// At most one issue, which is no track, in its place.
#[verifier::opaque]
spec fn lone(issues: Seq<Issue>, k: int) -> bool {
    &&& issues.len() <= 1
    &&& issues.len() == 1 ==> place(issues[0]) == k && !(issues[0] is LegacyAudioCodec)
}

/// One issue, where it is there, is in its place.
proof fn lemma_lone(there: bool, one: Issue)
    requires
        !(one is LegacyAudioCodec),
    ensures
        lone(assess::issue_if(there, one), place(one)),
{
    reveal(lone);
}

/// What is no track is not among the tracks.
proof fn lemma_no_more(a: Seq<Issue>, b: Seq<Issue>)
    requires
        b.len() <= 1,
        b.len() == 1 ==> !(b[0] is LegacyAudioCodec),
    ensures
        tracks(a + b) == tracks(a),
{
    reveal(Seq::filter);
    reveal(tracks);
    if b.len() == 1 {
        assert((a + b).drop_last() =~= a);
        assert((a + b).last() == b[0]);
    } else {
        assert(a + b =~= a);
    }
}

/// What comes before the tracks is none.
proof fn lemma_one_more(a: Seq<Issue>, b: Seq<Issue>)
    requires
        a.len() <= 1,
        a.len() == 1 ==> !(a[0] is LegacyAudioCodec),
    ensures
        tracks(a + b) == tracks(b),
    decreases b.len(),
{
    reveal(Seq::filter);
    reveal(tracks);
    if b.len() == 0 {
        lemma_no_more(Seq::empty(), a);
        assert(Seq::<Issue>::empty() + a =~= a);
        assert(a + b =~= a);
        assert(b =~= Seq::<Issue>::empty());
    } else {
        lemma_one_more(a, b.drop_last());
        assert((a + b).drop_last() =~= a + b.drop_last());
        assert((a + b).last() == b.last());
    }
}

/// In order up to a place, and nothing but tracks twice.
#[verifier::opaque]
spec fn tidy(issues: Seq<Issue>, k: int) -> bool {
    &&& in_order(issues)
    &&& only_tracks_twice(issues)
    &&& forall|i: int| 0 <= i < issues.len() ==> place(#[trigger] issues[i]) <= k
}

/// The tracks go behind the video.
proof fn lemma_tidy_tracks(a: Seq<Issue>, b: Seq<Issue>)
    requires
        lone(a, 0),
        forall|i: int| 0 <= i < b.len() ==> #[trigger] b[i] is LegacyAudioCodec,
    ensures
        tidy(a + b, 1),
        tracks(a + b) == tracks(b),
{
    reveal(tidy);
    reveal(lone);
    reveal(in_order);
    reveal(only_tracks_twice);
    let whole = a + b;
    lemma_one_more(a, b);
    assert forall|i: int| a.len() <= i < whole.len() implies #[trigger] whole[i] is LegacyAudioCodec by {
        assert(whole[i] == b[i - a.len()]);
    }
    if a.len() == 1 {
        assert(whole[0] == a[0]);
    }
}

/// What comes next goes behind.
proof fn lemma_sum_is_tidy(a: Seq<Issue>, b: Seq<Issue>, k: int)
    requires
        tidy(a, k - 1),
        lone(b, k),
    ensures
        tidy(a + b, k),
        tracks(a + b) == tracks(a),
{
    reveal(tidy);
    reveal(lone);
    reveal(in_order);
    reveal(only_tracks_twice);
    let whole = a + b;
    lemma_no_more(a, b);
    assert forall|i: int| 0 <= i < a.len() implies #[trigger] whole[i] == a[i] by {}
    if b.len() == 1 {
        assert(whole[a.len() as int] == b[0]);
    }
}

/// The issues of the audio tracks are theirs, one by one.
proof fn lemma_tracks_in_order(audio: Seq<AudioInfo>, container: Container)
    ensures
        ({
            let found = assess::audio_issues(audio, container);
            &&& forall|i: int| 0 <= i < found.len() ==> #[trigger] found[i] is LegacyAudioCodec
            &&& tracks(found) == found
            &&& found == old_tracks(audio, container)
        }),
    decreases audio.len(),
{
    reveal(Seq::filter);
    reveal(tracks);
    reveal(old_tracks);
    let found = assess::audio_issues(audio, container);
    let old = |track: AudioInfo| is_old_track(track, container);
    let name = |track: AudioInfo| Issue::LegacyAudioCodec(track.codec);
    if audio.len() > 0 {
        let before = assess::audio_issues(audio.drop_last(), container);
        lemma_tracks_in_order(audio.drop_last(), container);
        if is_old_track(audio.last(), container) {
            assert(found.drop_last() =~= before);
            assert(audio.filter(old) =~= audio.drop_last().filter(old).push(audio.last()));
            assert(audio.filter(old).map_values(name) =~= audio.drop_last().filter(old).map_values(
                name,
            ).push(name(audio.last())));
        }
    } else {
        assert(audio.filter(old).map_values(name) =~= Seq::<Issue>::empty());
    }
}

/// A file is left alone exactly where nobody said what to do with it or
/// forced it, and nothing is wrong with it.
pub proof fn law_fine(profile: MediaProfile)
    ensures
        assess::issues_of(profile, Intent::Auto).len() == 0 <==> ({
            let video = profile.video;
            let c = profile.container;
            &&& video.codec is H264 || video.codec is H265 || video.codec is Av1
                || video.codec is Vp9
            &&& c is Mp4 || c is Mkv || c is WebM
            &&& video.field_order is Progressive || video.field_order is Unknown
            &&& video.pix_fmt is None || video.pix_fmt->0 is Yuv420p
                || video.pix_fmt->0 is Yuv420p10le
            &&& video.sar is None || (video.sar->0.num == 1 && video.sar->0.den == 1)
            &&& forall|i: int|
                0 <= i < profile.audio@.len() ==> !is_old_track(#[trigger] profile.audio@[i], c)
        }),
{
    assess::law_fine_iff_all_modern(profile, Intent::Auto);
    let video = profile.video;
    if let Some(sar) = video.sar {
        assert(sar.num == 1 && sar.den == 1 <==> sar == Rational { num: 1, den: 1 });
    }
    assert forall|i: int| 0 <= i < profile.audio@.len() implies is_old_track(
        #[trigger] profile.audio@[i],
        profile.container,
    ) == !assess::modern_audio(profile.audio@[i].codec, profile.container) by {}
}

/// Left to itself, a file is encoded anew exactly where its video codec or an
/// audio track is out of date, it is interlaced, or its pixels are not of a
/// modern format or not square; else its streams are copied. What was asked
/// for outright is done whatever is found.
pub proof fn law_automatic_choice(profile: MediaProfile, overrides: Overrides, intent: Intent)
    ensures
        ({
            let video = profile.video;
            let needed = {
                ||| !(video.codec is H264 || video.codec is H265 || video.codec is Av1
                    || video.codec is Vp9)
                ||| exists|i: int|
                    0 <= i < profile.audio@.len() && is_old_track(
                        #[trigger] profile.audio@[i],
                        profile.container,
                    )
                ||| video.field_order is InterlacedTopFirst
                ||| video.field_order is InterlacedBottomFirst
                ||| video.pix_fmt is Some && !(video.pix_fmt->0 is Yuv420p
                    || video.pix_fmt->0 is Yuv420p10le)
                ||| video.sar is Some && !(video.sar->0.num == 1 && video.sar->0.den == 1)
            };
            &&& needed ==> flow::own_plan(profile, Intent::Auto, overrides) == flow::own_plan(
                profile,
                Intent::Reencode,
                overrides,
            )
            &&& !needed ==> flow::own_plan(profile, Intent::Auto, overrides) == flow::own_plan(
                profile,
                Intent::Remux,
                overrides,
            )
        }),
        !(intent is Auto) ==> flow::own_plan(profile, intent, overrides) == plan::planned(
            profile,
            Seq::empty(),
            intent,
            overrides,
        ),
{
    let issues = assess::issues_of(profile, Intent::Auto);
    let video = profile.video;
    recipes::law_auto(profile, issues, overrides);
    if let Some(sar) = video.sar {
        law_findings(profile, Intent::Auto, Issue::NonSquarePixels(sar));
    }
    law_findings(profile, Intent::Auto, Issue::LegacyVideoCodec(video.codec));
    law_findings(profile, Intent::Auto, Issue::Interlaced);
    law_findings(profile, Intent::Auto, Issue::NonModernPixelFormat);
    assert forall|i: int|
        0 <= i < profile.audio@.len() && is_old_track(#[trigger] profile.audio@[i], profile.container)
        implies issues.contains(Issue::LegacyAudioCodec(profile.audio@[i].codec)) by {
        law_findings(
            profile,
            Intent::Auto,
            Issue::LegacyAudioCodec(profile.audio@[i].codec),
        );
    }
    if exists|i: int|
        0 <= i < issues.len() && !(#[trigger] issues[i] is LegacyContainer)
            && !(issues[i] is MissingSeekIndex) {
        let i = choose|i: int|
            0 <= i < issues.len() && !(#[trigger] issues[i] is LegacyContainer)
                && !(issues[i] is MissingSeekIndex);
        assert(issues.contains(issues[i]));
        law_findings(profile, Intent::Auto, issues[i]);
    } else {
        assert forall|issue: Issue| #[trigger] issues.contains(issue) implies issue is LegacyContainer
            || issue is MissingSeekIndex by {
            let i = choose|i: int| 0 <= i < issues.len() && issues[i] == issue;
            assert(issues[i] == issue);
        }
    }
}

} // verus!
