//! What stands in the arguments of ffmpeg.
//!
//! ffmpeg reads everything between its global options and the output as pairs
//! of a flag and a value. [`values`] reads the arguments in that way, and the
//! laws say which values each flag has.

use vstd::prelude::*;

use crate::assess::Issue;
use crate::execute;
use crate::model::{Container, MediaProfile};
use crate::plan;
use crate::plan::{
    AudioStrategy, ConcatStrategy, Intent, Overrides, RecipeView, VideoFilter, VideoStrategyView,
};
use crate::text;

verus! {

/// The values that `flag` has in `options`, read as pairs of a flag and a
/// value.
pub open spec fn values(options: Seq<Seq<char>>, flag: Seq<char>) -> Seq<Seq<char>>
    decreases options.len(),
{
    if options.len() < 2 {
        Seq::empty()
    } else if options[0] == flag {
        seq![options[1]] + values(options.skip(2), flag)
    } else {
        values(options.skip(2), flag)
    }
}

/// What stands between the five global arguments and the output.
pub open spec fn options(args: Seq<Seq<char>>) -> Seq<Seq<char>> {
    args.subrange(5, args.len() - 1)
}

/// What one pair of a flag and a value gives to the reader of `flag`.
spec fn given(key: Seq<char>, value: Seq<char>, flag: Seq<char>) -> Seq<Seq<char>> {
    if key == flag {
        seq![value]
    } else {
        Seq::empty()
    }
}

/// Pairs are read from left to right.
proof fn lemma_values_of_sum(a: Seq<Seq<char>>, b: Seq<Seq<char>>, flag: Seq<char>)
    requires
        a.len() % 2 == 0,
    ensures
        values(a + b, flag) == values(a, flag) + values(b, flag),
    decreases a.len(),
{
    if a.len() == 0 {
        assert(a + b =~= b);
        assert(values(a, flag) + values(b, flag) =~= values(b, flag));
    } else {
        lemma_values_of_sum(a.skip(2), b, flag);
        assert((a + b).skip(2) =~= a.skip(2) + b);
        assert((a + b)[0] == a[0] && (a + b)[1] == a[1]);
        assert(values(a + b, flag) =~= values(a, flag) + values(b, flag));
    }
}

/// One pair gives its value to its own flag.
proof fn lemma_values_of_pair(key: Seq<char>, value: Seq<char>, flag: Seq<char>)
    ensures
        values(seq![key, value], flag) == given(key, value, flag),
{
    let pair = seq![key, value];
    assert(pair.skip(2).len() == 0);
    assert(values(pair.skip(2), flag) =~= Seq::<Seq<char>>::empty());
    assert(values(pair, flag) =~= given(key, value, flag));
}

/// Some pairs, and one more.
proof fn lemma_values_of_more(
    front: Seq<Seq<char>>,
    key: Seq<char>,
    value: Seq<char>,
    flag: Seq<char>,
)
    requires
        front.len() % 2 == 0,
    ensures
        values(front + seq![key, value], flag) == values(front, flag) + given(key, value, flag),
{
    lemma_values_of_sum(front, seq![key, value], flag);
    lemma_values_of_pair(key, value, flag);
}

/// No two of the flags are the same.
proof fn lemma_flags()
    ensures
        "-fflags"@.len() == 7 && "-fflags"@[1] == 'f',
        "-i"@.len() == 2 && "-i"@[1] == 'i',
        "-f"@.len() == 2 && "-f"@[1] == 'f',
        "-safe"@.len() == 5,
        "-map"@.len() == 4 && "-map"@[1] == 'm',
        "-c:v"@.len() == 4 && "-c:v"@[1] == 'c' && "-c:v"@[3] == 'v',
        "-c:a"@.len() == 4 && "-c:a"@[1] == 'c' && "-c:a"@[3] == 'a',
        "-c:s"@.len() == 4 && "-c:s"@[1] == 'c' && "-c:s"@[3] == 's',
        "-crf"@.len() == 4 && "-crf"@[1] == 'c' && "-crf"@[3] == 'f',
        "-b:v"@.len() == 4 && "-b:v"@[1] == 'b' && "-b:v"@[3] == 'v',
        "-b:a"@.len() == 4 && "-b:a"@[1] == 'b' && "-b:a"@[3] == 'a',
        "-preset"@.len() == 7 && "-preset"@[1] == 'p',
        "-maxrate"@.len() == 8 && "-maxrate"@[1] == 'm',
        "-bufsize"@.len() == 8 && "-bufsize"@[1] == 'b',
        "-vf"@.len() == 3 && "-vf"@[1] == 'v',
        "-ac"@.len() == 3 && "-ac"@[1] == 'a',
{
    reveal_strlit("-fflags");
    reveal_strlit("-i");
    reveal_strlit("-f");
    reveal_strlit("-safe");
    reveal_strlit("-map");
    reveal_strlit("-c:v");
    reveal_strlit("-c:a");
    reveal_strlit("-c:s");
    reveal_strlit("-crf");
    reveal_strlit("-b:v");
    reveal_strlit("-b:a");
    reveal_strlit("-preset");
    reveal_strlit("-maxrate");
    reveal_strlit("-bufsize");
    reveal_strlit("-vf");
    reveal_strlit("-ac");
}

/// The inputs, each under its own flag.
proof fn lemma_separate_inputs(
    inputs: Seq<Seq<char>>,
    containers: Seq<Container>,
    flag: Seq<char>,
)
    requires
        inputs.len() == containers.len(),
    ensures
        execute::separate_inputs(inputs, containers).len() == 2 * (inputs.len()
            + containers.filter(|c: Container| c is Avi || c is MpegPs || c is MpegTs).len()),
        flag == "-i"@ ==> values(execute::separate_inputs(inputs, containers), flag) == inputs,
        flag != "-i"@ && flag != "-fflags"@ ==> values(
            execute::separate_inputs(inputs, containers),
            flag,
        ).len() == 0,
        flag == "-fflags"@ ==> values(execute::separate_inputs(inputs, containers), flag).len()
            == containers.filter(
            |c: Container| c is Avi || c is MpegPs || c is MpegTs,
        ).len(),
    decreases inputs.len(),
{
    let all = execute::separate_inputs(inputs, containers);
    lemma_flags();
    reveal(Seq::filter);
    if inputs.len() > 0 {
        let last = containers.last();
        let front = execute::separate_inputs(inputs.drop_last(), containers.drop_last());
        lemma_separate_inputs(inputs.drop_last(), containers.drop_last(), flag);
        lemma_separate_inputs_of_fewer(inputs.drop_last(), containers);
        assert(containers.take(inputs.len() - 1) =~= containers.drop_last());
        assert(containers[inputs.len() - 1] == last);
        let middle = if execute::lacks_timestamps(last) {
            front + seq!["-fflags"@, "+genpts"@]
        } else {
            front
        };
        assert(all =~= middle + seq!["-i"@, inputs.last()]);
        if execute::lacks_timestamps(last) {
            lemma_values_of_more(front, "-fflags"@, "+genpts"@, flag);
        }
        lemma_values_of_more(middle, "-i"@, inputs.last(), flag);
        if flag == "-i"@ {
            assert(values(all, flag) =~= inputs);
        }
    } else {
        assert(values(all, flag) =~= Seq::<Seq<char>>::empty());
        assert(inputs =~= Seq::<Seq<char>>::empty());
    }
}

/// Only the containers of the inputs matter.
proof fn lemma_separate_inputs_of_fewer(inputs: Seq<Seq<char>>, containers: Seq<Container>)
    requires
        inputs.len() <= containers.len(),
    ensures
        execute::separate_inputs(inputs, containers) == execute::separate_inputs(
            inputs,
            containers.take(inputs.len() as int),
        ),
    decreases inputs.len(),
{
    if inputs.len() > 0 {
        let n = inputs.len() as int;
        lemma_separate_inputs_of_fewer(inputs.drop_last(), containers);
        lemma_separate_inputs_of_fewer(inputs.drop_last(), containers.take(n));
        assert(containers.take(n).take(n - 1) =~= containers.take(n - 1));
        assert(containers.take(n)[n - 1] == containers[n - 1]);
    }
}

/// The options are those of the inputs, the streams, the video, the filters,
/// the audio and the subtitles, and then the recipe's own.
proof fn lemma_options(
    inputs: Seq<Seq<char>>,
    containers: Seq<Container>,
    output: Seq<char>,
    recipe: RecipeView,
    overwrite: bool,
    list: Option<Seq<char>>,
    flag: Seq<char>,
)
    requires
        inputs.len() == containers.len(),
    ensures
        ({
            let i = execute::input_args(inputs, containers, recipe.concat, list);
            let s = execute::stream_args(inputs.len(), recipe.concat);
            let v = execute::video_args(recipe.video_strategy);
            let f = execute::filter_args(recipe.video_filters);
            let a = execute::audio_args(recipe.audio_strategy);
            let o = options(
                execute::argv(inputs, containers, output, recipe, overwrite, list),
            );
            &&& o.len() == i.len() + s.len() + v.len() + f.len() + a.len() + 2
                + recipe.extra_flags.len()
            &&& i.len() % 2 == 0
            &&& values(o, flag) == values(i, flag) + values(s, flag) + values(v, flag) + values(
                f,
                flag,
            ) + values(a, flag) + given("-c:s"@, "copy"@, flag) + values(recipe.extra_flags, flag)
        }),
{
    let i = execute::input_args(inputs, containers, recipe.concat, list);
    let s = execute::stream_args(inputs.len(), recipe.concat);
    let v = execute::video_args(recipe.video_strategy);
    let f = execute::filter_args(recipe.video_filters);
    let a = execute::audio_args(recipe.audio_strategy);
    let c = seq!["-c:s"@, "copy"@];
    let e = recipe.extra_flags;
    let args = execute::argv(inputs, containers, output, recipe, overwrite, list);
    lemma_separate_inputs(inputs, containers, flag);
    assert(options(args) =~= i + s + v + f + a + c + e);
    assert(i.len() % 2 == 0 && s.len() % 2 == 0 && v.len() % 2 == 0 && f.len() % 2 == 0 && a.len()
        % 2 == 0);
    lemma_values_of_sum(i, s, flag);
    lemma_values_of_sum(i + s, v, flag);
    lemma_values_of_sum(i + s + v, f, flag);
    lemma_values_of_sum(i + s + v + f, a, flag);
    lemma_values_of_sum(i + s + v + f + a, c, flag);
    lemma_values_of_sum(i + s + v + f + a + c, e, flag);
    lemma_values_of_pair("-c:s"@, "copy"@, flag);
}

/// What each flag finds in the options of one strategy.
proof fn lemma_parts(
    video: VideoStrategyView,
    filters: Seq<VideoFilter>,
    audio: AudioStrategy,
    flag: Seq<char>,
)
    ensures
        values(seq!["-map"@, "0:v:0"@, "-map"@, "0:a?"@, "-map"@, "0:s?"@], flag) == given(
            "-map"@,
            "0:v:0"@,
            flag,
        ) + given("-map"@, "0:a?"@, flag) + given("-map"@, "0:s?"@, flag),
        values(execute::video_args(video), flag) == (match video {
            VideoStrategyView::Copy => given("-c:v"@, "copy"@, flag),
            VideoStrategyView::ReencodeX264 { crf, preset } => given("-c:v"@, "libx264"@, flag)
                + given("-crf"@, text::decimal(crf as nat), flag) + given("-preset"@, preset, flag),
            VideoStrategyView::ReencodeX265 { crf, preset } => given("-c:v"@, "libx265"@, flag)
                + given("-crf"@, text::decimal(crf as nat), flag) + given("-preset"@, preset, flag),
            VideoStrategyView::ReencodeX264Abr { target_bps, max_bps, bufsize_bps, preset } => given(
                "-c:v"@,
                "libx264"@,
                flag,
            ) + given("-b:v"@, text::decimal(target_bps as nat), flag) + given(
                "-maxrate"@,
                text::decimal(max_bps as nat),
                flag,
            ) + given("-bufsize"@, text::decimal(bufsize_bps as nat), flag) + given(
                "-preset"@,
                preset,
                flag,
            ),
            VideoStrategyView::ReencodeX265Abr { target_bps, max_bps, bufsize_bps, preset } => given(
                "-c:v"@,
                "libx265"@,
                flag,
            ) + given("-b:v"@, text::decimal(target_bps as nat), flag) + given(
                "-maxrate"@,
                text::decimal(max_bps as nat),
                flag,
            ) + given("-bufsize"@, text::decimal(bufsize_bps as nat), flag) + given(
                "-preset"@,
                preset,
                flag,
            ),
        }),
        values(execute::filter_args(filters), flag) == (if filters.len() == 0 {
            Seq::empty()
        } else {
            given("-vf"@, execute::chain_text(filters), flag)
        }),
        values(execute::audio_args(audio), flag) == (match audio {
            AudioStrategy::Copy => given("-c:a"@, "copy"@, flag),
            AudioStrategy::AacStereo { bitrate_bps } => given("-c:a"@, "aac"@, flag) + given(
                "-ac"@,
                "2"@,
                flag,
            ) + given("-b:a"@, execute::audio_bitrate_text(bitrate_bps), flag),
            AudioStrategy::AacMultichannel { bitrate_bps } => given("-c:a"@, "aac"@, flag) + given(
                "-b:a"@,
                execute::audio_bitrate_text(bitrate_bps),
                flag,
            ),
        }),
{
    lemma_values_of_three("-map"@, "0:v:0"@, "-map"@, "0:a?"@, "-map"@, "0:s?"@, flag);
    match video {
        VideoStrategyView::Copy => {
            lemma_values_of_pair("-c:v"@, "copy"@, flag);
        },
        VideoStrategyView::ReencodeX264 { crf, preset } => {
            lemma_values_of_three(
                "-c:v"@,
                "libx264"@,
                "-crf"@,
                text::decimal(crf as nat),
                "-preset"@,
                preset,
                flag,
            );
        },
        VideoStrategyView::ReencodeX265 { crf, preset } => {
            lemma_values_of_three(
                "-c:v"@,
                "libx265"@,
                "-crf"@,
                text::decimal(crf as nat),
                "-preset"@,
                preset,
                flag,
            );
        },
        VideoStrategyView::ReencodeX264Abr { target_bps, max_bps, bufsize_bps, preset } => {
            lemma_values_of_bitrates("libx264"@, target_bps, max_bps, bufsize_bps, preset, flag);
        },
        VideoStrategyView::ReencodeX265Abr { target_bps, max_bps, bufsize_bps, preset } => {
            lemma_values_of_bitrates("libx265"@, target_bps, max_bps, bufsize_bps, preset, flag);
        },
    }
    if filters.len() > 0 {
        lemma_values_of_pair("-vf"@, execute::chain_text(filters), flag);
    } else {
        assert(values(execute::filter_args(filters), flag) =~= Seq::<Seq<char>>::empty());
    }
    match audio {
        AudioStrategy::Copy => {
            lemma_values_of_pair("-c:a"@, "copy"@, flag);
        },
        AudioStrategy::AacStereo { bitrate_bps } => {
            lemma_values_of_three(
                "-c:a"@,
                "aac"@,
                "-ac"@,
                "2"@,
                "-b:a"@,
                execute::audio_bitrate_text(bitrate_bps),
                flag,
            );
        },
        AudioStrategy::AacMultichannel { bitrate_bps } => {
            let b = execute::audio_bitrate_text(bitrate_bps);
            lemma_values_of_pair("-c:a"@, "aac"@, flag);
            lemma_values_of_more(seq!["-c:a"@, "aac"@], "-b:a"@, b, flag);
            assert(seq!["-c:a"@, "aac"@] + seq!["-b:a"@, b] =~= execute::audio_args(audio));
        },
    }
}

/// Three pairs.
proof fn lemma_values_of_three(
    k1: Seq<char>,
    v1: Seq<char>,
    k2: Seq<char>,
    v2: Seq<char>,
    k3: Seq<char>,
    v3: Seq<char>,
    flag: Seq<char>,
)
    ensures
        values(seq![k1, v1, k2, v2, k3, v3], flag) == given(k1, v1, flag) + given(k2, v2, flag)
            + given(k3, v3, flag),
{
    lemma_values_of_pair(k1, v1, flag);
    lemma_values_of_more(seq![k1, v1], k2, v2, flag);
    lemma_values_of_more(seq![k1, v1] + seq![k2, v2], k3, v3, flag);
    assert(seq![k1, v1, k2, v2, k3, v3] =~= seq![k1, v1] + seq![k2, v2] + seq![k3, v3]);
}

/// The five pairs of average-bitrate encoding.
proof fn lemma_values_of_bitrates(
    encoder: Seq<char>,
    target_bps: u64,
    max_bps: u64,
    bufsize_bps: u64,
    preset: Seq<char>,
    flag: Seq<char>,
)
    ensures
        values(
            execute::bitrate_args(encoder, target_bps, max_bps, bufsize_bps, preset),
            flag,
        ) == given("-c:v"@, encoder, flag) + given("-b:v"@, text::decimal(target_bps as nat), flag)
            + given("-maxrate"@, text::decimal(max_bps as nat), flag) + given(
            "-bufsize"@,
            text::decimal(bufsize_bps as nat),
            flag,
        ) + given("-preset"@, preset, flag),
{
    let t = text::decimal(target_bps as nat);
    let m = text::decimal(max_bps as nat);
    let b = text::decimal(bufsize_bps as nat);
    let three = seq!["-c:v"@, encoder, "-b:v"@, t, "-maxrate"@, m];
    lemma_values_of_three("-c:v"@, encoder, "-b:v"@, t, "-maxrate"@, m, flag);
    lemma_values_of_more(three, "-bufsize"@, b, flag);
    lemma_values_of_more(three + seq!["-bufsize"@, b], "-preset"@, preset, flag);
    assert(execute::bitrate_args(encoder, target_bps, max_bps, bufsize_bps, preset) =~= three
        + seq!["-bufsize"@, b] + seq!["-preset"@, preset]);
}

/// The video is encoded by x264 exactly where the recipe says x264, by x265
/// exactly where it says x265, and copied exactly where it says so. Constant
/// quality comes with its CRF and preset and no bitrate, an average bitrate
/// with its three rates and preset and no CRF, and a copy with none of these.
pub proof fn law_video_options(
    inputs: Seq<Seq<char>>,
    containers: Seq<Container>,
    output: Seq<char>,
    recipe: RecipeView,
    overwrite: bool,
    list: Option<Seq<char>>,
)
    requires
        inputs.len() == containers.len(),
    ensures
        ({
            let o = options(execute::argv(inputs, containers, output, recipe, overwrite, list));
            let e = recipe.extra_flags;
            let s = recipe.video_strategy;
            &&& s is Copy ==> values(o, "-c:v"@) == seq!["copy"@] + values(e, "-c:v"@)
            &&& s is ReencodeX264 || s is ReencodeX264Abr ==> values(o, "-c:v"@)
                == seq!["libx264"@] + values(e, "-c:v"@)
            &&& s is ReencodeX265 || s is ReencodeX265Abr ==> values(o, "-c:v"@)
                == seq!["libx265"@] + values(e, "-c:v"@)
            &&& s matches VideoStrategyView::ReencodeX264 { crf, preset } ==> (values(o, "-crf"@)
                == seq![text::decimal(crf as nat)] + values(e, "-crf"@) && values(o, "-preset"@)
                == seq![preset] + values(e, "-preset"@))
            &&& s matches VideoStrategyView::ReencodeX265 { crf, preset } ==> (values(o, "-crf"@)
                == seq![text::decimal(crf as nat)] + values(e, "-crf"@) && values(o, "-preset"@)
                == seq![preset] + values(e, "-preset"@))
            &&& s matches VideoStrategyView::ReencodeX264Abr {
                target_bps,
                max_bps,
                bufsize_bps,
                preset,
            } ==> (values(o, "-b:v"@) == seq![text::decimal(target_bps as nat)] + values(e, "-b:v"@)
                && values(o, "-maxrate"@) == seq![text::decimal(max_bps as nat)] + values(
                e,
                "-maxrate"@,
            ) && values(o, "-bufsize"@) == seq![text::decimal(bufsize_bps as nat)] + values(
                e,
                "-bufsize"@,
            ) && values(o, "-preset"@) == seq![preset] + values(e, "-preset"@))
            &&& s matches VideoStrategyView::ReencodeX265Abr {
                target_bps,
                max_bps,
                bufsize_bps,
                preset,
            } ==> (values(o, "-b:v"@) == seq![text::decimal(target_bps as nat)] + values(e, "-b:v"@)
                && values(o, "-maxrate"@) == seq![text::decimal(max_bps as nat)] + values(
                e,
                "-maxrate"@,
            ) && values(o, "-bufsize"@) == seq![text::decimal(bufsize_bps as nat)] + values(
                e,
                "-bufsize"@,
            ) && values(o, "-preset"@) == seq![preset] + values(e, "-preset"@))
            &&& s is Copy || s is ReencodeX264Abr || s is ReencodeX265Abr ==> values(o, "-crf"@)
                == values(e, "-crf"@)
            &&& s is Copy ==> values(o, "-preset"@) == values(e, "-preset"@)
            &&& s is Copy || s is ReencodeX264 || s is ReencodeX265 ==> (values(o, "-b:v"@)
                == values(e, "-b:v"@) && values(o, "-maxrate"@) == values(e, "-maxrate"@)
                && values(o, "-bufsize"@) == values(e, "-bufsize"@))
        }),
{
    lemma_flags();
    lemma_video_values(inputs, containers, output, recipe, overwrite, list, "-c:v"@);
    lemma_video_values(inputs, containers, output, recipe, overwrite, list, "-crf"@);
    lemma_video_values(inputs, containers, output, recipe, overwrite, list, "-preset"@);
    lemma_video_values(inputs, containers, output, recipe, overwrite, list, "-b:v"@);
    lemma_video_values(inputs, containers, output, recipe, overwrite, list, "-maxrate"@);
    lemma_video_values(inputs, containers, output, recipe, overwrite, list, "-bufsize"@);
}

/// A flag of the video finds nothing but the video's values and those of the
/// recipe's own flags.
proof fn lemma_video_values(
    inputs: Seq<Seq<char>>,
    containers: Seq<Container>,
    output: Seq<char>,
    recipe: RecipeView,
    overwrite: bool,
    list: Option<Seq<char>>,
    flag: Seq<char>,
)
    requires
        inputs.len() == containers.len(),
        flag == "-c:v"@ || flag == "-crf"@ || flag == "-preset"@ || flag == "-b:v"@ || flag
            == "-maxrate"@ || flag == "-bufsize"@,
    ensures
        ({
            let o = options(execute::argv(inputs, containers, output, recipe, overwrite, list));
            let e = values(recipe.extra_flags, flag);
            match recipe.video_strategy {
                VideoStrategyView::Copy => values(o, flag) == given("-c:v"@, "copy"@, flag) + e,
                VideoStrategyView::ReencodeX264 { crf, preset } => values(o, flag) == (if flag
                    == "-c:v"@ {
                    seq!["libx264"@]
                } else if flag == "-crf"@ {
                    seq![text::decimal(crf as nat)]
                } else {
                    given("-preset"@, preset, flag)
                }) + e,
                VideoStrategyView::ReencodeX265 { crf, preset } => values(o, flag) == (if flag
                    == "-c:v"@ {
                    seq!["libx265"@]
                } else if flag == "-crf"@ {
                    seq![text::decimal(crf as nat)]
                } else {
                    given("-preset"@, preset, flag)
                }) + e,
                VideoStrategyView::ReencodeX264Abr { target_bps, max_bps, bufsize_bps, preset } => {
                    values(o, flag) == rated_values(
                        "libx264"@,
                        target_bps,
                        max_bps,
                        bufsize_bps,
                        preset,
                        flag,
                    ) + e
                },
                VideoStrategyView::ReencodeX265Abr { target_bps, max_bps, bufsize_bps, preset } => {
                    values(o, flag) == rated_values(
                        "libx265"@,
                        target_bps,
                        max_bps,
                        bufsize_bps,
                        preset,
                        flag,
                    ) + e
                },
            }
        }),
{
    let o = options(execute::argv(inputs, containers, output, recipe, overwrite, list));
    let e = values(recipe.extra_flags, flag);
    let v = values(execute::video_args(recipe.video_strategy), flag);
    lemma_flags();
    lemma_options(inputs, containers, output, recipe, overwrite, list, flag);
    lemma_parts(recipe.video_strategy, recipe.video_filters, recipe.audio_strategy, flag);
    lemma_input_values(inputs, containers, recipe.concat, list, flag);
    assert(values(o, flag) =~= v + e);
    match recipe.video_strategy {
        VideoStrategyView::Copy => {},
        VideoStrategyView::ReencodeX264 { crf, preset } => {
            assert(v =~= (if flag == "-c:v"@ {
                seq!["libx264"@]
            } else if flag == "-crf"@ {
                seq![text::decimal(crf as nat)]
            } else {
                given("-preset"@, preset, flag)
            }));
        },
        VideoStrategyView::ReencodeX265 { crf, preset } => {
            assert(v =~= (if flag == "-c:v"@ {
                seq!["libx265"@]
            } else if flag == "-crf"@ {
                seq![text::decimal(crf as nat)]
            } else {
                given("-preset"@, preset, flag)
            }));
        },
        VideoStrategyView::ReencodeX264Abr { target_bps, max_bps, bufsize_bps, preset } => {
            assert(v =~= rated_values(
                "libx264"@,
                target_bps,
                max_bps,
                bufsize_bps,
                preset,
                flag,
            ));
        },
        VideoStrategyView::ReencodeX265Abr { target_bps, max_bps, bufsize_bps, preset } => {
            assert(v =~= rated_values(
                "libx265"@,
                target_bps,
                max_bps,
                bufsize_bps,
                preset,
                flag,
            ));
        },
    }
}

/// The values of average-bitrate encoding.
spec fn rated_values(
    encoder: Seq<char>,
    target_bps: u64,
    max_bps: u64,
    bufsize_bps: u64,
    preset: Seq<char>,
    flag: Seq<char>,
) -> Seq<Seq<char>> {
    if flag == "-c:v"@ {
        seq![encoder]
    } else if flag == "-b:v"@ {
        seq![text::decimal(target_bps as nat)]
    } else if flag == "-maxrate"@ {
        seq![text::decimal(max_bps as nat)]
    } else if flag == "-bufsize"@ {
        seq![text::decimal(bufsize_bps as nat)]
    } else {
        given("-preset"@, preset, flag)
    }
}

/// What each flag finds among the inputs and the choice of streams.
proof fn lemma_input_values(
    inputs: Seq<Seq<char>>,
    containers: Seq<Container>,
    concat: Option<ConcatStrategy>,
    list: Option<Seq<char>>,
    flag: Seq<char>,
)
    requires
        inputs.len() == containers.len(),
    ensures
        ({
            let i = values(execute::input_args(inputs, containers, concat, list), flag);
            let s = values(execute::stream_args(inputs.len(), concat), flag);
            &&& flag != "-i"@ && flag != "-fflags"@ && flag != "-f"@ && flag != "-safe"@
                ==> i.len() == 0
            &&& flag != "-map"@ ==> s.len() == 0
            &&& flag == "-map"@ && (concat is Some || inputs.len() == 1) ==> s =~= seq![
                "0:v:0"@,
                "0:a?"@,
                "0:s?"@,
            ]
            &&& flag == "-map"@ && !(concat is Some || inputs.len() == 1) ==> s.len() == 0
            &&& concat is Some && list is Some ==> i =~= given("-f"@, "concat"@, flag) + given(
                "-safe"@,
                "0"@,
                flag,
            ) + given("-i"@, list->0, flag)
        }),
{
    lemma_separate_inputs(inputs, containers, flag);
    if concat is Some && list is Some {
        lemma_values_of_three("-f"@, "concat"@, "-safe"@, "0"@, "-i"@, list->0, flag);
    }
    lemma_values_of_three("-map"@, "0:v:0"@, "-map"@, "0:a?"@, "-map"@, "0:s?"@, flag);
}

/// The audio is copied or encoded as AAC, folded down to two channels exactly
/// where the recipe says stereo, and at the recipe's bitrate.
pub proof fn law_audio_options(
    inputs: Seq<Seq<char>>,
    containers: Seq<Container>,
    output: Seq<char>,
    recipe: RecipeView,
    overwrite: bool,
    list: Option<Seq<char>>,
)
    requires
        inputs.len() == containers.len(),
    ensures
        ({
            let o = options(execute::argv(inputs, containers, output, recipe, overwrite, list));
            let e = recipe.extra_flags;
            match recipe.audio_strategy {
                AudioStrategy::Copy => {
                    &&& values(o, "-c:a"@) == seq!["copy"@] + values(e, "-c:a"@)
                    &&& values(o, "-ac"@) == values(e, "-ac"@)
                    &&& values(o, "-b:a"@) == values(e, "-b:a"@)
                },
                AudioStrategy::AacStereo { bitrate_bps } => {
                    &&& values(o, "-c:a"@) == seq!["aac"@] + values(e, "-c:a"@)
                    &&& values(o, "-ac"@) == seq!["2"@] + values(e, "-ac"@)
                    &&& exists|rate: Seq<char>|
                        values(o, "-b:a"@) == seq![rate] + values(e, "-b:a"@) && means_rate(
                            rate,
                            bitrate_bps as nat,
                        )
                },
                AudioStrategy::AacMultichannel { bitrate_bps } => {
                    &&& values(o, "-c:a"@) == seq!["aac"@] + values(e, "-c:a"@)
                    &&& values(o, "-ac"@) == values(e, "-ac"@)
                    &&& exists|rate: Seq<char>|
                        values(o, "-b:a"@) == seq![rate] + values(e, "-b:a"@) && means_rate(
                            rate,
                            bitrate_bps as nat,
                        )
                },
            }
        }),
{
    let o = options(execute::argv(inputs, containers, output, recipe, overwrite, list));
    let e = recipe.extra_flags;
    lemma_flags();
    lemma_audio_values(inputs, containers, output, recipe, overwrite, list, "-c:a"@);
    lemma_audio_values(inputs, containers, output, recipe, overwrite, list, "-ac"@);
    lemma_audio_values(inputs, containers, output, recipe, overwrite, list, "-b:a"@);
    match recipe.audio_strategy {
        AudioStrategy::Copy => {
            assert(values(o, "-c:a"@) =~= seq!["copy"@] + values(e, "-c:a"@));
            assert(values(o, "-ac"@) =~= values(e, "-ac"@));
            assert(values(o, "-b:a"@) =~= values(e, "-b:a"@));
        },
        AudioStrategy::AacStereo { bitrate_bps } => {
            let rate = execute::audio_bitrate_text(bitrate_bps);
            lemma_rate(bitrate_bps);
            assert(values(o, "-c:a"@) =~= seq!["aac"@] + values(e, "-c:a"@));
            assert(values(o, "-ac"@) =~= seq!["2"@] + values(e, "-ac"@));
            assert(values(o, "-b:a"@) =~= seq![rate] + values(e, "-b:a"@));
        },
        AudioStrategy::AacMultichannel { bitrate_bps } => {
            let rate = execute::audio_bitrate_text(bitrate_bps);
            lemma_rate(bitrate_bps);
            assert(values(o, "-c:a"@) =~= seq!["aac"@] + values(e, "-c:a"@));
            assert(values(o, "-ac"@) =~= values(e, "-ac"@));
            assert(values(o, "-b:a"@) =~= seq![rate] + values(e, "-b:a"@));
        },
    }
}

/// A flag of the audio finds nothing but the audio's values and those of the
/// recipe's own flags.
proof fn lemma_audio_values(
    inputs: Seq<Seq<char>>,
    containers: Seq<Container>,
    output: Seq<char>,
    recipe: RecipeView,
    overwrite: bool,
    list: Option<Seq<char>>,
    flag: Seq<char>,
)
    requires
        inputs.len() == containers.len(),
        flag == "-c:a"@ || flag == "-ac"@ || flag == "-b:a"@,
    ensures
        values(
            options(execute::argv(inputs, containers, output, recipe, overwrite, list)),
            flag,
        ) == values(execute::audio_args(recipe.audio_strategy), flag) + values(
            recipe.extra_flags,
            flag,
        ),
        values(execute::audio_args(recipe.audio_strategy), flag) == (match recipe.audio_strategy {
            AudioStrategy::Copy => given("-c:a"@, "copy"@, flag),
            AudioStrategy::AacStereo { bitrate_bps } => given("-c:a"@, "aac"@, flag) + given(
                "-ac"@,
                "2"@,
                flag,
            ) + given("-b:a"@, execute::audio_bitrate_text(bitrate_bps), flag),
            AudioStrategy::AacMultichannel { bitrate_bps } => given("-c:a"@, "aac"@, flag) + given(
                "-b:a"@,
                execute::audio_bitrate_text(bitrate_bps),
                flag,
            ),
        }),
{
    let o = options(execute::argv(inputs, containers, output, recipe, overwrite, list));
    lemma_flags();
    lemma_options(inputs, containers, output, recipe, overwrite, list, flag);
    lemma_parts(recipe.video_strategy, recipe.video_filters, recipe.audio_strategy, flag);
    lemma_input_values(inputs, containers, recipe.concat, list, flag);
    assert(values(execute::video_args(recipe.video_strategy), flag).len() == 0);
    assert(values(o, flag) =~= values(execute::audio_args(recipe.audio_strategy), flag) + values(
        recipe.extra_flags,
        flag,
    ));
}

/// Whether ffmpeg reads `rate` as `bps` bits per second: digits, with a `k`
/// behind them where they count thousands.
pub open spec fn means_rate(rate: Seq<char>, bps: nat) -> bool {
    if rate.len() > 0 && rate.last() == 'k' {
        rate.len() > 1 && text::all_digits(rate.drop_last()) && text::digits_value(
            rate.drop_last(),
        ) * 1000 == bps
    } else {
        rate.len() > 0 && text::all_digits(rate) && text::digits_value(rate) == bps
    }
}

/// The bitrate of the audio is written as ffmpeg reads it.
proof fn lemma_rate(bps: u64)
    ensures
        means_rate(execute::audio_bitrate_text(bps), bps as nat),
{
    reveal_strlit("k");
    let rate = execute::audio_bitrate_text(bps);
    if bps % 1000 == 0 {
        text::law_decimal_reads_back((bps / 1000) as nat);
        assert(rate.drop_last() =~= text::decimal((bps / 1000) as nat));
        assert(rate.last() == 'k');
    } else {
        text::law_decimal_reads_back(bps as nat);
    }
}

/// Files are joined through the list alone. Else each input stands under its
/// own flag, in the order given, and ffmpeg is told to make timestamps for
/// exactly those inputs that are AVI, MPEG-PS or MPEG-TS files.
pub proof fn law_input_options(
    inputs: Seq<Seq<char>>,
    containers: Seq<Container>,
    output: Seq<char>,
    recipe: RecipeView,
    overwrite: bool,
    list: Option<Seq<char>>,
)
    requires
        inputs.len() == containers.len(),
    ensures
        ({
            let o = options(execute::argv(inputs, containers, output, recipe, overwrite, list));
            let e = recipe.extra_flags;
            if recipe.concat is Some && list is Some {
                &&& o.take(6) == seq!["-f"@, "concat"@, "-safe"@, "0"@, "-i"@, list->0]
                &&& values(o, "-i"@) == seq![list->0] + values(e, "-i"@)
                &&& values(o, "-f"@) == seq!["concat"@] + values(e, "-f"@)
                &&& values(o, "-safe"@) == seq!["0"@] + values(e, "-safe"@)
                &&& values(o, "-fflags"@) == values(e, "-fflags"@)
            } else {
                &&& values(o, "-i"@) == inputs + values(e, "-i"@)
                &&& values(o, "-f"@) == values(e, "-f"@)
                &&& values(o, "-safe"@) == values(e, "-safe"@)
                &&& values(o, "-fflags"@).len() == containers.filter(
                    |c: Container| c is Avi || c is MpegPs || c is MpegTs,
                ).len() + values(e, "-fflags"@).len()
                &&& inputs.len() == 1 && (containers[0] is Avi || containers[0] is MpegPs
                    || containers[0] is MpegTs) ==> o.take(4) == seq![
                    "-fflags"@,
                    "+genpts"@,
                    "-i"@,
                    inputs[0],
                ]
                &&& inputs.len() == 1 && !(containers[0] is Avi || containers[0] is MpegPs
                    || containers[0] is MpegTs) ==> o.take(2) == seq!["-i"@, inputs[0]]
            }
        }),
{
    let args = execute::argv(inputs, containers, output, recipe, overwrite, list);
    let o = options(args);
    let e = recipe.extra_flags;
    let i = execute::input_args(inputs, containers, recipe.concat, list);
    lemma_flags();
    lemma_outer_values(inputs, containers, output, recipe, overwrite, list, "-i"@);
    lemma_outer_values(inputs, containers, output, recipe, overwrite, list, "-f"@);
    lemma_outer_values(inputs, containers, output, recipe, overwrite, list, "-safe"@);
    lemma_outer_values(inputs, containers, output, recipe, overwrite, list, "-fflags"@);
    lemma_input_values(inputs, containers, recipe.concat, list, "-i"@);
    lemma_input_values(inputs, containers, recipe.concat, list, "-f"@);
    lemma_input_values(inputs, containers, recipe.concat, list, "-safe"@);
    lemma_input_values(inputs, containers, recipe.concat, list, "-fflags"@);
    assert(o.take(i.len() as int) =~= i);
    if recipe.concat is Some && list is Some {
        assert(values(o, "-i"@) =~= seq![list->0] + values(e, "-i"@));
        assert(values(o, "-f"@) =~= seq!["concat"@] + values(e, "-f"@));
        assert(values(o, "-safe"@) =~= seq!["0"@] + values(e, "-safe"@));
        assert(values(o, "-fflags"@) =~= values(e, "-fflags"@));
    } else {
        lemma_separate_inputs(inputs, containers, "-i"@);
        lemma_separate_inputs(inputs, containers, "-f"@);
        lemma_separate_inputs(inputs, containers, "-safe"@);
        lemma_separate_inputs(inputs, containers, "-fflags"@);
        assert(values(o, "-f"@) =~= values(e, "-f"@));
        assert(values(o, "-safe"@) =~= values(e, "-safe"@));
        if inputs.len() == 1 {
            assert(execute::separate_inputs(inputs.drop_last(), containers) =~= Seq::empty());
            if containers[0] is Avi || containers[0] is MpegPs || containers[0] is MpegTs {
                assert(i =~= seq!["-fflags"@, "+genpts"@, "-i"@, inputs[0]]);
            } else {
                assert(i =~= seq!["-i"@, inputs[0]]);
            }
        }
    }
}

/// A flag of the inputs finds nothing but the values of the inputs and those
/// of the recipe's own flags.
proof fn lemma_outer_values(
    inputs: Seq<Seq<char>>,
    containers: Seq<Container>,
    output: Seq<char>,
    recipe: RecipeView,
    overwrite: bool,
    list: Option<Seq<char>>,
    flag: Seq<char>,
)
    requires
        inputs.len() == containers.len(),
        flag == "-i"@ || flag == "-f"@ || flag == "-safe"@ || flag == "-fflags"@,
    ensures
        values(
            options(execute::argv(inputs, containers, output, recipe, overwrite, list)),
            flag,
        ) == values(execute::input_args(inputs, containers, recipe.concat, list), flag) + values(
            recipe.extra_flags,
            flag,
        ),
{
    let o = options(execute::argv(inputs, containers, output, recipe, overwrite, list));
    lemma_flags();
    lemma_options(inputs, containers, output, recipe, overwrite, list, flag);
    lemma_parts(recipe.video_strategy, recipe.video_filters, recipe.audio_strategy, flag);
    lemma_input_values(inputs, containers, recipe.concat, list, flag);
    assert(values(execute::video_args(recipe.video_strategy), flag).len() == 0);
    assert(values(execute::audio_args(recipe.audio_strategy), flag).len() == 0);
    assert(values(o, flag) =~= values(
        execute::input_args(inputs, containers, recipe.concat, list),
        flag,
    ) + values(recipe.extra_flags, flag));
}

/// One input, real or virtual, gives its first video stream and whatever
/// audio and subtitles it has. Subtitles are copied. There is a filter chain
/// exactly where the recipe has a filter.
pub proof fn law_stream_options(
    inputs: Seq<Seq<char>>,
    containers: Seq<Container>,
    output: Seq<char>,
    recipe: RecipeView,
    overwrite: bool,
    list: Option<Seq<char>>,
)
    requires
        inputs.len() == containers.len(),
    ensures
        ({
            let o = options(execute::argv(inputs, containers, output, recipe, overwrite, list));
            let e = recipe.extra_flags;
            &&& values(o, "-c:s"@) == seq!["copy"@] + values(e, "-c:s"@)
            &&& recipe.concat is Some || inputs.len() == 1 ==> values(o, "-map"@) == seq![
                "0:v:0"@,
                "0:a?"@,
                "0:s?"@,
            ] + values(e, "-map"@)
            &&& recipe.concat is None && inputs.len() != 1 ==> values(o, "-map"@) == values(
                e,
                "-map"@,
            )
            &&& recipe.video_filters.len() == 0 ==> values(o, "-vf"@) == values(e, "-vf"@)
            &&& recipe.video_filters.len() > 0 ==> values(o, "-vf"@) == seq![
                execute::chain_text(recipe.video_filters),
            ] + values(e, "-vf"@)
        }),
{
    let o = options(execute::argv(inputs, containers, output, recipe, overwrite, list));
    let e = recipe.extra_flags;
    let f = recipe.video_filters;
    lemma_flags();
    lemma_inner_values(inputs, containers, output, recipe, overwrite, list, "-c:s"@);
    lemma_inner_values(inputs, containers, output, recipe, overwrite, list, "-map"@);
    lemma_inner_values(inputs, containers, output, recipe, overwrite, list, "-vf"@);
    assert(values(o, "-c:s"@) =~= seq!["copy"@] + values(e, "-c:s"@));
    if recipe.concat is Some || inputs.len() == 1 {
        assert(values(o, "-map"@) =~= seq!["0:v:0"@, "0:a?"@, "0:s?"@] + values(e, "-map"@));
    } else {
        assert(values(o, "-map"@) =~= values(e, "-map"@));
    }
    if f.len() == 0 {
        assert(values(o, "-vf"@) =~= values(e, "-vf"@));
    } else {
        assert(values(o, "-vf"@) =~= seq![execute::chain_text(f)] + values(e, "-vf"@));
    }
}

/// What the remaining flags find.
proof fn lemma_inner_values(
    inputs: Seq<Seq<char>>,
    containers: Seq<Container>,
    output: Seq<char>,
    recipe: RecipeView,
    overwrite: bool,
    list: Option<Seq<char>>,
    flag: Seq<char>,
)
    requires
        inputs.len() == containers.len(),
        flag == "-c:s"@ || flag == "-map"@ || flag == "-vf"@,
    ensures
        values(
            options(execute::argv(inputs, containers, output, recipe, overwrite, list)),
            flag,
        ) =~= (if flag == "-map"@ && (recipe.concat is Some || inputs.len() == 1) {
            seq!["0:v:0"@, "0:a?"@, "0:s?"@]
        } else {
            Seq::empty()
        }) + (if recipe.video_filters.len() == 0 {
            Seq::empty()
        } else {
            given("-vf"@, execute::chain_text(recipe.video_filters), flag)
        }) + given("-c:s"@, "copy"@, flag) + values(recipe.extra_flags, flag),
{
    lemma_flags();
    lemma_options(inputs, containers, output, recipe, overwrite, list, flag);
    lemma_parts(recipe.video_strategy, recipe.video_filters, recipe.audio_strategy, flag);
    lemma_input_values(inputs, containers, recipe.concat, list, flag);
    assert(values(execute::video_args(recipe.video_strategy), flag).len() == 0);
    assert(values(execute::audio_args(recipe.audio_strategy), flag).len() == 0);
}

/// The global options come first and the output comes last. Between them
/// stands nothing but the pairs that the other laws speak of and the recipe's
/// own flags, which end the options.
pub proof fn law_argument_count(
    inputs: Seq<Seq<char>>,
    containers: Seq<Container>,
    output: Seq<char>,
    recipe: RecipeView,
    overwrite: bool,
    list: Option<Seq<char>>,
)
    requires
        inputs.len() == containers.len(),
    ensures
        ({
            let args = execute::argv(inputs, containers, output, recipe, overwrite, list);
            let o = options(args);
            let e = recipe.extra_flags;
            &&& args.take(4) == seq!["-hide_banner"@, "-loglevel"@, "warning"@, "-stats"@]
            &&& args[4] == (if overwrite {
                "-y"@
            } else {
                "-n"@
            })
            &&& args.last() == output
            &&& o.skip(o.len() - e.len()) == e
            &&& o.len() - e.len() == 2 * ((if recipe.concat is Some && list is Some {
                3nat
            } else {
                inputs.len() + containers.filter(
                    |c: Container| c is Avi || c is MpegPs || c is MpegTs,
                ).len()
            }) + (if recipe.concat is Some || inputs.len() == 1 {
                3int
            } else {
                0
            }) + (match recipe.video_strategy {
                VideoStrategyView::Copy => 1int,
                VideoStrategyView::ReencodeX264 { .. } => 3,
                VideoStrategyView::ReencodeX265 { .. } => 3,
                VideoStrategyView::ReencodeX264Abr { .. } => 5,
                VideoStrategyView::ReencodeX265Abr { .. } => 5,
            }) + (if recipe.video_filters.len() > 0 {
                1int
            } else {
                0
            }) + (match recipe.audio_strategy {
                AudioStrategy::Copy => 1int,
                AudioStrategy::AacStereo { .. } => 3,
                AudioStrategy::AacMultichannel { .. } => 2,
            }) + 1)
        }),
{
    let args = execute::argv(inputs, containers, output, recipe, overwrite, list);
    let o = options(args);
    let e = recipe.extra_flags;
    lemma_options(inputs, containers, output, recipe, overwrite, list, "-i"@);
    lemma_separate_inputs(inputs, containers, "-i"@);
    assert(args.take(4) =~= seq!["-hide_banner"@, "-loglevel"@, "warning"@, "-stats"@]);
    assert(o.skip(o.len() - e.len()) =~= e);
}

/// A chain of filters is written filter by filter, with commas between them.
pub proof fn law_filter_chain_text(a: Seq<VideoFilter>, b: Seq<VideoFilter>)
    requires
        a.len() > 0,
        b.len() > 0,
    ensures
        execute::chain_text(a + b) == execute::chain_text(a) + ","@ + execute::chain_text(b),
    decreases b.len(),
{
    let whole = a + b;
    assert(whole.drop_last() =~= a + b.drop_last());
    assert(whole.last() == b.last());
    if b.len() == 1 {
        assert(a + b.drop_last() =~= a);
        assert(b[0] == b.last());
    } else {
        law_filter_chain_text(a, b.drop_last());
        assert(execute::chain_text(whole) =~= execute::chain_text(a) + ","@ + execute::chain_text(
            b,
        ));
    }
}

/// How each filter is written: deinterlacing gives one frame per field, and
/// the numbers of the others read back as the recipe's.
pub proof fn law_filter_texts(width: u32, height: u32, num: u32, den: u32)
    ensures
        execute::chain_text(seq![VideoFilter::Bwdif]) == "bwdif=1"@,
        execute::chain_text(seq![VideoFilter::FieldmatchDecimate]) == "fieldmatch,decimate"@,
        exists|w: Seq<char>, h: Seq<char>|
            execute::chain_text(seq![VideoFilter::Scale { width, height }]) == "scale="@ + w + ":"@
                + h && #[trigger] text::digits_value(w) == width && #[trigger] text::digits_value(h)
                == height && text::all_digits(w) && text::all_digits(h),
        exists|n: Seq<char>, d: Seq<char>|
            execute::chain_text(seq![VideoFilter::SetSar { num, den }]) == "setsar="@ + n + "/"@ + d
                && #[trigger] text::digits_value(n) == num && #[trigger] text::digits_value(d)
                == den && text::all_digits(n) && text::all_digits(d),
{
    text::law_decimal_reads_back(width as nat);
    text::law_decimal_reads_back(height as nat);
    text::law_decimal_reads_back(num as nat);
    text::law_decimal_reads_back(den as nat);
    let w = text::decimal(width as nat);
    let h = text::decimal(height as nat);
    let n = text::decimal(num as nat);
    let d = text::decimal(den as nat);
    assert(execute::chain_text(seq![VideoFilter::Scale { width, height }]) == "scale="@ + w + ":"@
        + h && text::digits_value(w) == width && text::digits_value(h) == height);
    assert(execute::chain_text(seq![VideoFilter::SetSar { num, den }]) == "setsar="@ + n + "/"@ + d
        && text::digits_value(n) == num && text::digits_value(d) == den);
}

/// The flags that planning adds to a recipe are about the color range, the
/// pixel format and the index of MP4: no other option of the command comes
/// from them.
pub proof fn law_planned_flags(
    profile: MediaProfile,
    issues: Seq<Issue>,
    intent: Intent,
    overrides: Overrides,
    flag: Seq<char>,
)
    requires
        flag != "-color_range"@,
        flag != "-pix_fmt"@,
        flag != "-movflags"@,
    ensures
        plan::planned(profile, issues, intent, overrides) matches Ok(recipe) ==> values(
            recipe.extra_flags,
            flag,
        ).len() == 0,
{
    if let Ok(recipe) = plan::planned(profile, issues, intent, overrides) {
        let a = if plan::full_range(profile.video) {
            seq!["-color_range"@, "pc"@]
        } else {
            Seq::empty()
        };
        let b = if recipe.output_container is Mp4 && plan::rich_chroma(profile.video) {
            seq!["-pix_fmt"@, "yuv420p"@]
        } else {
            Seq::empty()
        };
        let c = plan::container_flags(recipe.output_container);
        lemma_values_of_pair("-color_range"@, "pc"@, flag);
        lemma_values_of_pair("-pix_fmt"@, "yuv420p"@, flag);
        lemma_values_of_pair("-movflags"@, "+faststart"@, flag);
        lemma_values_of_sum(a, b, flag);
        lemma_values_of_sum(a + b, c, flag);
        assert(values(a + b + c, flag).len() == 0);
        assert(values(c, flag).len() == 0);
        assert(recipe.extra_flags == a + b + c || recipe.extra_flags == c);
    }
}

} // verus!
