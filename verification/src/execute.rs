//! Building the ffmpeg command line, and running it step by step.
//!
//! ffmpeg writes to a `<stem>.partial.<ext>` sibling of the output, which is
//! renamed into place when ffmpeg has succeeded. A half-written file never
//! stands at the output path.

use vstd::prelude::*;

use crate::error::{Error, ErrorView};
use crate::model::Container;
use crate::path;
use crate::plan::{
    AudioStrategy, ConcatStrategy, EncodeRecipe, RecipeView, VideoFilter, VideoStrategy,
    VideoStrategyView,
};
use crate::text;

verus! {

// ---------------------------------------------------------------------------
// The command line
// ---------------------------------------------------------------------------

/// Whether the container's demuxer commonly emits packets without
/// presentation timestamps.
pub open spec fn lacks_timestamps(container: Container) -> bool {
    container is MpegPs || container is MpegTs || container is Avi
}

/// Each input under its own `-i`, with timestamps generated where they lack.
pub open spec fn separate_inputs(inputs: Seq<Seq<char>>, containers: Seq<Container>) -> Seq<
    Seq<char>,
>
    decreases inputs.len(),
{
    if inputs.len() == 0 {
        Seq::empty()
    } else {
        separate_inputs(inputs.drop_last(), containers) + (if lacks_timestamps(
            containers[inputs.len() - 1],
        ) {
            seq!["-fflags"@, "+genpts"@]
        } else {
            Seq::empty()
        }) + seq!["-i"@, inputs.last()]
    }
}

/// The inputs: one virtual input by a list file when joining, else each input
/// by itself.
pub open spec fn input_args(
    inputs: Seq<Seq<char>>,
    containers: Seq<Container>,
    concat: Option<ConcatStrategy>,
    list: Option<Seq<char>>,
) -> Seq<Seq<char>> {
    match (concat, list) {
        (Some(_), Some(list)) => seq!["-f"@, "concat"@, "-safe"@, "0"@, "-i"@, list],
        _ => separate_inputs(inputs, containers),
    }
}

/// With one input, real or virtual: its first video stream, and all audio and
/// subtitle streams that there are.
pub open spec fn stream_args(input_count: nat, concat: Option<ConcatStrategy>) -> Seq<Seq<char>> {
    if concat is Some || input_count == 1 {
        seq!["-map"@, "0:v:0"@, "-map"@, "0:a?"@, "-map"@, "0:s?"@]
    } else {
        Seq::empty()
    }
}

/// Constant-quality video encoding.
pub open spec fn quality_args(encoder: Seq<char>, crf: u8, preset: Seq<char>) -> Seq<Seq<char>> {
    seq!["-c:v"@, encoder, "-crf"@, text::decimal(crf as nat), "-preset"@, preset]
}

/// Average-bitrate video encoding.
pub open spec fn bitrate_args(
    encoder: Seq<char>,
    target_bps: u64,
    max_bps: u64,
    bufsize_bps: u64,
    preset: Seq<char>,
) -> Seq<Seq<char>> {
    seq![
        "-c:v"@,
        encoder,
        "-b:v"@,
        text::decimal(target_bps as nat),
        "-maxrate"@,
        text::decimal(max_bps as nat),
        "-bufsize"@,
        text::decimal(bufsize_bps as nat),
        "-preset"@,
        preset,
    ]
}

/// What happens to the video.
pub open spec fn video_args(strategy: VideoStrategyView) -> Seq<Seq<char>> {
    match strategy {
        VideoStrategyView::Copy => seq!["-c:v"@, "copy"@],
        VideoStrategyView::ReencodeX264 { crf, preset } => quality_args("libx264"@, crf, preset),
        VideoStrategyView::ReencodeX265 { crf, preset } => quality_args("libx265"@, crf, preset),
        VideoStrategyView::ReencodeX264Abr { target_bps, max_bps, bufsize_bps, preset } => {
            bitrate_args("libx264"@, target_bps, max_bps, bufsize_bps, preset)
        },
        VideoStrategyView::ReencodeX265Abr { target_bps, max_bps, bufsize_bps, preset } => {
            bitrate_args("libx265"@, target_bps, max_bps, bufsize_bps, preset)
        },
    }
}

/// A filter as ffmpeg writes it.
pub open spec fn filter_text(filter: VideoFilter) -> Seq<char> {
    match filter {
        VideoFilter::Bwdif => "bwdif=1"@,
        VideoFilter::FieldmatchDecimate => "fieldmatch,decimate"@,
        VideoFilter::Scale { width, height } => {
            "scale="@ + text::decimal(width as nat) + ":"@ + text::decimal(height as nat)
        },
        VideoFilter::SetSar { num, den } => {
            "setsar="@ + text::decimal(num as nat) + "/"@ + text::decimal(den as nat)
        },
    }
}

/// The filters with commas between them.
pub open spec fn chain_text(filters: Seq<VideoFilter>) -> Seq<char>
    decreases filters.len(),
{
    if filters.len() == 0 {
        Seq::empty()
    } else if filters.len() == 1 {
        filter_text(filters[0])
    } else {
        chain_text(filters.drop_last()) + ","@ + filter_text(filters.last())
    }
}

/// The filter chain, if there is one.
pub open spec fn filter_args(filters: Seq<VideoFilter>) -> Seq<Seq<char>> {
    if filters.len() == 0 {
        Seq::empty()
    } else {
        seq!["-vf"@, chain_text(filters)]
    }
}

/// A bitrate in whole kilobits, or else in bits.
pub open spec fn audio_bitrate_text(bps: u64) -> Seq<char> {
    if bps % 1000 == 0 {
        text::decimal((bps / 1000) as nat) + "k"@
    } else {
        text::decimal(bps as nat)
    }
}

/// What happens to the audio.
pub open spec fn audio_args(strategy: AudioStrategy) -> Seq<Seq<char>> {
    match strategy {
        AudioStrategy::Copy => seq!["-c:a"@, "copy"@],
        AudioStrategy::AacStereo { bitrate_bps } => {
            seq!["-c:a"@, "aac"@, "-ac"@, "2"@, "-b:a"@, audio_bitrate_text(bitrate_bps)]
        },
        AudioStrategy::AacMultichannel { bitrate_bps } => {
            seq!["-c:a"@, "aac"@, "-b:a"@, audio_bitrate_text(bitrate_bps)]
        },
    }
}

/// The arguments of ffmpeg.
pub open spec fn argv(
    inputs: Seq<Seq<char>>,
    containers: Seq<Container>,
    output: Seq<char>,
    recipe: RecipeView,
    overwrite: bool,
    list: Option<Seq<char>>,
) -> Seq<Seq<char>> {
    seq![
        "-hide_banner"@,
        "-loglevel"@,
        "warning"@,
        "-stats"@,
        if overwrite {
            "-y"@
        } else {
            "-n"@
        },
    ] + input_args(inputs, containers, recipe.concat, list) + stream_args(
        inputs.len(),
        recipe.concat,
    ) + video_args(recipe.video_strategy) + filter_args(recipe.video_filters) + audio_args(
        recipe.audio_strategy,
    ) + seq!["-c:s"@, "copy"@] + recipe.extra_flags + seq![output]
}

/// The text of an optional string slice.
pub open spec fn opt_str(s: Option<&str>) -> Option<Seq<char>> {
    match s {
        Some(t) => Some(t@),
        None => None,
    }
}

/// Append one argument.
fn push_arg(args: &mut Vec<String>, arg: &str)
    ensures
        text::texts(final(args)@) == text::texts(old(args)@) + seq![arg@],
{
    args.push(arg.to_owned());
    assert(text::texts(args@) =~= text::texts(old(args)@) + seq![arg@]);
}

/// Append a flag and its value.
pub fn push_pair(args: &mut Vec<String>, k: &str, v: &str)
    ensures
        text::texts(final(args)@) == text::texts(old(args)@) + seq![k@, v@],
{
    args.push(k.to_owned());
    args.push(v.to_owned());
    assert(text::texts(args@) =~= text::texts(old(args)@) + seq![k@, v@]);
}

/// Whether the container's demuxer commonly emits packets without
/// presentation timestamps, which need `-fflags +genpts`.
///
/// - **MPEG-PS / MPEG-TS**: classical sources without timestamps.
/// - **AVI**: has no timestamp per packet, and reordered frames cannot be
///   inferred.
pub fn needs_genpts(container: &Container) -> (r: bool)
    ensures
        r == lacks_timestamps(*container),
{
    matches!(container, Container::MpegPs | Container::MpegTs | Container::Avi)
}

/// Append each input under its own `-i`.
fn push_separate_inputs(args: &mut Vec<String>, inputs: &[String], containers: &[Container])
    requires
        inputs@.len() == containers@.len(),
    ensures
        text::texts(final(args)@) == text::texts(old(args)@) + separate_inputs(
            text::texts(inputs@),
            containers@,
        ),
{
    let ghost all = text::texts(inputs@);
    let ghost start = text::texts(args@);
    assert(start + separate_inputs(all.take(0), containers@) =~= start);
    for i in 0..inputs.len()
        invariant
            inputs@.len() == containers@.len(),
            all == text::texts(inputs@),
            text::texts(args@) == start + separate_inputs(all.take(i as int), containers@),
    {
        assert(all.take(i + 1).drop_last() == all.take(i as int));
        if needs_genpts(&containers[i]) {
            push_pair(args, "-fflags", "+genpts");
        }
        push_pair(args, "-i", inputs[i].as_str());
        assert(text::texts(args@) =~= start + separate_inputs(all.take(i + 1), containers@));
    }
    assert(all.take(all.len() as int) == all);
}

/// Append the options of the video strategy.
fn push_video_args(args: &mut Vec<String>, strategy: &VideoStrategy)
    ensures
        text::texts(final(args)@) == text::texts(old(args)@) + video_args(strategy@),
{
    match strategy {
        VideoStrategy::Copy => {
            push_pair(args, "-c:v", "copy");
        },
        VideoStrategy::ReencodeX264 { crf, preset } => {
            push_pair(args, "-c:v", "libx264");
            push_pair(args, "-crf", text::decimal_text(*crf as u64).as_str());
            push_pair(args, "-preset", preset.as_str());
        },
        VideoStrategy::ReencodeX265 { crf, preset } => {
            push_pair(args, "-c:v", "libx265");
            push_pair(args, "-crf", text::decimal_text(*crf as u64).as_str());
            push_pair(args, "-preset", preset.as_str());
        },
        VideoStrategy::ReencodeX264Abr { target_bps, max_bps, bufsize_bps, preset } => {
            push_pair(args, "-c:v", "libx264");
            push_pair(args, "-b:v", text::decimal_text(*target_bps).as_str());
            push_pair(args, "-maxrate", text::decimal_text(*max_bps).as_str());
            push_pair(args, "-bufsize", text::decimal_text(*bufsize_bps).as_str());
            push_pair(args, "-preset", preset.as_str());
        },
        VideoStrategy::ReencodeX265Abr { target_bps, max_bps, bufsize_bps, preset } => {
            push_pair(args, "-c:v", "libx265");
            push_pair(args, "-b:v", text::decimal_text(*target_bps).as_str());
            push_pair(args, "-maxrate", text::decimal_text(*max_bps).as_str());
            push_pair(args, "-bufsize", text::decimal_text(*bufsize_bps).as_str());
            push_pair(args, "-preset", preset.as_str());
        },
    }
    assert(text::texts(args@) =~= text::texts(old(args)@) + video_args(strategy@));
}

/// Append the options of the audio strategy.
fn push_audio_args(args: &mut Vec<String>, strategy: &AudioStrategy)
    ensures
        text::texts(final(args)@) == text::texts(old(args)@) + audio_args(*strategy),
{
    match strategy {
        AudioStrategy::Copy => {
            push_pair(args, "-c:a", "copy");
        },
        AudioStrategy::AacStereo { bitrate_bps } => {
            push_pair(args, "-c:a", "aac");
            push_pair(args, "-ac", "2");
            push_pair(args, "-b:a", format_audio_bitrate(*bitrate_bps).as_str());
        },
        AudioStrategy::AacMultichannel { bitrate_bps } => {
            push_pair(args, "-c:a", "aac");
            push_pair(args, "-b:a", format_audio_bitrate(*bitrate_bps).as_str());
        },
    }
    assert(text::texts(args@) =~= text::texts(old(args)@) + audio_args(*strategy));
}

/// Append the recipe's extra flags.
fn push_flags(args: &mut Vec<String>, flags: &Vec<String>)
    ensures
        text::texts(final(args)@) == text::texts(old(args)@) + text::texts(flags@),
{
    let ghost all = text::texts(flags@);
    let ghost start = text::texts(args@);
    assert(start + all.take(0) =~= start);
    for i in 0..flags.len()
        invariant
            all == text::texts(flags@),
            text::texts(args@) == start + all.take(i as int),
    {
        push_arg(args, flags[i].as_str());
        assert(text::texts(args@) =~= start + all.take(i + 1));
    }
    assert(all.take(all.len() as int) == all);
}

/// Build the full ffmpeg argv for `recipe`.
///
/// The `i`-th of `source_containers` is the container of `inputs[i]`. A
/// concat recipe reads one virtual input through `concat_list_file`; there,
/// timestamps are those of the joined stream and need not be generated.
pub fn build_ffmpeg_args(
    inputs: &[String],
    source_containers: &[Container],
    output: &str,
    recipe: &EncodeRecipe,
    overwrite: bool,
    concat_list_file: Option<&str>,
) -> (r: Vec<String>)
    requires
        inputs@.len() == source_containers@.len(),
    ensures
        text::texts(r@) == argv(
            text::texts(inputs@),
            source_containers@,
            output@,
            recipe@,
            overwrite,
            opt_str(concat_list_file),
        ),
{
    let mut args: Vec<String> = Vec::new();
    push_arg(&mut args, "-hide_banner");
    push_pair(&mut args, "-loglevel", "warning");
    push_pair(
        &mut args,
        "-stats",
        if overwrite {
            "-y"
        } else {
            "-n"
        },
    );
    assert(text::texts(args@) =~= seq![
        "-hide_banner"@,
        "-loglevel"@,
        "warning"@,
        "-stats"@,
        if overwrite {
            "-y"@
        } else {
            "-n"@
        },
    ]);
    let ghost seen = text::texts(args@);
    match (recipe.concat, concat_list_file) {
        (Some(ConcatStrategy::Demuxer), Some(list_path)) => {
            push_pair(&mut args, "-f", "concat");
            push_pair(&mut args, "-safe", "0");
            push_pair(&mut args, "-i", list_path);
            assert(text::texts(args@) =~= seen + seq![
                "-f"@,
                "concat"@,
                "-safe"@,
                "0"@,
                "-i"@,
                list_path@,
            ]);
        },
        _ => {
            push_separate_inputs(&mut args, inputs, source_containers);
        },
    }
    let ghost seen = text::texts(args@);
    if recipe.concat.is_some() || inputs.len() == 1 {
        push_pair(&mut args, "-map", "0:v:0");
        push_pair(&mut args, "-map", "0:a?");
        push_pair(&mut args, "-map", "0:s?");
    }
    assert(text::texts(args@) =~= seen + stream_args(inputs@.len(), recipe.concat));
    push_video_args(&mut args, &recipe.video_strategy);
    let ghost seen = text::texts(args@);
    if recipe.video_filters.len() > 0 {
        let chain = render_video_filter_chain(recipe.video_filters.as_slice());
        push_pair(&mut args, "-vf", chain.as_str());
    }
    assert(text::texts(args@) =~= seen + filter_args(recipe.video_filters@));
    push_audio_args(&mut args, &recipe.audio_strategy);
    push_pair(&mut args, "-c:s", "copy");
    push_flags(&mut args, &recipe.extra_flags);
    push_arg(&mut args, output);
    args
}

/// Append a filter as ffmpeg writes it.
fn push_filter(out: &mut String, filter: &VideoFilter)
    ensures
        final(out)@ == old(out)@ + filter_text(*filter),
{
    match filter {
        VideoFilter::Bwdif => {
            out.append("bwdif=1");
        },
        VideoFilter::FieldmatchDecimate => {
            out.append("fieldmatch,decimate");
        },
        VideoFilter::Scale { width, height } => {
            out.append("scale=");
            text::push_decimal(out, *width as u64);
            out.append(":");
            text::push_decimal(out, *height as u64);
        },
        VideoFilter::SetSar { num, den } => {
            out.append("setsar=");
            text::push_decimal(out, *num as u64);
            out.append("/");
            text::push_decimal(out, *den as u64);
        },
    }
    assert(out@ =~= old(out)@ + filter_text(*filter));
}

/// Render the filters with commas between them.
pub fn render_video_filter_chain(filters: &[VideoFilter]) -> (r: String)
    ensures
        r@ == chain_text(filters@),
{
    let mut out = String::new();
    assert(out@ =~= chain_text(filters@.take(0)));
    for i in 0..filters.len()
        invariant
            out@ == chain_text(filters@.take(i as int)),
    {
        assert(filters@.take(i + 1).drop_last() == filters@.take(i as int));
        if i > 0 {
            out.append(",");
        }
        push_filter(&mut out, &filters[i]);
        assert(out@ =~= chain_text(filters@.take(i + 1)));
    }
    assert(filters@.take(filters@.len() as int) == filters@);
    out
}

/// A bitrate as ffmpeg takes it: in whole kilobits, or else in bits.
pub fn format_audio_bitrate(bps: u64) -> (r: String)
    ensures
        r@ == audio_bitrate_text(bps),
{
    if bps % 1000 == 0 {
        let mut out = text::decimal_text(bps / 1000);
        out.append("k");
        out
    } else {
        text::decimal_text(bps)
    }
}

// ---------------------------------------------------------------------------
// Quoting
// ---------------------------------------------------------------------------

/// `s` for use between single quotes: an embedded quote closes them, stands
/// escaped, and opens them again.
pub open spec fn quoted(s: Seq<char>) -> Seq<char>
    decreases s.len(),
{
    if s.len() == 0 {
        Seq::empty()
    } else if s.last() == '\'' {
        quoted(s.drop_last()) + "'\\''"@
    } else {
        quoted(s.drop_last()).push(s.last())
    }
}

/// Whether a shell may read `c` as more than itself.
pub open spec fn is_shell_special(c: char) -> bool {
    ||| text::is_whitespace(c)
    ||| c == '\'' || c == '"' || c == '\\' || c == '$' || c == '`' || c == '&' || c == '|' || c == ';'
    ||| c == '<' || c == '>' || c == '(' || c == ')' || c == '#' || c == '?' || c == '*' || c == '['
    ||| c == ']' || c == '{' || c == '}' || c == '!' || c == '~'
}

/// Whether `s` has to be quoted to stay one word.
pub open spec fn needs_quoting(s: Seq<char>) -> bool {
    s.len() == 0 || exists|i: int| 0 <= i < s.len() && is_shell_special(#[trigger] s[i])
}

/// `s` as one word of a shell command.
pub open spec fn shell_word(s: Seq<char>) -> Seq<char> {
    if needs_quoting(s) {
        "'"@ + quoted(s) + "'"@
    } else {
        s
    }
}

/// A command line that can be pasted into a shell.
pub open spec fn command_text(binary: Seq<char>, args: Seq<Seq<char>>) -> Seq<char>
    decreases args.len(),
{
    if args.len() == 0 {
        shell_word(binary)
    } else {
        command_text(binary, args.drop_last()) + " "@ + shell_word(args.last())
    }
}

/// Append `s` for use between single quotes.
fn push_quoted(out: &mut String, s: &str)
    ensures
        final(out)@ == old(out)@ + quoted(s@),
{
    let v = text::chars_of(s);
    let ghost start = out@;
    assert(start + quoted(s@.take(0)) =~= start);
    let mut from: usize = 0;
    for i in 0..v.len()
        invariant
            v@ == s@,
            from <= i <= v.len(),
            start + quoted(s@.take(i as int)) == out@ + s@.subrange(from as int, i as int),
    {
        assert(s@.take(i + 1).drop_last() == s@.take(i as int));
        assert(s@.take(i + 1).last() == s@[i as int]);
        if v[i] == '\'' {
            out.append(s.substring_char(from, i));
            out.append("'\\''");
            from = i + 1;
            assert(start + quoted(s@.take(i + 1)) =~= out@ + s@.subrange(i + 1, i + 1));
        } else {
            proof {
                let c = s@[i as int];
                assert(start + quoted(s@.take(i as int)).push(c) =~= (start + quoted(
                    s@.take(i as int),
                )).push(c));
                assert(out@ + s@.subrange(from as int, i + 1) =~= (out@ + s@.subrange(
                    from as int,
                    i as int,
                )).push(c));
            }
        }
    }
    out.append(s.substring_char(from, v.len()));
    assert(s@.take(s@.len() as int) == s@);
}

/// Whether a shell may read `c` as more than itself.
fn shell_special(c: char) -> (r: bool)
    ensures
        r == is_shell_special(c),
{
    text::whitespace(c) || c == '\'' || c == '"' || c == '\\' || c == '$' || c == '`' || c == '&'
        || c == '|' || c == ';' || c == '<' || c == '>' || c == '(' || c == ')' || c == '#' || c
        == '?' || c == '*' || c == '[' || c == ']' || c == '{' || c == '}' || c == '!' || c == '~'
}

/// Append `s` as one word of a shell command.
pub fn push_shell_escaped(out: &mut String, s: &str)
    ensures
        final(out)@ == old(out)@ + shell_word(s@),
{
    let v = text::chars_of(s);
    let mut special = false;
    for i in 0..v.len()
        invariant
            v@ == s@,
            special == exists|j: int| 0 <= j < i && is_shell_special(#[trigger] s@[j]),
    {
        if shell_special(v[i]) {
            special = true;
            assert(is_shell_special(s@[i as int]));
        }
    }
    if v.len() > 0 && !special {
        out.append(s);
        return;
    }
    out.append("'");
    push_quoted(out, s);
    out.append("'");
    assert(out@ =~= old(out)@ + shell_word(s@));
}

/// Render an argv as a single shell-pasteable string.
///
/// Quoting is conservative: any token that contains whitespace or shell
/// metacharacters is single-quoted, with embedded single quotes escaped.
pub fn render_command(binary: &str, args: &[String]) -> (r: String)
    ensures
        r@ == command_text(binary@, text::texts(args@)),
{
    let mut out = String::new();
    push_shell_escaped(&mut out, binary);
    let ghost all = text::texts(args@);
    assert(out@ =~= command_text(binary@, all.take(0)));
    for i in 0..args.len()
        invariant
            all == text::texts(args@),
            out@ == command_text(binary@, all.take(i as int)),
    {
        assert(all.take(i + 1).drop_last() == all.take(i as int));
        out.append(" ");
        push_shell_escaped(&mut out, args[i].as_str());
        assert(out@ =~= command_text(binary@, all.take(i + 1)));
    }
    assert(all.take(all.len() as int) == all);
    out
}

/// The list file of the concat demuxer: one `file '<path>'` line per input.
pub open spec fn list_text(paths: Seq<Seq<char>>) -> Seq<char>
    decreases paths.len(),
{
    if paths.len() == 0 {
        Seq::empty()
    } else {
        list_text(paths.drop_last()) + "file '"@ + quoted(paths.last()) + "'\n"@
    }
}

/// Escape a path for the list file of ffmpeg's concat demuxer. Between single
/// quotes only the single quote is special.
pub fn escape_concat_list_path(path: &str) -> (r: String)
    ensures
        r@ == quoted(path@),
{
    let mut out = String::new();
    push_quoted(&mut out, path);
    assert(out@ =~= quoted(path@));
    out
}

/// An input as an absolute path, given the working directory or why it is not
/// known.
pub open spec fn absolute_input(
    input: Seq<char>,
    directory: Result<Seq<char>, Seq<char>>,
) -> Result<Seq<char>, Seq<char>> {
    if input.len() == 0 {
        Err("cannot make an empty path absolute"@)
    } else if path::is_rooted(input) {
        Ok(path::absolute(Seq::empty(), input))
    } else {
        match directory {
            Ok(directory) => Ok(path::absolute(directory, input)),
            Err(why) => Err(why),
        }
    }
}

/// All inputs as absolute paths, or why the first that cannot be made one
/// cannot.
pub open spec fn absolute_inputs(
    inputs: Seq<Seq<char>>,
    directory: Result<Seq<char>, Seq<char>>,
) -> Result<Seq<Seq<char>>, Seq<char>>
    decreases inputs.len(),
{
    if inputs.len() == 0 {
        Ok(Seq::empty())
    } else {
        match absolute_inputs(inputs.drop_last(), directory) {
            Ok(before) => match absolute_input(inputs.last(), directory) {
                Ok(last) => Ok(before.push(last)),
                Err(why) => Err(why),
            },
            Err(why) => Err(why),
        }
    }
}

/// What a text or a reason holds.
pub open spec fn outcome(r: Result<String, String>) -> Result<Seq<char>, Seq<char>> {
    match r {
        Ok(text) => Ok(text@),
        Err(why) => Err(why@),
    }
}

/// A failure among the first inputs is a failure of all of them.
proof fn lemma_first_failure(
    inputs: Seq<Seq<char>>,
    directory: Result<Seq<char>, Seq<char>>,
    n: int,
)
    requires
        0 <= n <= inputs.len(),
        absolute_inputs(inputs.take(n), directory) is Err,
    ensures
        absolute_inputs(inputs, directory) == absolute_inputs(inputs.take(n), directory),
    decreases inputs.len() - n,
{
    if n < inputs.len() {
        assert(inputs.take(n + 1).drop_last() =~= inputs.take(n));
        lemma_first_failure(inputs, directory, n + 1);
    } else {
        assert(inputs.take(n) =~= inputs);
    }
}

/// All inputs as absolute paths. ffmpeg resolves a relative path in a list
/// file against the directory of that file, so none may stand there.
///
/// An input that is absolute does not need the working directory.
pub fn absolute_paths(
    inputs: &[String],
    directory: &Result<String, String>,
) -> (r: Result<Vec<String>, String>)
    ensures
        match (r, absolute_inputs(text::texts(inputs@), outcome(*directory))) {
            (Ok(a), Ok(b)) => text::texts(a@) == b,
            (Err(a), Err(b)) => a@ == b,
            _ => false,
        },
{
    let mut paths: Vec<String> = Vec::new();
    let ghost all = text::texts(inputs@);
    let ghost dir = outcome(*directory);
    assert(all.take(0) =~= Seq::<Seq<char>>::empty());
    assert(text::texts(paths@) =~= Seq::<Seq<char>>::empty());
    for i in 0..inputs.len()
        invariant
            all == text::texts(inputs@),
            dir == outcome(*directory),
            absolute_inputs(all.take(i as int), dir) == Ok::<Seq<Seq<char>>, Seq<char>>(
                text::texts(paths@),
            ),
    {
        let input = inputs[i].as_str();
        let ghost seen = all.take(i + 1);
        proof {
            assert(seen.drop_last() =~= all.take(i as int));
            assert(seen.last() == input@);
            if absolute_inputs(seen, dir) is Err {
                lemma_first_failure(all, dir, i + 1);
            }
        }
        if input.unicode_len() == 0 {
            return Err("cannot make an empty path absolute".to_owned());
        }
        let path = if input.get_char(0) == '/' {
            let path = path::absolute_of("", input);
            proof {
                reveal_strlit("");
                assert(""@ =~= Seq::<char>::empty());
            }
            path
        } else {
            match directory {
                Ok(directory) => path::absolute_of(directory.as_str(), input),
                Err(why) => {
                    return Err(why.clone());
                },
            }
        };
        let ghost before = text::texts(paths@);
        paths.push(path);
        assert(text::texts(paths@) =~= before.push(path@));
    }
    assert(all.take(all.len() as int) =~= all);
    Ok(paths)
}

/// Every path that stands in a list file is absolute.
pub proof fn law_listed_paths_are_absolute(
    inputs: Seq<Seq<char>>,
    directory: Result<Seq<char>, Seq<char>>,
)
    requires
        directory matches Ok(directory) ==> path::is_rooted(directory),
    ensures
        absolute_inputs(inputs, directory) matches Ok(paths) ==> paths.len() == inputs.len()
            && forall|i: int|
            0 <= i < paths.len() ==> path::is_rooted(#[trigger] paths[i]) && absolute_input(
                inputs[i],
                directory,
            ) == Ok::<Seq<char>, Seq<char>>(paths[i]),
        directory is Ok ==> (absolute_inputs(inputs, directory) is Ok <==> forall|i: int|
            0 <= i < inputs.len() ==> (#[trigger] inputs[i]).len() > 0),
    decreases inputs.len(),
{
    if inputs.len() > 0 {
        let before = inputs.drop_last();
        law_listed_paths_are_absolute(before, directory);
        let last = inputs.last();
        assert(last == inputs[inputs.len() - 1]);
        if path::is_rooted(last) {
            path::lemma_absolute_is_rooted(Seq::empty(), last);
        } else if directory is Ok {
            path::lemma_absolute_is_rooted(directory->Ok_0, last);
        }
        assert forall|i: int| 0 <= i < before.len() implies before[i] == inputs[i] by {}
        if let Ok(paths) = absolute_inputs(inputs, directory) {
            assert forall|i: int| 0 <= i < paths.len() implies path::is_rooted(
                #[trigger] paths[i],
            ) && absolute_input(inputs[i], directory) == Ok::<Seq<char>, Seq<char>>(paths[i]) by {
                if i < before.len() {
                    assert(absolute_inputs(before, directory)->Ok_0[i] == paths[i]);
                    assert(before[i] == inputs[i]);
                }
            }
        }
        if directory is Ok {
            if absolute_inputs(inputs, directory) is Ok {
                assert forall|i: int| 0 <= i < inputs.len() implies (#[trigger] inputs[i]).len()
                    > 0 by {
                    if i < before.len() {
                        assert(before[i].len() > 0);
                    }
                }
            }
            if forall|i: int| 0 <= i < inputs.len() ==> (#[trigger] inputs[i]).len() > 0 {
                assert forall|i: int| 0 <= i < before.len() implies (#[trigger] before[i]).len()
                    > 0 by {
                    assert(inputs[i].len() > 0);
                }
            }
        }
    }
}

/// The contents of the list file of the concat demuxer: the paths are those
/// of [`absolute_paths`].
pub fn concat_list(paths: &[String]) -> (r: String)
    ensures
        r@ == list_text(text::texts(paths@)),
{
    let mut out = String::new();
    let ghost all = text::texts(paths@);
    assert(out@ =~= list_text(all.take(0)));
    for i in 0..paths.len()
        invariant
            all == text::texts(paths@),
            out@ == list_text(all.take(i as int)),
    {
        assert(all.take(i + 1).drop_last() == all.take(i as int));
        out.append("file '");
        push_quoted(&mut out, paths[i].as_str());
        out.append("'\n");
    }
    assert(all.take(all.len() as int) == all);
    out
}

// ---------------------------------------------------------------------------
// Reading quoted words back
// ---------------------------------------------------------------------------

/// How a reader of words takes the next character.
pub enum Quoting {
    /// Outside of quotes.
    Plain,
    /// Between single quotes.
    Quoted,
    /// Behind a backslash.
    Escaped,
    /// Something was read that has a meaning of its own.
    Lost,
}

/// What a reader of words has read so far.
pub struct Reading {
    pub words: Seq<Seq<char>>,
    pub word: Option<Seq<char>>,
    pub quoting: Quoting,
}

impl Reading {
    /// The word being read, with `c` behind it.
    pub open spec fn grown(self, c: char) -> Option<Seq<char>> {
        match self.word {
            Some(word) => Some(word.push(c)),
            None => Some(seq![c]),
        }
    }

    /// Read one more character, by the quoting rules that a shell and
    /// ffmpeg's concat demuxer share.
    pub open spec fn read(self, c: char) -> Reading {
        match self.quoting {
            Quoting::Plain => if c == '\'' {
                Reading {
                    word: Some(
                        match self.word {
                            Some(word) => word,
                            None => Seq::empty(),
                        },
                    ),
                    quoting: Quoting::Quoted,
                    ..self
                }
            } else if c == '\\' {
                Reading { quoting: Quoting::Escaped, ..self }
            } else if c == ' ' {
                match self.word {
                    Some(word) => Reading { words: self.words.push(word), word: None, ..self },
                    None => self,
                }
            } else if is_shell_special(c) {
                Reading { quoting: Quoting::Lost, ..self }
            } else {
                Reading { word: self.grown(c), ..self }
            },
            Quoting::Quoted => if c == '\'' {
                Reading { quoting: Quoting::Plain, ..self }
            } else {
                Reading { word: self.grown(c), ..self }
            },
            Quoting::Escaped => Reading {
                word: self.grown(c),
                quoting: Quoting::Plain,
                ..self
            },
            Quoting::Lost => self,
        }
    }

    /// Read a whole text.
    pub open spec fn read_all(self, s: Seq<char>) -> Reading
        decreases s.len(),
    {
        if s.len() == 0 {
            self
        } else {
            self.read_all(s.drop_last()).read(s.last())
        }
    }

    /// The words, once everything is read.
    pub open spec fn finish(self) -> Option<Seq<Seq<char>>> {
        match (self.quoting, self.word) {
            (Quoting::Plain, Some(word)) => Some(self.words.push(word)),
            (Quoting::Plain, None) => Some(self.words),
            _ => None,
        }
    }
}

/// The words that a text is read as; nothing if it is not just words.
pub open spec fn words_of(s: Seq<char>) -> Option<Seq<Seq<char>>> {
    let start = Reading { words: Seq::empty(), word: None, quoting: Quoting::Plain };
    start.read_all(s).finish()
}

/// Reading a text is reading its parts.
proof fn lemma_read_sum(r: Reading, a: Seq<char>, b: Seq<char>)
    ensures
        r.read_all(a + b) == r.read_all(a).read_all(b),
    decreases b.len(),
{
    if b.len() == 0 {
        assert(a + b =~= a);
    } else {
        assert((a + b).drop_last() =~= a + b.drop_last());
        lemma_read_sum(r, a, b.drop_last());
    }
}

/// Reading a text of one character.
proof fn lemma_read_one(r: Reading, c: char)
    ensures
        r.read_all(seq![c]) == r.read(c),
{
    assert(seq![c].drop_last() =~= Seq::empty());
    assert(r.read_all(Seq::empty()) == r);
}

/// Between quotes, what was quoted is read as it was.
proof fn lemma_read_quoted(r: Reading, s: Seq<char>)
    requires
        r.quoting is Quoted,
        r.word is Some,
    ensures
        r.read_all(quoted(s)) == (Reading { word: Some(r.word->0 + s), ..r }),
    decreases s.len(),
{
    if s.len() == 0 {
        assert(r.word->0 + s =~= r.word->0);
    } else {
        let before = s.drop_last();
        lemma_read_quoted(r, before);
        let mid = r.read_all(quoted(before));
        assert((r.word->0 + before).push(s.last()) =~= r.word->0 + s);
        if s.last() == '\'' {
            reveal_strlit("'\\''");
            let esc = "'\\''"@;
            lemma_read_sum(r, quoted(before), esc);
            assert(esc =~= seq!['\''] + seq!['\\'] + seq!['\''] + seq!['\'']);
            lemma_read_sum(mid, seq!['\''] + seq!['\\'] + seq!['\''], seq!['\'']);
            lemma_read_sum(mid, seq!['\''] + seq!['\\'], seq!['\'']);
            lemma_read_sum(mid, seq!['\''], seq!['\\']);
            lemma_read_one(mid, '\'');
            let one = mid.read('\'');
            lemma_read_one(one, '\\');
            let two = one.read('\\');
            lemma_read_one(two, '\'');
            let three = two.read('\'');
            lemma_read_one(three, '\'');
        } else {
            assert(quoted(s).drop_last() =~= quoted(before));
            assert(quoted(s).last() == s.last());
        }
    }
}

/// Outside of quotes, a text without special characters is read as it is.
proof fn lemma_read_plain(r: Reading, s: Seq<char>)
    requires
        r.quoting is Plain,
        r.word is None,
        s.len() > 0,
        forall|i: int| 0 <= i < s.len() ==> !is_shell_special(#[trigger] s[i]),
    ensures
        r.read_all(s) == (Reading { word: Some(s), ..r }),
    decreases s.len(),
{
    let before = s.drop_last();
    assert(!is_shell_special(s[s.len() - 1]));
    if before.len() == 0 {
        assert(s =~= seq![s.last()]);
        lemma_read_one(r, s.last());
    } else {
        assert forall|i: int| 0 <= i < before.len() implies !is_shell_special(
            #[trigger] before[i],
        ) by {
            assert(!is_shell_special(s[i]));
        }
        lemma_read_plain(r, before);
        assert(before.push(s.last()) =~= s);
    }
}

/// A shell word is read as the text that it was made of.
proof fn lemma_read_shell_word(r: Reading, s: Seq<char>)
    requires
        r.quoting is Plain,
        r.word is None,
    ensures
        r.read_all(shell_word(s)) == (Reading { word: Some(s), ..r }),
{
    if needs_quoting(s) {
        lemma_read_between_quotes(r, s);
    } else {
        lemma_read_plain(r, s);
    }
}

/// A quoted text is read as the text that it was made of.
proof fn lemma_read_between_quotes(r: Reading, s: Seq<char>)
    requires
        r.quoting is Plain,
        r.word is None,
    ensures
        r.read_all("'"@ + quoted(s) + "'"@) == (Reading { word: Some(s), ..r }),
{
    reveal_strlit("'");
    assert("'"@ =~= seq!['\'']);
    lemma_read_sum(r, "'"@ + quoted(s), "'"@);
    lemma_read_sum(r, "'"@, quoted(s));
    lemma_read_one(r, '\'');
    let opened = r.read('\'');
    lemma_read_quoted(opened, s);
    assert(Seq::<char>::empty() + s =~= s);
    lemma_read_one(opened.read_all(quoted(s)), '\'');
}

/// Reading a command line.
proof fn lemma_read_command(binary: Seq<char>, args: Seq<Seq<char>>)
    ensures
        ({
            let start = Reading { words: Seq::empty(), word: None, quoting: Quoting::Plain };
            let all = seq![binary] + args;
            start.read_all(command_text(binary, args)) == (Reading {
                words: all.drop_last(),
                word: Some(all.last()),
                quoting: Quoting::Plain,
            })
        }),
    decreases args.len(),
{
    let start = Reading { words: Seq::empty(), word: None, quoting: Quoting::Plain };
    let all = seq![binary] + args;
    if args.len() == 0 {
        lemma_read_shell_word(start, binary);
        assert(all.drop_last() =~= Seq::empty());
        assert(all.last() == binary);
    } else {
        let before = args.drop_last();
        lemma_read_command(binary, before);
        let head = command_text(binary, before);
        let mid = start.read_all(head);
        reveal_strlit(" ");
        assert(" "@ =~= seq![' ']);
        lemma_read_sum(start, head + " "@, shell_word(args.last()));
        lemma_read_sum(start, head, " "@);
        lemma_read_one(mid, ' ');
        let spaced = mid.read(' ');
        let shorter = seq![binary] + before;
        assert(shorter.drop_last().push(shorter.last()) =~= shorter);
        assert(all.drop_last() =~= shorter);
        lemma_read_shell_word(spaced, args.last());
    }
}

/// A rendered command is read back, word by word, as the binary and its
/// arguments: no argument is split, dropped or changed by the shell.
pub proof fn law_command_reads_back(binary: Seq<char>, args: Seq<Seq<char>>)
    ensures
        words_of(command_text(binary, args)) == Some(seq![binary] + args),
{
    lemma_read_command(binary, args);
    let all = seq![binary] + args;
    assert(all.drop_last().push(all.last()) =~= all);
}

/// A line of the list file is read back as the word `file` and the path.
pub proof fn law_list_line_reads_back(path: Seq<char>)
    ensures
        words_of("file '"@ + quoted(path) + "'"@) == Some(seq!["file"@, path]),
{
    reveal_strlit("file '");
    reveal_strlit("file");
    reveal_strlit("'");
    reveal_strlit(" ");
    let start = Reading { words: Seq::empty(), word: None, quoting: Quoting::Plain };
    let line = "file '"@ + quoted(path) + "'"@;
    let rest = "'"@ + quoted(path) + "'"@;
    assert(line =~= "file"@ + seq![' '] + rest);
    lemma_read_sum(start, "file"@ + seq![' '], rest);
    lemma_read_sum(start, "file"@, seq![' ']);
    lemma_read_plain(start, "file"@);
    let word = start.read_all("file"@);
    lemma_read_one(word, ' ');
    lemma_read_between_quotes(word.read(' '), path);
    assert(Seq::<Seq<char>>::empty().push("file"@).push(path) =~= seq!["file"@, path]);
}

/// The last argument is the output; whether ffmpeg may overwrite it is what
/// was asked; and every input is named unless a list names them.
pub proof fn law_argv(
    inputs: Seq<Seq<char>>,
    containers: Seq<Container>,
    output: Seq<char>,
    recipe: RecipeView,
    overwrite: bool,
    list: Option<Seq<char>>,
)
    requires
        inputs.len() == containers.len(),
    ensures
        ({
            let args = argv(inputs, containers, output, recipe, overwrite, list);
            &&& args.last() == output
            &&& args[4] == (if overwrite {
                "-y"@
            } else {
                "-n"@
            })
            &&& recipe.concat is Some && list is Some ==> args.contains(list->0)
            &&& recipe.concat is None ==> forall|i: int|
                0 <= i < inputs.len() ==> args.contains(#[trigger] inputs[i])
        }),
{
    let args = argv(inputs, containers, output, recipe, overwrite, list);
    let middle = input_args(inputs, containers, recipe.concat, list);
    assert forall|k: int| 0 <= k < middle.len() implies args[5 + k] == #[trigger] middle[k] by {}
    if recipe.concat is Some && list is Some {
        assert(args[10] == middle[5]);
    }
    if recipe.concat is None {
        assert forall|i: int| 0 <= i < inputs.len() implies args.contains(#[trigger] inputs[i]) by {
            lemma_input_is_named(inputs, containers, i);
            let k = choose|k: int| 0 <= k < middle.len() && middle[k] == inputs[i];
            assert(args[5 + k] == middle[k]);
        }
    }
}

/// Every separate input is among the arguments.
proof fn lemma_input_is_named(inputs: Seq<Seq<char>>, containers: Seq<Container>, i: int)
    requires
        0 <= i < inputs.len(),
    ensures
        separate_inputs(inputs, containers).contains(inputs[i]),
    decreases inputs.len(),
{
    let args = separate_inputs(inputs, containers);
    if i == inputs.len() - 1 {
        assert(args[args.len() - 1] == inputs[i]);
    } else {
        let before = separate_inputs(inputs.drop_last(), containers);
        lemma_input_is_named(inputs.drop_last(), containers, i);
        let k = choose|k: int| 0 <= k < before.len() && before[k] == inputs.drop_last()[i];
        assert(args[k] == before[k]);
    }
}

// ---------------------------------------------------------------------------
// The partial output
// ---------------------------------------------------------------------------

/// The name of the partial output: `.partial` before the extension, so that
/// ffmpeg still infers the format from it.
pub open spec fn partial_name(output: Seq<char>) -> Seq<char> {
    let stem = match path::file_stem(output) {
        Some(stem) => stem,
        None => Seq::empty(),
    };
    match path::extension(output) {
        Some(ext) => stem + ".partial"@ + "."@ + ext,
        None => stem + ".partial"@,
    }
}

/// Where ffmpeg writes while it runs: a sibling of the output.
pub open spec fn partial_path(output: Seq<char>) -> Seq<char> {
    match path::parent(output) {
        Some(parent) => path::join(parent, partial_name(output)),
        None => partial_name(output),
    }
}

/// Compute the partial-output sibling path for `output`.
///
/// - `/path/to/foo.mkv`  →  `/path/to/foo.partial.mkv`
/// - `/path/to/foo`      →  `/path/to/foo.partial`
/// - `foo.mkv`           →  `foo.partial.mkv`
pub fn partial_sibling(output: &str) -> (r: String)
    ensures
        r@ == partial_path(output@),
{
    let mut name = match path::stem_of(output) {
        Some(stem) => stem,
        None => String::new(),
    };
    name.append(".partial");
    if let Some(ext) = path::extension_of(output) {
        name.append(".");
        name.append(ext.as_str());
    }
    assert(name@ =~= partial_name(output@));
    match path::parent_of(output) {
        Some(parent) => path::joined(parent.as_str(), name.as_str()),
        None => name,
    }
}

/// The partial output of a file stands next to it under another name, with
/// the same extension if there is one.
pub proof fn law_partial_is_a_sibling(output: Seq<char>)
    requires
        path::file_name(output) is Some,
    ensures
        path::parent(partial_path(output)) == path::parent(output),
        path::file_name(partial_path(output)) == Some(partial_name(output)),
        !path::same_path(partial_path(output), output),
        path::extension(output) is Some ==> path::extension(partial_path(output))
            == path::extension(output),
{
    reveal_strlit(".partial");
    reveal_strlit(".");
    path::lemma_components_of_parent(output);
    path::lemma_file_name_is_plain(output);
    let parent = path::parent(output)->0;
    let whole = path::file_name(output)->0;
    let stem = path::file_stem(output)->0;
    let name = partial_name(output);
    text::lemma_last_index(whole, '.');
    assert(stem.len() > 0);
    assert forall|i: int| 0 <= i < name.len() implies name[i] != '/' by {
        if i < stem.len() {
            assert(name[i] == whole[i]);
        } else if i < stem.len() + 8 {
            assert(name[i] == ".partial"@[i - stem.len()]);
        } else if i > stem.len() + 8 {
            assert(name[i] == whole[i - 8]);
        }
    }
    assert(name.len() > whole.len());
    assert(path::is_plain_name(name));
    path::lemma_join(parent, name);
    assert(path::components(partial_path(output)).last() == name);
    assert(path::components(output).last() == whole);
    if let Some(ext) = path::extension(output) {
        assert(name =~= stem + ".partial"@ + seq!['.'] + ext);
        assert forall|i: int| 0 <= i < ext.len() implies ext[i] != '.' by {
            assert(ext[i] == whole[stem.len() + 1 + i]);
        }
        path::lemma_named_extension(stem + ".partial"@, ext);
        assert(name.skip((stem + ".partial"@).len() + 1int) =~= ext);
    }
}

// ---------------------------------------------------------------------------
// Running a recipe
// ---------------------------------------------------------------------------

/// What one run of ffmpeg works on.
#[derive(Debug)]
pub struct RunJob {
    pub inputs: Vec<String>,
    pub source_containers: Vec<Container>,
    pub output: String,
    /// Where ffmpeg writes until it has succeeded.
    pub partial: String,
    pub recipe: EncodeRecipe,
    pub overwrite: bool,
}

impl RunJob {
    /// Every input has its container, and the partial output is that of the
    /// output.
    pub open spec fn wf(self) -> bool {
        &&& self.inputs@.len() == self.source_containers@.len()
        &&& self.partial@ == partial_path(self.output@)
    }

    /// Prepare a run that writes `output`.
    pub fn new(
        inputs: Vec<String>,
        source_containers: Vec<Container>,
        output: String,
        recipe: EncodeRecipe,
        overwrite: bool,
    ) -> (r: Self)
        requires
            inputs@.len() == source_containers@.len(),
        ensures
            r.wf(),
            r.inputs == inputs,
            r.source_containers == source_containers,
            r.output == output,
            r.recipe == recipe,
            r.overwrite == overwrite,
    {
        let partial = partial_sibling(output.as_str());
        RunJob { inputs, source_containers, output, partial, recipe, overwrite }
    }
}

/// How far a run has come.
#[derive(Debug)]
pub enum RunState {
    /// Whether the output exists is to be found out.
    CheckOutput,
    /// Whether a stale partial output exists is to be found out.
    CheckPartial,
    /// A stale partial output is to be removed.
    ClearPartial,
    /// The list file of the concat demuxer is to be created.
    CreateList,
    /// The working directory is to be found out, for the paths in the list
    /// file.
    FindDirectory { file: String },
    /// The list file is to be written.
    WriteList { file: String, text: String },
    /// ffmpeg is to be found.
    Locate { list: Option<String> },
    /// ffmpeg is to be run.
    Encode { ffmpeg: String, list: Option<String> },
    /// The list file is to be removed, whatever became of ffmpeg.
    ClearList { file: String, failure: Option<Error> },
    /// The partial output is to be renamed into place.
    Promote,
    /// The output stands.
    Done,
    /// The run was given up.
    Failed(Error),
}

/// What is to be done next for a run.
#[derive(Debug)]
pub enum RunAction {
    /// Find out whether a path exists.
    QueryExists(String),
    /// Remove a file; that it may not exist does not matter.
    RemoveFile(String),
    /// Create an empty temporary file.
    CreateList,
    /// Find out the working directory.
    QueryDirectory,
    /// Write a text to a file.
    WriteFile { path: String, text: String },
    /// Find the ffmpeg binary.
    LocateFfmpeg,
    /// Run a program to its end.
    Spawn { program: String, args: Vec<String> },
    /// Rename a file, replacing what stands there.
    Rename { from: String, to: String },
    /// Nothing is left to do.
    Stop,
}

/// What came of an action.
#[derive(Debug)]
pub enum RunEvent {
    Exists(bool),
    Removed,
    /// The path of the temporary file, or what went wrong.
    ListCreated(Result<String, String>),
    /// The working directory, or why it is not known.
    Directory(Result<String, String>),
    /// The file was written, or what went wrong.
    Written(Result<(), String>),
    /// The path of the binary, or why it was not found.
    Located(Result<String, String>),
    /// The program could not be started or waited for.
    SpawnFailed(String),
    /// The program ended; its exit code is missing if a signal ended it.
    Exited { success: bool, code: Option<i32> },
    /// The file was renamed, or what went wrong.
    Renamed(Result<(), String>),
}

/// The first state behind the checks on existing files.
pub open spec fn after_checks(job: RunJob) -> RunState {
    if job.recipe.concat is Some {
        RunState::CreateList
    } else {
        RunState::Locate { list: None }
    }
}

/// The state in which a run begins.
pub open spec fn run_start(job: RunJob) -> RunState {
    if job.overwrite {
        RunState::ClearPartial
    } else {
        RunState::CheckOutput
    }
}

/// The state behind ffmpeg's part of a run. A list file is removed first.
pub open spec fn after_ffmpeg(list: Option<String>, failure: Option<Error>) -> RunState {
    match (list, failure) {
        (Some(file), failure) => RunState::ClearList { file, failure },
        (None, Some(error)) => RunState::Failed(error),
        (None, None) => RunState::Promote,
    }
}

/// Whether `next` is the state that follows `state` when `event` came of its
/// action. An event that does not answer the action changes nothing.
///
/// Once the working directory is known, the text of the list file is.
pub open spec fn is_run_next(
    job: RunJob,
    state: RunState,
    event: RunEvent,
    next: RunState,
) -> bool {
    match (state, event) {
        (RunState::FindDirectory { file }, RunEvent::Directory(directory)) => {
            match absolute_inputs(text::texts(job.inputs@), outcome(directory)) {
                Ok(paths) => {
                    &&& next matches RunState::WriteList { file: to, text }
                    &&& to == file
                    &&& text@ == list_text(paths)
                },
                Err(why) => {
                    &&& next matches RunState::ClearList { file: gone, failure: Some(error) }
                    &&& gone == file
                    &&& error@ == ErrorView::Io(why)
                },
            }
        },
        _ => next == run_next(job, state, event),
    }
}

/// The state that follows `state` when `event` came of its action, but where
/// a text is made of them.
pub open spec fn run_next(job: RunJob, state: RunState, event: RunEvent) -> RunState {
    match (state, event) {
        (RunState::CheckOutput, RunEvent::Exists(there)) => if there {
            RunState::Failed(Error::OutputExists(job.output))
        } else {
            RunState::CheckPartial
        },
        (RunState::CheckPartial, RunEvent::Exists(there)) => if there {
            RunState::Failed(Error::PartialOutputExists(job.partial))
        } else {
            after_checks(job)
        },
        (RunState::ClearPartial, RunEvent::Removed) => after_checks(job),
        (RunState::CreateList, RunEvent::ListCreated(Ok(file))) => {
            RunState::FindDirectory { file }
        },
        (RunState::CreateList, RunEvent::ListCreated(Err(why))) => {
            RunState::Failed(Error::Io(why))
        },
        (RunState::WriteList { file, .. }, RunEvent::Written(Ok(_))) => {
            RunState::Locate { list: Some(file) }
        },
        (RunState::WriteList { file, .. }, RunEvent::Written(Err(why))) => {
            after_ffmpeg(Some(file), Some(Error::Io(why)))
        },
        (RunState::Locate { list }, RunEvent::Located(Ok(ffmpeg))) => {
            RunState::Encode { ffmpeg, list }
        },
        (RunState::Locate { list }, RunEvent::Located(Err(why))) => {
            after_ffmpeg(list, Some(Error::FfmpegNotFound(why)))
        },
        (RunState::Encode { list, .. }, RunEvent::SpawnFailed(why)) => {
            after_ffmpeg(list, Some(Error::Io(why)))
        },
        (RunState::Encode { list, .. }, RunEvent::Exited { success, code }) => if success {
            after_ffmpeg(list, None)
        } else {
            after_ffmpeg(
                list,
                Some(
                    Error::FfmpegFailed {
                        status: match code {
                            Some(code) => code,
                            None => (-1) as i32,
                        },
                    },
                ),
            )
        },
        (RunState::ClearList { failure, .. }, RunEvent::Removed) => after_ffmpeg(None, failure),
        (RunState::Promote, RunEvent::Renamed(Ok(_))) => RunState::Done,
        (RunState::Promote, RunEvent::Renamed(Err(source))) => RunState::Failed(
            Error::RenameFailed { from: job.partial, to: job.output, source },
        ),
        (state, _) => state,
    }
}

/// Whether `action` is what a run in `state` asks for.
pub open spec fn is_run_action(job: RunJob, state: RunState, action: RunAction) -> bool {
    match state {
        RunState::CheckOutput => action == RunAction::QueryExists(job.output),
        RunState::CheckPartial => action == RunAction::QueryExists(job.partial),
        RunState::ClearPartial => action == RunAction::RemoveFile(job.partial),
        RunState::CreateList => action is CreateList,
        RunState::FindDirectory { .. } => action is QueryDirectory,
        RunState::WriteList { file, text } => {
            action == (RunAction::WriteFile { path: file, text })
        },
        RunState::Locate { .. } => action is LocateFfmpeg,
        RunState::Encode { ffmpeg, list } => {
            &&& action matches RunAction::Spawn { program, args }
            &&& program == ffmpeg
            &&& text::texts(args@) == argv(
                text::texts(job.inputs@),
                job.source_containers@,
                job.partial@,
                job.recipe@,
                job.overwrite,
                text::opt_text(list),
            )
        },
        RunState::ClearList { file, .. } => action == RunAction::RemoveFile(file),
        RunState::Promote => {
            action == (RunAction::Rename { from: job.partial, to: job.output })
        },
        RunState::Done | RunState::Failed(_) => action is Stop,
    }
}

impl RunState {
    /// The first state behind the checks on existing files.
    fn checked(job: &RunJob) -> (r: Self)
        ensures
            r == after_checks(*job),
    {
        if job.recipe.concat.is_some() {
            RunState::CreateList
        } else {
            RunState::Locate { list: None }
        }
    }

    /// The state behind ffmpeg's part of a run.
    fn ended(list: Option<String>, failure: Option<Error>) -> (r: Self)
        ensures
            r == after_ffmpeg(list, failure),
    {
        match (list, failure) {
            (Some(file), failure) => RunState::ClearList { file, failure },
            (None, Some(error)) => RunState::Failed(error),
            (None, None) => RunState::Promote,
        }
    }

    /// Begin a run.
    pub fn start(job: &RunJob) -> (r: Self)
        ensures
            r == run_start(*job),
    {
        if job.overwrite {
            RunState::ClearPartial
        } else {
            RunState::CheckOutput
        }
    }

    /// Go on with what came of the action.
    pub fn next(self, job: &RunJob, event: RunEvent) -> (r: Self)
        ensures
            is_run_next(*job, self, event, r),
    {
        match (self, event) {
            (RunState::CheckOutput, RunEvent::Exists(there)) => {
                if there {
                    RunState::Failed(Error::OutputExists(job.output.clone()))
                } else {
                    RunState::CheckPartial
                }
            },
            (RunState::CheckPartial, RunEvent::Exists(there)) => {
                if there {
                    RunState::Failed(Error::PartialOutputExists(job.partial.clone()))
                } else {
                    RunState::checked(job)
                }
            },
            (RunState::ClearPartial, RunEvent::Removed) => RunState::checked(job),
            (RunState::CreateList, RunEvent::ListCreated(created)) => match created {
                Ok(file) => RunState::FindDirectory { file },
                Err(why) => RunState::Failed(Error::Io(why)),
            },
            (RunState::FindDirectory { file }, RunEvent::Directory(directory)) => {
                match absolute_paths(job.inputs.as_slice(), &directory) {
                    Ok(paths) => RunState::WriteList {
                        file,
                        text: concat_list(paths.as_slice()),
                    },
                    Err(why) => RunState::ClearList { file, failure: Some(Error::Io(why)) },
                }
            },
            (RunState::WriteList { file, .. }, RunEvent::Written(written)) => match written {
                Ok(_) => RunState::Locate { list: Some(file) },
                Err(why) => RunState::ended(Some(file), Some(Error::Io(why))),
            },
            (RunState::Locate { list }, RunEvent::Located(found)) => match found {
                Ok(ffmpeg) => RunState::Encode { ffmpeg, list },
                Err(why) => RunState::ended(list, Some(Error::FfmpegNotFound(why))),
            },
            (RunState::Encode { list, .. }, RunEvent::SpawnFailed(why)) => {
                RunState::ended(list, Some(Error::Io(why)))
            },
            (RunState::Encode { list, .. }, RunEvent::Exited { success, code }) => {
                if success {
                    RunState::ended(list, None)
                } else {
                    let status = match code {
                        Some(code) => code,
                        None => -1,
                    };
                    RunState::ended(list, Some(Error::FfmpegFailed { status }))
                }
            },
            (RunState::ClearList { failure, .. }, RunEvent::Removed) => {
                RunState::ended(None, failure)
            },
            (RunState::Promote, RunEvent::Renamed(renamed)) => match renamed {
                Ok(_) => RunState::Done,
                Err(source) => RunState::Failed(
                    Error::RenameFailed {
                        from: job.partial.clone(),
                        to: job.output.clone(),
                        source,
                    },
                ),
            },
            (state, _) => state,
        }
    }

    /// What is to be done next.
    pub fn action(&self, job: &RunJob) -> (r: RunAction)
        requires
            job.wf(),
        ensures
            is_run_action(*job, *self, r),
    {
        match self {
            RunState::CheckOutput => RunAction::QueryExists(job.output.clone()),
            RunState::CheckPartial => RunAction::QueryExists(job.partial.clone()),
            RunState::ClearPartial => RunAction::RemoveFile(job.partial.clone()),
            RunState::CreateList => RunAction::CreateList,
            RunState::FindDirectory { .. } => RunAction::QueryDirectory,
            RunState::WriteList { file, text } => RunAction::WriteFile {
                path: file.clone(),
                text: text.clone(),
            },
            RunState::Locate { .. } => RunAction::LocateFfmpeg,
            RunState::Encode { ffmpeg, list } => {
                let list_path = match list {
                    Some(list) => Some(list.as_str()),
                    None => None,
                };
                let args = build_ffmpeg_args(
                    job.inputs.as_slice(),
                    job.source_containers.as_slice(),
                    job.partial.as_str(),
                    &job.recipe,
                    job.overwrite,
                    list_path,
                );
                RunAction::Spawn { program: ffmpeg.clone(), args }
            },
            RunState::ClearList { file, .. } => RunAction::RemoveFile(file.clone()),
            RunState::Promote => RunAction::Rename {
                from: job.partial.clone(),
                to: job.output.clone(),
            },
            RunState::Done | RunState::Failed(_) => RunAction::Stop,
        }
    }
}

// ---------------------------------------------------------------------------
// What a run does to files
// ---------------------------------------------------------------------------

/// The contents of the file at a path, if there is one.
pub open spec fn file_at(files: Map<(bool, Seq<Seq<char>>), int>, p: Seq<char>) -> Option<int> {
    if files.contains_key(path::place(p)) {
        Some(files[path::place(p)])
    } else {
        None
    }
}

/// Whether nothing but what stands at `place` differs.
pub open spec fn differ_only_at(
    before: Map<(bool, Seq<Seq<char>>), int>,
    after: Map<(bool, Seq<Seq<char>>), int>,
    place: (bool, Seq<Seq<char>>),
) -> bool {
    before.remove(place) == after.remove(place)
}

/// Whether `after` is `before` with one file renamed.
pub open spec fn renamed(
    before: Map<(bool, Seq<Seq<char>>), int>,
    after: Map<(bool, Seq<Seq<char>>), int>,
    from: Seq<char>,
    to: Seq<char>,
) -> bool {
    &&& before.contains_key(path::place(from))
    &&& after == before.remove(path::place(from)).insert(
        path::place(to),
        before[path::place(from)],
    )
}

/// What carrying out the action of `state`, with `event` coming of it, may do
/// to files, given that the list file is created at `spare` and can be removed
/// from there, that ffmpeg writes to its last argument alone, and that a
/// rename happens as a whole or not at all.
pub open spec fn run_effect(
    job: RunJob,
    state: RunState,
    event: RunEvent,
    spare: (bool, Seq<Seq<char>>),
    before: Map<(bool, Seq<Seq<char>>), int>,
    after: Map<(bool, Seq<Seq<char>>), int>,
) -> bool {
    match state {
        RunState::ClearPartial => differ_only_at(before, after, path::place(job.partial@)),
        RunState::CreateList => match event {
            RunEvent::ListCreated(Ok(file)) => {
                differ_only_at(before, after, spare) && path::place(file@) == spare
            },
            _ => after == before,
        },
        RunState::WriteList { file, .. } => differ_only_at(before, after, path::place(file@)),
        RunState::Encode { .. } => differ_only_at(before, after, path::place(job.partial@)),
        RunState::ClearList { file, .. } => if event is Removed {
            after == before.remove(path::place(file@))
        } else {
            after == before
        },
        RunState::Promote => if event matches RunEvent::Renamed(Ok(_)) {
            renamed(before, after, job.partial@, job.output@)
        } else {
            after == before
        },
        _ => after == before,
    }
}

/// The list file that a run still has to remove.
pub open spec fn list_left(state: RunState) -> Option<String> {
    match state {
        RunState::FindDirectory { file } => Some(file),
        RunState::WriteList { file, .. } => Some(file),
        RunState::Locate { list } => list,
        RunState::Encode { list, .. } => list,
        RunState::ClearList { file, .. } => Some(file),
        _ => None,
    }
}

/// Whether a list file that a run still has to remove is the one at `spare`.
pub open spec fn list_is_at(state: RunState, spare: (bool, Seq<Seq<char>>)) -> bool {
    list_left(state) matches Some(list) ==> path::place(list@) == spare
}

/// One step changes what stands at the output path only by putting there what
/// ffmpeg wrote, and other places only where its own files are.
proof fn lemma_step_is_atomic(
    job: RunJob,
    state: RunState,
    event: RunEvent,
    next: RunState,
    spare: (bool, Seq<Seq<char>>),
    before: Map<(bool, Seq<Seq<char>>), int>,
    after: Map<(bool, Seq<Seq<char>>), int>,
)
    requires
        job.wf(),
        path::file_name(job.output@) is Some,
        spare != path::place(job.output@),
        list_is_at(state, spare),
        is_run_next(job, state, event, next),
        run_effect(job, state, event, spare, before, after),
    ensures
        list_is_at(next, spare),
        !(next is Done) || state is Done ==> file_at(after, job.output@) == file_at(
            before,
            job.output@,
        ),
        state is Done ==> next is Done && after == before,
        next is Done && !(state is Done) ==> state is Promote && file_at(before, job.partial@)
            is Some && file_at(after, job.output@) == file_at(before, job.partial@) && file_at(
            after,
            job.partial@,
        ) is None,
        forall|place: (bool, Seq<Seq<char>>)|
            place != path::place(job.output@) && place != path::place(job.partial@) && place
                != spare ==> before.contains_key(place) == #[trigger] after.contains_key(place) && (
            before.contains_key(place) ==> before[place] == after[place]),
{
    law_partial_is_a_sibling(job.output@);
    let output = path::place(job.output@);
    let partial = path::place(job.partial@);
    assert(partial != output);
    lemma_same_elsewhere(before, after, partial);
    lemma_same_elsewhere(before, after, spare);
}

/// Where nothing but one place differs, every other is the same.
proof fn lemma_same_elsewhere(
    before: Map<(bool, Seq<Seq<char>>), int>,
    after: Map<(bool, Seq<Seq<char>>), int>,
    place: (bool, Seq<Seq<char>>),
)
    ensures
        differ_only_at(before, after, place) ==> forall|other: (bool, Seq<Seq<char>>)|
            other != place ==> before.contains_key(other) == #[trigger] after.contains_key(other)
                && (before.contains_key(other) ==> before[other] == after[other]),
{
    if differ_only_at(before, after, place) {
        assert forall|other: (bool, Seq<Seq<char>>)| other != place implies before.contains_key(
            other,
        ) == #[trigger] after.contains_key(other) && (before.contains_key(other) ==> before[other]
            == after[other]) by {
            assert(before.remove(place).contains_key(other) == before.contains_key(other));
            assert(after.remove(place).contains_key(other) == after.contains_key(other));
            if before.contains_key(other) {
                assert(before.remove(place)[other] == before[other]);
                assert(after.remove(place)[other] == after[other]);
            }
        }
    }
}

/// Whether `states`, `events` and `disks` are the steps of one run: it begins
/// with a free place at `spare`, and every step follows the machine and does
/// to files what it may.
pub open spec fn is_run(
    job: RunJob,
    states: Seq<RunState>,
    events: Seq<RunEvent>,
    disks: Seq<Map<(bool, Seq<Seq<char>>), int>>,
    spare: (bool, Seq<Seq<char>>),
) -> bool {
    &&& states.len() == events.len() + 1
    &&& disks.len() == events.len() + 1
    &&& states[0] == run_start(job)
    &&& !disks[0].contains_key(spare)
    &&& forall|i: int|
        0 <= i < events.len() ==> is_run_next(job, states[i], #[trigger] events[i], states[i + 1])
            && run_effect(job, states[i], events[i], spare, disks[i], disks[i + 1])
}

/// A run without its last step is a run too.
proof fn lemma_run_so_far(
    job: RunJob,
    states: Seq<RunState>,
    events: Seq<RunEvent>,
    disks: Seq<Map<(bool, Seq<Seq<char>>), int>>,
    spare: (bool, Seq<Seq<char>>),
)
    requires
        is_run(job, states, events, disks, spare),
        events.len() > 0,
    ensures
        is_run(job, states.drop_last(), events.drop_last(), disks.drop_last(), spare),
        ({
            let n = events.len() - 1;
            &&& is_run_next(job, states[n], events[n], states[n + 1])
            &&& run_effect(job, states[n], events[n], spare, disks[n], disks[n + 1])
        }),
{
    let (s, e, d) = (states.drop_last(), events.drop_last(), disks.drop_last());
    assert forall|i: int| 0 <= i < e.len() implies is_run_next(
        job,
        s[i],
        #[trigger] e[i],
        s[i + 1],
    ) && run_effect(job, s[i], e[i], spare, d[i], d[i + 1]) by {
        assert(e[i] == events[i]);
    }
}

/// The output is atomic: over a whole run, and at every point of it, what
/// stands at the output path is what stood there before, until the run has
/// succeeded. Then it is what ffmpeg wrote, and no partial output is left.
pub proof fn law_output_is_atomic(
    job: RunJob,
    states: Seq<RunState>,
    events: Seq<RunEvent>,
    disks: Seq<Map<(bool, Seq<Seq<char>>), int>>,
    spare: (bool, Seq<Seq<char>>),
)
    requires
        job.wf(),
        path::file_name(job.output@) is Some,
        spare != path::place(job.output@),
        is_run(job, states, events, disks, spare),
    ensures
        !(states.last() is Done) ==> file_at(disks.last(), job.output@) == file_at(
            disks[0],
            job.output@,
        ),
        states.last() is Done ==> file_at(disks.last(), job.partial@) is None && exists|i: int|
            0 <= i < events.len() && #[trigger] states[i] is Promote && file_at(
                disks[i],
                job.partial@,
            ) is Some && file_at(disks.last(), job.output@) == file_at(disks[i], job.partial@),
        list_is_at(states.last(), spare),
    decreases events.len(),
{
    if events.len() > 0 {
        let n = events.len() - 1;
        let (s, d) = (states.drop_last(), disks.drop_last());
        lemma_run_so_far(job, states, events, disks, spare);
        law_output_is_atomic(job, s, events.drop_last(), d, spare);
        lemma_step_is_atomic(
            job,
            states[n],
            events[n],
            states[n + 1],
            spare,
            disks[n],
            disks[n + 1],
        );
        if states.last() is Done {
            if states[n] is Done {
                let i = choose|i: int|
                    0 <= i < n && #[trigger] s[i] is Promote && file_at(d[i], job.partial@) is Some
                        && file_at(d.last(), job.output@) == file_at(d[i], job.partial@);
                assert(states[i] == s[i]);
            } else {
                assert(states[n] is Promote);
            }
        }
    }
}

/// A list file is gone when its run is over: from when it is created, a run
/// remembers it until the step that removes it, which comes right behind
/// ffmpeg's end, and before the output is put into place or the run fails.
pub proof fn law_the_list_is_removed(
    job: RunJob,
    state: RunState,
    event: RunEvent,
    next: RunState,
)
    requires
        is_run_next(job, state, event, next),
    ensures
        list_left(run_start(job)) is None,
        state is CreateList ==> (event matches RunEvent::ListCreated(Ok(file)) ==> list_left(next)
            == Some(file)),
        list_left(state) is Some && list_left(next) != list_left(state) ==> state is ClearList
            && event is Removed && list_left(next) is None,
        forall|action: RunAction|
            state is ClearList && is_run_action(job, state, action) ==> action
                == RunAction::RemoveFile(list_left(state)->0),
        state is Encode && list_left(state) is Some && !(next is Encode) ==> next is ClearList,
        state is Promote || state is Done || state is Failed ==> list_left(state) is None,
{
}

/// Of a whole run: once it has ended, and already when its output is about to
/// be put into place, no list file is left, whether ffmpeg succeeded, failed,
/// could not be started or was not found.
pub proof fn law_no_list_is_left_behind(
    job: RunJob,
    states: Seq<RunState>,
    events: Seq<RunEvent>,
    disks: Seq<Map<(bool, Seq<Seq<char>>), int>>,
    spare: (bool, Seq<Seq<char>>),
)
    requires
        is_run(job, states, events, disks, spare),
        spare != path::place(job.output@),
        spare != path::place(job.partial@),
    ensures
        list_is_at(states.last(), spare),
        list_left(states.last()) is None ==> !disks.last().contains_key(spare),
        states.last() is Promote || states.last() is Done || states.last() is Failed
            ==> !disks.last().contains_key(spare),
    decreases events.len(),
{
    if events.len() > 0 {
        let n = events.len() - 1;
        lemma_run_so_far(job, states, events, disks, spare);
        law_no_list_is_left_behind(
            job,
            states.drop_last(),
            events.drop_last(),
            disks.drop_last(),
            spare,
        );
        lemma_same_elsewhere(disks[n], disks[n + 1], path::place(job.partial@));
    }
}

/// Over a whole run nothing changes but the output and its partial output:
/// once the list file is removed, every other place is as it was.
pub proof fn law_a_run_touches_its_own_files(
    job: RunJob,
    states: Seq<RunState>,
    events: Seq<RunEvent>,
    disks: Seq<Map<(bool, Seq<Seq<char>>), int>>,
    spare: (bool, Seq<Seq<char>>),
)
    requires
        job.wf(),
        path::file_name(job.output@) is Some,
        spare != path::place(job.output@),
        spare != path::place(job.partial@),
        is_run(job, states, events, disks, spare),
    ensures
        forall|place: (bool, Seq<Seq<char>>)|
            place != path::place(job.output@) && place != path::place(job.partial@) && (place
                != spare || list_left(states.last()) is None) ==> disks[0].contains_key(place)
                == #[trigger] disks.last().contains_key(place) && (disks[0].contains_key(place)
                ==> disks[0][place] == disks.last()[place]),
    decreases events.len(),
{
    law_no_list_is_left_behind(job, states, events, disks, spare);
    if events.len() > 0 {
        let n = events.len() - 1;
        lemma_run_so_far(job, states, events, disks, spare);
        let (s, e, d) = (states.drop_last(), events.drop_last(), disks.drop_last());
        law_no_list_is_left_behind(job, s, e, d, spare);
        law_a_run_touches_its_own_files(job, s, e, d, spare);
        lemma_step_is_atomic(
            job,
            states[n],
            events[n],
            states[n + 1],
            spare,
            disks[n],
            disks[n + 1],
        );
        assert forall|place: (bool, Seq<Seq<char>>)|
            place != path::place(job.output@) && place != path::place(job.partial@) && (place
                != spare || list_left(states.last()) is None) implies disks[0].contains_key(place)
            == #[trigger] disks.last().contains_key(place) && (disks[0].contains_key(place)
            ==> disks[0][place] == disks.last()[place]) by {
            assert(disks.last() == disks[n + 1]);
            if place != spare {
                assert(d.last() == disks[n] && d[0] == disks[0]);
                assert(d.last().contains_key(place) == d[0].contains_key(place));
                assert(disks[n + 1].contains_key(place) == disks[n].contains_key(place));
            }
        }
    }
}

/// Without permission to overwrite, a run removes nothing, and it gets past
/// the checks only where neither the output nor a partial output exists.
pub proof fn law_nothing_is_overwritten_unasked(
    job: RunJob,
    state: RunState,
    event: RunEvent,
    next: RunState,
)
    requires
        !job.overwrite,
        is_run_next(job, state, event, next),
    ensures
        run_start(job) is CheckOutput,
        !(state is ClearPartial) ==> !(next is ClearPartial),
        state is CheckOutput && next is CheckPartial ==> event == RunEvent::Exists(false),
        state is CheckPartial && next == after_checks(job) ==> event == RunEvent::Exists(false),
        state is CheckOutput && event == RunEvent::Exists(true) ==> next == RunState::Failed(
            Error::OutputExists(job.output),
        ),
        state is CheckPartial && event == RunEvent::Exists(true) ==> next == RunState::Failed(
            Error::PartialOutputExists(job.partial),
        ),
{
}

/// Whether ffmpeg reports success, or did so before its list file is removed.
pub open spec fn succeeded(state: RunState, event: RunEvent) -> bool {
    match state {
        RunState::Encode { .. } => event matches RunEvent::Exited { success, .. } && success,
        RunState::ClearList { failure, .. } => failure is None,
        _ => false,
    }
}

/// The output is put into place only after ffmpeg has reported success.
pub proof fn law_success_comes_before_the_output(
    job: RunJob,
    state: RunState,
    event: RunEvent,
    next: RunState,
)
    requires
        is_run_next(job, state, event, next),
    ensures
        next is Done && !(state is Done) ==> state is Promote,
        next is Promote && !(state is Promote) ==> succeeded(state, event),
        next matches RunState::ClearList { failure, .. } && failure is None && !(state is ClearList)
            ==> succeeded(state, event),
{
}

/// Whether the list file is there exactly when inputs are joined.
pub open spec fn list_is_there(job: RunJob, state: RunState) -> bool {
    match state {
        RunState::CreateList => job.recipe.concat is Some,
        RunState::FindDirectory { .. } => job.recipe.concat is Some,
        RunState::WriteList { .. } => job.recipe.concat is Some,
        RunState::ClearList { .. } => job.recipe.concat is Some,
        RunState::Locate { list } => list is Some <==> job.recipe.concat is Some,
        RunState::Encode { list, .. } => list is Some <==> job.recipe.concat is Some,
        _ => true,
    }
}

/// ffmpeg is run with a list file exactly when inputs are joined.
pub proof fn law_joined_inputs_are_listed(
    job: RunJob,
    state: RunState,
    event: RunEvent,
    next: RunState,
)
    requires
        is_run_next(job, state, event, next),
    ensures
        list_is_there(job, run_start(job)),
        list_is_there(job, state) ==> list_is_there(job, next),
{
}

/// How many steps a run has before it at most.
pub open spec fn steps_left(state: RunState) -> nat {
    match state {
        RunState::CheckOutput => 9,
        RunState::CheckPartial => 8,
        RunState::ClearPartial => 8,
        RunState::CreateList => 7,
        RunState::FindDirectory { .. } => 6,
        RunState::WriteList { .. } => 5,
        RunState::Locate { .. } => 4,
        RunState::Encode { .. } => 3,
        RunState::ClearList { .. } => 2,
        RunState::Promote => 1,
        RunState::Done | RunState::Failed(_) => 0,
    }
}

/// Every event that answers its action brings a run nearer to its end.
pub proof fn law_a_run_ends(job: RunJob, state: RunState, event: RunEvent, next: RunState)
    requires
        is_run_next(job, state, event, next),
    ensures
        steps_left(run_start(job)) <= 9,
        next != state ==> steps_left(next) < steps_left(state),
{
}

} // verus!
