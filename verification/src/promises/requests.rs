//! What a command line asks for.

use vstd::prelude::*;

use crate::binary64;
use crate::cli;
use crate::cli::{Args, CliCodec, CliContainer, CliIntent, FlowFlags, Request};
use crate::double;
use crate::flow;
use crate::flow::{FlowEvent, FlowState, Job};
use crate::model::Container;
use crate::numeral;
use crate::plan;
use crate::plan::{Intent, VideoCodecChoice};
use crate::promises::names;
use crate::text;

verus! {

/// The flags that a request carries, if it is one to write a file.
pub open spec fn carried(request: Request) -> Option<FlowFlags> {
    match request {
        Request::Upgrade { flags, .. } => Some(flags),
        Request::Concat { flags, .. } => Some(flags),
        Request::Single { flags, .. } => Some(flags),
        _ => None,
    }
}

/// Each switch of the command line is on in the request exactly where the
/// user gave it, whatever is to be written.
pub proof fn law_switches(args: Args, request: Request)
    requires
        cli::is_request(args, request),
        !args.probe_only,
        !(request is Refused),
    ensures
        carried(request) matches Some(flags) && flags.dry_run == args.dry_run && flags.overwrite
            == args.overwrite && flags.force == args.force && flags.yes == args.yes,
{
}

/// A dry run changes no file, whatever else was asked for and whatever
/// happens: no state of a job made from such a request is one that changes
/// files, and what is on disk stays as it was.
pub proof fn law_dry_run(
    args: Args,
    request: Request,
    job: Job,
    states: Seq<FlowState>,
    events: Seq<FlowEvent>,
    disks: Seq<Map<(bool, Seq<Seq<char>>), int>>,
)
    requires
        cli::is_request(args, request),
        args.dry_run,
        Some(job.flags) == carried(request),
        flow::is_flow(job, states, events, disks),
    ensures
        forall|i: int| #![trigger states[i]]
            0 <= i < states.len() ==> !(states[i] is ClearBackup || states[i] is MoveAside
                || states[i] is Encode || states[i] is MoveBack || states[i] is Confirm),
        forall|i: int| 0 <= i < disks.len() ==> #[trigger] disks[i] == disks[0],
{
    assert(job.flags.dry_run);
    assert forall|i: int| 0 <= i < states.len() implies !(#[trigger] states[i] is ClearBackup
        || states[i] is MoveAside || states[i] is Encode || states[i] is MoveBack
        || states[i] is Confirm) && disks[i] == disks[0] by {
        lemma_beginning(job, states, events, disks, i);
        flow::law_files_stay_without_consent(
            job,
            states.take(i + 1),
            events.take(i),
            disks.take(i + 1),
        );
        assert(states.take(i + 1).last() == states[i]);
        assert(disks.take(i + 1).last() == disks[i]);
    }
    assert forall|i: int| 0 <= i < disks.len() implies #[trigger] disks[i] == disks[0] by {
        assert(!(states[i] is Confirm));
    }
}

/// The beginning of a run is a run.
proof fn lemma_beginning(
    job: Job,
    states: Seq<FlowState>,
    events: Seq<FlowEvent>,
    disks: Seq<Map<(bool, Seq<Seq<char>>), int>>,
    n: int,
)
    requires
        flow::is_flow(job, states, events, disks),
        0 <= n <= events.len(),
    ensures
        flow::is_flow(job, states.take(n + 1), events.take(n), disks.take(n + 1)),
{
    let (s, e, d) = (states.take(n + 1), events.take(n), disks.take(n + 1));
    assert forall|i: int| 0 <= i < e.len() implies s[i + 1] == flow::flow_next(
        job,
        s[i],
        #[trigger] e[i],
    ) && flow::flow_effect(job, s[i], e[i], d[i], d[i + 1]) by {
        assert(e[i] == events[i]);
        assert(s[i] == states[i] && s[i + 1] == states[i + 1]);
        assert(d[i] == disks[i] && d[i + 1] == disks[i + 1]);
    }
}

/// Without `--yes` and without a consent, no file changes; with `--yes`
/// nobody is asked.
pub proof fn law_consent(
    args: Args,
    request: Request,
    job: Job,
    states: Seq<FlowState>,
    events: Seq<FlowEvent>,
    disks: Seq<Map<(bool, Seq<Seq<char>>), int>>,
)
    requires
        cli::is_request(args, request),
        Some(job.flags) == carried(request),
        flow::is_flow(job, states, events, disks),
    ensures
        !args.yes && (forall|i: int|
            0 <= i < events.len() ==> #[trigger] events[i] != FlowEvent::Answered(Ok(true)))
            ==> disks.last() == disks[0],
        args.yes ==> !(states.last() is Confirm),
    decreases events.len(),
{
    assert(job.flags.yes == args.yes);
    if !args.yes && (forall|i: int|
        0 <= i < events.len() ==> #[trigger] events[i] != FlowEvent::Answered(Ok(true))) {
        flow::law_files_stay_without_consent(job, states, events, disks);
    }
    if args.yes && events.len() > 0 {
        let n = events.len() - 1;
        lemma_beginning(job, states, events, disks, n);
        law_consent(
            args,
            request,
            job,
            states.take(n + 1),
            events.take(n),
            disks.take(n + 1),
        );
        assert(events[n] == events.last());
        assert(states.last() == states[n + 1]);
        assert(states.take(n + 1).last() == states[n]);
    }
}

/// What a command line without a switch for the purpose asks for: two paths
/// are an input and an output, more are inputs to be joined and an output.
/// What makes no sense together is refused.
pub proof fn law_paths(args: Args, request: Request)
    requires
        cli::is_request(args, request),
    ensures
        ({
            let n = args.paths@.len();
            let joins = args.intent == Some(CliIntent::Concat);
            let open = args.intent == Some(CliIntent::Auto) || (args.intent is None
                && !args.reencode && args.max_height is None && args.target_bitrate is None);
            match request {
                Request::ProbeOnly { input } => args.probe_only && n == 1 && input == args.paths@[0],
                Request::Upgrade { input, .. } => !args.probe_only && args.upgrade && n == 1
                    && !joins && input == args.paths@[0],
                Request::Single { input, output, .. } => !args.probe_only && !args.upgrade && n == 2
                    && !joins && input == args.paths@[0] && output == args.paths@[1],
                Request::Concat { inputs, output, .. } => !args.probe_only && !args.upgrade && n > 2
                    && (joins || open) && output == args.paths@[n - 1] && inputs@.len() == n - 1 && (
                forall|i: int| 0 <= i < n - 1 ==> inputs@[i] == args.paths@[i]),
                Request::Refused(_) => if args.probe_only {
                    n != 1
                } else if args.upgrade {
                    n != 1 || joins
                } else {
                    n < 2 || (n == 2 && joins) || (n > 2 && !joins && !open)
                },
            }
        }),
{
}

/// The purpose is the one that the user named. Where they named none, it is a
/// re-encode if they asked for one, else a smaller file if they gave a cap or
/// a target, and else it is left open. A smaller file keeps to the cap and
/// the target that they gave.
pub proof fn law_purpose(args: Args, request: Request)
    requires
        cli::is_request(args, request),
        !args.probe_only,
        !(request is Refused),
        !(request is Concat),
    ensures
        ({
            let intent = match request {
                Request::Upgrade { intent, .. } => intent,
                Request::Single { intent, .. } => intent,
                _ => Intent::Concat,
            };
            let named = args.intent;
            let smaller = named == Some(CliIntent::Shrink) || (named is None && !args.reencode && (
            args.max_height is Some || args.target_bitrate is Some));
            &&& intent is Remux <==> named == Some(CliIntent::Remux)
            &&& intent is Reencode <==> named == Some(CliIntent::Reencode) || (named is None
                && args.reencode)
            &&& intent is Shrink <==> smaller
            &&& intent matches Intent::Shrink { max_height, target_bitrate_bps } ==> (max_height
                == args.max_height && target_bitrate_bps == args.target_bitrate)
            &&& intent is Auto <==> named == Some(CliIntent::Auto) || (named is None
                && !args.reencode && !smaller)
        }),
{
}

/// What the user named for the encoder and the container stands in the
/// request as they named it. A container that they did not name is that of
/// the output's extension; an upgrade has no such output.
pub proof fn law_wishes(args: Args, request: Request)
    requires
        cli::is_request(args, request),
        !args.probe_only,
        !(request is Refused),
    ensures
        ({
            let wishes = match request {
                Request::Upgrade { overrides, .. } => overrides,
                Request::Single { overrides, .. } => overrides,
                Request::Concat { overrides, .. } => overrides,
                _ => arbitrary(),
            };
            let output = args.paths@[args.paths@.len() - 1]@;
            &&& args.video_codec == Some(CliCodec::X264) <==> wishes.video_codec == Some(
                VideoCodecChoice::X264,
            )
            &&& args.video_codec == Some(CliCodec::X265) <==> wishes.video_codec == Some(
                VideoCodecChoice::X265,
            )
            &&& wishes.crf == args.crf
            &&& wishes.preset == args.preset
            &&& wishes.max_height is None
            &&& wishes.keep_multichannel_audio == args.keep_multichannel_audio
            &&& args.container == Some(CliContainer::Mkv) ==> wishes.container == Some(
                Container::Mkv,
            )
            &&& args.container == Some(CliContainer::Mp4) ==> wishes.container == Some(
                Container::Mp4,
            )
            &&& args.video_codec is None <==> wishes.video_codec is None
            &&& args.container is None && request is Upgrade ==> wishes.container is None
            &&& args.container is None && !(request is Upgrade) ==> wishes.container
                == plan::container_by_extension(output)
        }),
{
}

/// A bitrate may end in `k`, `M` or `G`, in either case, for thousands,
/// millions and thousands of millions.
pub proof fn law_bitrate_suffixes(n: nat)
    requires
        n * 1_000_000_000 < binary64::TWO_53,
    ensures
        cli::bitrate_of(text::decimal(n)) == Ok::<u64, Seq<char>>(n as u64),
        cli::bitrate_of(text::decimal(n).push('k')) == Ok::<u64, Seq<char>>((n * 1_000) as u64),
        cli::bitrate_of(text::decimal(n).push('K')) == Ok::<u64, Seq<char>>((n * 1_000) as u64),
        cli::bitrate_of(text::decimal(n).push('m')) == Ok::<u64, Seq<char>>((n * 1_000_000) as u64),
        cli::bitrate_of(text::decimal(n).push('M')) == Ok::<u64, Seq<char>>((n * 1_000_000) as u64),
        cli::bitrate_of(text::decimal(n).push('g')) == Ok::<u64, Seq<char>>(
            (n * 1_000_000_000) as u64,
        ),
        cli::bitrate_of(text::decimal(n).push('G')) == Ok::<u64, Seq<char>>(
            (n * 1_000_000_000) as u64,
        ),
{
    cli::law_plain_bitrates(n);
    cli::law_suffixed_bitrates(n, 'k');
    cli::law_suffixed_bitrates(n, 'K');
    cli::law_suffixed_bitrates(n, 'm');
    cli::law_suffixed_bitrates(n, 'M');
    cli::law_suffixed_bitrates(n, 'g');
    cli::law_suffixed_bitrates(n, 'G');
}

/// Only an answer whose first letter is an `n`, in either case, declines.
/// Blanks before it do not count, and an empty line consents.
pub proof fn law_answers(blank: Seq<char>, word: Seq<char>)
    requires
        forall|i: int| 0 <= i < blank.len() ==> text::is_whitespace(#[trigger] blank[i]),
        word.len() > 0 ==> !text::is_whitespace(word[0]),
    ensures
        cli::accepts(blank + word) <==> !(word.len() > 0 && (word[0] == 'n' || word[0] == 'N')),
{
    lemma_trim_start(blank, word);
    lemma_trim_end(word);
}

/// Blanks before a word are cut off.
proof fn lemma_trim_start(blank: Seq<char>, word: Seq<char>)
    requires
        forall|i: int| 0 <= i < blank.len() ==> text::is_whitespace(#[trigger] blank[i]),
        word.len() > 0 ==> !text::is_whitespace(word[0]),
    ensures
        text::trim_start(blank + word) == word,
    decreases blank.len(),
{
    let whole = blank + word;
    if blank.len() > 0 {
        let rest = blank.skip(1);
        assert(whole.skip(1) =~= rest + word);
        assert(whole[0] == blank[0]);
        assert forall|i: int| 0 <= i < rest.len() implies text::is_whitespace(#[trigger] rest[i]) by {
            assert(rest[i] == blank[i + 1]);
        }
        lemma_trim_start(rest, word);
    } else {
        assert(whole =~= word);
    }
}

/// The first letter of a word stays.
proof fn lemma_trim_end(word: Seq<char>)
    requires
        word.len() > 0 ==> !text::is_whitespace(word[0]),
    ensures
        word.len() > 0 ==> text::trim_end(word).len() > 0 && text::trim_end(word)[0] == word[0],
        word.len() == 0 ==> text::trim_end(word).len() == 0,
    decreases word.len(),
{
    if word.len() > 1 {
        assert(word.drop_last()[0] == word[0]);
        lemma_trim_end(word.drop_last());
    }
}

/// The inputs of a join are as large as all of them together, which is known
/// exactly where the size of each is.
pub proof fn law_sizes(a: Seq<Option<u64>>, size: Option<u64>, b: Seq<Option<u64>>)
    ensures
        size is None ==> cli::size_sum(a + seq![size] + b) is None,
        size is Some ==> cli::size_sum(a + seq![size] + b) == (match (
            cli::size_sum(a),
            cli::size_sum(b),
        ) {
            (Some(x), Some(y)) => Some(x + size->0 as nat + y),
            _ => None,
        }),
    decreases b.len(),
{
    let whole = a + seq![size] + b;
    if b.len() == 0 {
        assert(whole.drop_last() =~= a);
        assert(whole.last() == size);
    } else {
        assert(whole.drop_last() =~= a + seq![size] + b.drop_last());
        assert(whole.last() == b.last());
        law_sizes(a, size, b.drop_last());
    }
}

/// Why a command line is refused: the switch that takes one input says how
/// many it got, and the others say what is missing or in the way.
pub proof fn law_refusals(args: Args, request: Request)
    requires
        cli::is_request(args, request),
    ensures
        request matches Request::Refused(message) ==> ({
            let n = args.paths@.len();
            let why = message@;
            if args.probe_only {
                why == "--probe-only takes exactly one INPUT (got "@ + text::decimal(n) + ")"@
            } else if args.upgrade && n != 1 {
                why == "--upgrade takes exactly one INPUT (got "@ + text::decimal(n)
                    + "); for concat or explicit-output runs, omit --upgrade"@
            } else if args.upgrade {
                why == "--intent concat is incompatible with --upgrade"@
            } else if n == 0 {
                why == "expected `INPUT [INPUT...] OUTPUT` or `--upgrade INPUT` (got "@
                    + text::decimal(0) + " paths)"@
            } else if n == 1 {
                why == "expected `INPUT [INPUT...] OUTPUT` or `--upgrade INPUT` (got "@
                    + text::decimal(1) + " path)"@
            } else if n == 2 {
                why
                    == "--intent concat needs at least two inputs (got 1); pass each input as a positional argument before the output path"@
            } else if args.intent == Some(CliIntent::Remux) {
                why == "intent "@ + "Remux"@
                    + " doesn't make sense with multiple inputs; omit --intent or use --intent concat"@
            } else if args.intent == Some(CliIntent::Reencode) || (args.intent is None
                && args.reencode) {
                why == "intent "@ + "Reencode"@
                    + " doesn't make sense with multiple inputs; omit --intent or use --intent concat"@
            } else {
                let cap = if args.max_height is Some {
                    "Some("@ + text::decimal(args.max_height->0 as nat) + ")"@
                } else {
                    "None"@
                };
                let target = if args.target_bitrate is Some {
                    "Some("@ + text::decimal(args.target_bitrate->0 as nat) + ")"@
                } else {
                    "None"@
                };
                why == "intent "@ + ("Shrink { max_height: "@ + cap + ", target_bitrate_bps: "@
                    + target + " }"@)
                    + " doesn't make sense with multiple inputs; omit --intent or use --intent concat"@
            }
        }),
{
}

/// A bitrate that is blank, or that is no finite number however it is
/// spelled, is refused.
pub proof fn law_refused_bitrates(blank: Seq<char>, word: Seq<char>)
    requires
        forall|i: int| 0 <= i < blank.len() ==> text::is_whitespace(#[trigger] blank[i]),
    ensures
        cli::bitrate_of(blank) == Err::<u64, Seq<char>>("empty bitrate"@),
        names::cased(word, "inf"@) || names::cased(word, "infinity"@) || names::cased(word, "nan"@)
            ==> cli::bitrate_of(word) == Err::<u64, Seq<char>>(
            "bitrate must be a positive finite number, got '"@ + word + "'"@,
        ),
{
    lemma_trim_start(blank, Seq::empty());
    assert(blank + Seq::<char>::empty() =~= blank);
    reveal_strlit("inf");
    reveal_strlit("infinity");
    reveal_strlit("nan");
    names::lemma_cased(word, "inf"@);
    names::lemma_cased(word, "infinity"@);
    names::lemma_cased(word, "nan"@);
    if names::cased(word, "inf"@) || names::cased(word, "infinity"@) || names::cased(word, "nan"@) {
        let lowered = text::ascii_lowercase(word);
        let last = word.len() - 1;
        assert(lowered[0] == text::lower(word[0]));
        assert(lowered[last] == text::lower(word[last]));
        assert(word[0] == 'i' || word[0] == 'I' || word[0] == 'n' || word[0] == 'N');
        assert(word[last] == 'f' || word[last] == 'F' || word[last] == 'y' || word[last] == 'Y'
            || word[last] == 'n' || word[last] == 'N');
        assert(word.last() == word[last]);
        assert(text::trim_start(word) == word);
        assert(text::trim_end(word) == word);
        assert(text::trim(word) == word);
        assert(numeral::unsigned_part(word) == word);
    }
}

/// A bitrate below zero is refused, however small.
pub proof fn law_negative_bitrates(n: nat)
    requires
        0 < n < binary64::TWO_53,
    ensures
        cli::bitrate_of(seq!['-'] + text::decimal(n)) == Err::<u64, Seq<char>>(
            "bitrate must be a positive finite number, got '"@ + (seq!['-'] + text::decimal(n))
                + "'"@,
        ),
{
    let digits = text::decimal(n);
    let s = seq!['-'] + digits;
    text::law_decimal_reads_back(n);
    cli::lemma_digits_are_a_numeral(digits);
    cli::lemma_digits_are_a_number(n);
    cli::lemma_digits_hold_no_letter(digits);
    double::law_short_products_are_exact(digits, 1);
    assert(s.last() == digits[digits.len() - 1]);
    assert(text::is_digit(digits[digits.len() - 1]));
    assert(s[0] == '-');
    assert(text::trim(s) == s);
    assert(s.drop_first() =~= digits);
    assert(digits.take(digits.len() as int) =~= digits);
    assert(numeral::unsigned_part(s) == digits);
    assert(numeral::unsigned_part(digits) == digits) by {
        assert(text::is_digit(digits[0]));
    }
}

/// Blanks around a bitrate do not count.
pub proof fn law_padded_bitrates(before: Seq<char>, n: nat, after: Seq<char>)
    requires
        n < binary64::TWO_53,
        forall|i: int| 0 <= i < before.len() ==> text::is_whitespace(#[trigger] before[i]),
        forall|i: int| 0 <= i < after.len() ==> text::is_whitespace(#[trigger] after[i]),
    ensures
        cli::bitrate_of(before + text::decimal(n) + after) == Ok::<u64, Seq<char>>(n as u64),
{
    let digits = text::decimal(n);
    text::law_decimal_reads_back(n);
    assert(text::is_digit(digits[0]) && text::is_digit(digits[digits.len() - 1]));
    let word = digits + after;
    assert(before + digits + after =~= before + word);
    assert(word[0] == digits[0]);
    lemma_trim_start(before, word);
    lemma_trim_blanks(digits, after);
    cli::law_plain_bitrates(n);
    assert(text::trim(digits) == digits);
    assert(text::trim(before + digits + after) == digits);
}

/// Blanks behind a word are cut off.
proof fn lemma_trim_blanks(word: Seq<char>, blank: Seq<char>)
    requires
        word.len() > 0,
        !text::is_whitespace(word[word.len() - 1]),
        forall|i: int| 0 <= i < blank.len() ==> text::is_whitespace(#[trigger] blank[i]),
    ensures
        text::trim_end(word + blank) == word,
    decreases blank.len(),
{
    let whole = word + blank;
    if blank.len() == 0 {
        assert(whole =~= word);
        assert(word.last() == word[word.len() - 1]);
    } else {
        let front = blank.drop_last();
        assert(whole.drop_last() =~= word + front);
        assert(whole.last() == blank[blank.len() - 1]);
        assert forall|i: int| 0 <= i < front.len() implies text::is_whitespace(
            #[trigger] front[i],
        ) by {
            assert(front[i] == blank[i]);
        }
        lemma_trim_blanks(word, front);
    }
}

} // verus!
