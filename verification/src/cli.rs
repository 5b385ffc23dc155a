//! Command-line arguments: what they mean, and which of them go together.

use vstd::prelude::*;

use crate::binary64;
use crate::double;
use crate::model::Container;
use crate::numeral;
use crate::numeral::{Numeral, NumeralView};
use crate::plan;
use crate::plan::{Intent, Overrides, VideoCodecChoice};
use crate::text;

verus! {

// ---------------------------------------------------------------------------
// Arguments
// ---------------------------------------------------------------------------

/// The parsed command line: `INPUT [INPUT...] OUTPUT` and flags.
#[derive(Debug)]
pub struct Args {
    /// `INPUT [INPUT...] OUTPUT`. With `probe_only` or `upgrade`, exactly one
    /// INPUT.
    pub paths: Vec<String>,
    /// Print the probe summary for a single INPUT and exit.
    pub probe_only: bool,
    /// Upgrade a single INPUT in place.
    pub upgrade: bool,
    /// Print the plan and the exact ffmpeg command, but don't execute.
    pub dry_run: bool,
    /// Overwrite the output file if it already exists.
    pub overwrite: bool,
    /// Process the input even if assessment reports it as already fine.
    pub force: bool,
    /// Skip the interactive `[Y/n]` confirmation prompt.
    pub yes: bool,
    /// Force a re-encode even when stream-copy would work.
    pub reencode: bool,
    /// Explicit pipeline intent.
    pub intent: Option<CliIntent>,
    /// Cap output height in pixels.
    pub max_height: Option<u32>,
    /// Target output bitrate in bits/sec for shrink-mode encoding.
    pub target_bitrate: Option<u64>,
    /// Video codec for re-encode.
    pub video_codec: Option<CliCodec>,
    /// Constant Rate Factor (lower = higher quality, larger files).
    pub crf: Option<u8>,
    /// Encoder preset (`ultrafast`…`veryslow`).
    pub preset: Option<String>,
    /// Output container.
    pub container: Option<CliContainer>,
    /// Keep multichannel audio instead of downmixing it to stereo.
    pub keep_multichannel_audio: bool,
}

/// Output container choice.
#[derive(Debug, Clone, Copy, PartialEq, Eq, Structural)]
pub enum CliContainer {
    Mkv,
    Mp4,
}

impl CliContainer {
    /// The container that is meant.
    pub open spec fn meaning(self) -> Container {
        match self {
            CliContainer::Mkv => Container::Mkv,
            CliContainer::Mp4 => Container::Mp4,
        }
    }
}

impl From<CliContainer> for Container {
    fn from(c: CliContainer) -> (r: Self) {
        match c {
            CliContainer::Mkv => Container::Mkv,
            CliContainer::Mp4 => Container::Mp4,
        }
    }
}

impl vstd::std_specs::convert::FromSpecImpl<CliContainer> for Container {
    open spec fn obeys_from_spec() -> bool {
        true
    }

    open spec fn from_spec(c: CliContainer) -> Self {
        c.meaning()
    }
}

/// Video codec choice.
#[derive(Debug, Clone, Copy, PartialEq, Eq, Structural)]
pub enum CliCodec {
    X264,
    X265,
}

impl CliCodec {
    /// The codec that is meant.
    pub open spec fn meaning(self) -> VideoCodecChoice {
        match self {
            CliCodec::X264 => VideoCodecChoice::X264,
            CliCodec::X265 => VideoCodecChoice::X265,
        }
    }
}

impl From<CliCodec> for VideoCodecChoice {
    fn from(c: CliCodec) -> (r: Self) {
        match c {
            CliCodec::X264 => VideoCodecChoice::X264,
            CliCodec::X265 => VideoCodecChoice::X265,
        }
    }
}

impl vstd::std_specs::convert::FromSpecImpl<CliCodec> for VideoCodecChoice {
    open spec fn obeys_from_spec() -> bool {
        true
    }

    open spec fn from_spec(c: CliCodec) -> Self {
        c.meaning()
    }
}

/// Pipeline intent. The parameters of shrinking come from the other flags.
#[derive(Debug, Clone, Copy, PartialEq, Eq, Structural)]
pub enum CliIntent {
    Auto,
    Remux,
    Reencode,
    Shrink,
    Concat,
}

/// Flags that steer a run.
#[derive(Debug, Clone, Copy, PartialEq, Eq, Structural)]
pub struct FlowFlags {
    pub dry_run: bool,
    pub overwrite: bool,
    pub force: bool,
    pub yes: bool,
}

// ---------------------------------------------------------------------------
// Intent and overrides
// ---------------------------------------------------------------------------

/// The intent that the arguments express. An explicit one wins; without one,
/// a height or a bitrate asks for shrinking.
pub open spec fn intent_of(args: Args) -> Intent {
    let shrink = Intent::Shrink {
        max_height: args.max_height,
        target_bitrate_bps: args.target_bitrate,
    };
    match args.intent {
        Some(CliIntent::Auto) => Intent::Auto,
        Some(CliIntent::Remux) => Intent::Remux,
        Some(CliIntent::Reencode) => Intent::Reencode,
        Some(CliIntent::Shrink) => shrink,
        Some(CliIntent::Concat) => Intent::Concat,
        None => if args.reencode {
            Intent::Reencode
        } else if args.max_height is Some || args.target_bitrate is Some {
            shrink
        } else {
            Intent::Auto
        },
    }
}

/// The overrides that the arguments express. An explicit container wins over
/// the one that the output path asks for.
pub open spec fn overrides_of(args: Args, output: Option<Seq<char>>) -> Overrides {
    Overrides {
        container: match (args.container, output) {
            (Some(container), _) => Some(container.meaning()),
            (None, Some(output)) => plan::container_by_extension(output),
            (None, None) => None,
        },
        video_codec: match args.video_codec {
            Some(codec) => Some(codec.meaning()),
            None => None,
        },
        crf: args.crf,
        preset: args.preset,
        max_height: None,
        keep_multichannel_audio: args.keep_multichannel_audio,
    }
}

/// The intent that the arguments express.
pub fn intent_from_args(args: &Args) -> (r: Intent)
    ensures
        r == intent_of(*args),
{
    let shrink = Intent::Shrink {
        max_height: args.max_height,
        target_bitrate_bps: args.target_bitrate,
    };
    match args.intent {
        Some(CliIntent::Auto) => Intent::Auto,
        Some(CliIntent::Remux) => Intent::Remux,
        Some(CliIntent::Reencode) => Intent::Reencode,
        Some(CliIntent::Shrink) => shrink,
        Some(CliIntent::Concat) => Intent::Concat,
        None => {
            if args.reencode {
                Intent::Reencode
            } else if args.max_height.is_some() || args.target_bitrate.is_some() {
                shrink
            } else {
                Intent::Auto
            }
        },
    }
}

/// The overrides that the arguments express. An upgrade in place has no
/// output path of the user's.
pub fn overrides_from_args(args: &Args, output_path: Option<&str>) -> (r: Overrides)
    ensures
        r == overrides_of(
            *args,
            match output_path {
                Some(output) => Some(output@),
                None => None,
            },
        ),
{
    let container = match (args.container, output_path) {
        (Some(container), _) => Some(Container::from(container)),
        (None, Some(output)) => plan::container_from_output_extension(output),
        (None, None) => None,
    };
    let video_codec = match args.video_codec {
        Some(codec) => Some(VideoCodecChoice::from(codec)),
        None => None,
    };
    let preset = match &args.preset {
        Some(preset) => Some(preset.clone()),
        None => None,
    };
    Overrides {
        container,
        video_codec,
        crf: args.crf,
        preset,
        max_height: None,
        keep_multichannel_audio: args.keep_multichannel_audio,
    }
}

// ---------------------------------------------------------------------------
// Bitrates
// ---------------------------------------------------------------------------

/// What a suffix of a bitrate multiplies by: a thousand, a million or a
/// billion. Any other character is no suffix.
pub open spec fn suffix_factor(c: char) -> nat {
    if c == 'k' || c == 'K' {
        1_000
    } else if c == 'm' || c == 'M' {
        1_000_000
    } else if c == 'g' || c == 'G' {
        1_000_000_000
    } else {
        1
    }
}

/// The bitrate that `s` writes: a number, with a decimal point or not, and an
/// optional suffix for thousands, millions or billions, rounded to a whole
/// number of bits per second.
///
/// The number is read, and multiplied, as a double.
pub open spec fn bitrate_of(s: Seq<char>) -> Result<u64, Seq<char>> {
    let trimmed = text::trim(s);
    let factor = suffix_factor(trimmed.last());
    let number = if factor > 1 {
        trimmed.drop_last()
    } else {
        trimmed
    };
    if trimmed.len() == 0 {
        Err("empty bitrate"@)
    } else {
        match numeral::numeral(number) {
            None => Err("could not parse bitrate '"@ + s + "' as a number"@),
            Some(NumeralView::Finite { negative, digits, point }) => {
                let d = double::double_of(digits, point);
                let bits = double::rounded_product(d, factor);
                if (negative && d.0 != 0) || !double::is_finite(d) {
                    Err("bitrate must be a positive finite number, got '"@ + s + "'"@)
                } else if bits > double::TWO_64 {
                    Err("bitrate '"@ + s + "' is unreasonably large"@)
                } else {
                    Ok(double::cut_off(bits))
                }
            },
            Some(NumeralView::NotFinite) => Err(
                "bitrate must be a positive finite number, got '"@ + s + "'"@,
            ),
        }
    }
}

/// `before`, `s` and `after` in a row.
fn around(before: &str, s: &str, after: &str) -> (r: String)
    ensures
        r@ == before@ + s@ + after@,
{
    let mut out = before.to_owned();
    out.append(s);
    out.append(after);
    out
}

/// Parse a bitrate string like `5M`, `750k`, or `5000000` into bits/sec.
///
/// Accepts the suffixes `k`/`K` (× 1 000), `m`/`M` (× 1 000 000) and
/// `g`/`G` (× 1 000 000 000). Decimal points are allowed before the suffix
/// (`1.5M` → 1 500 000). Plain integers are bits/sec.
pub fn parse_bitrate(s: &str) -> (r: Result<u64, String>)
    ensures
        match (r, bitrate_of(s@)) {
            (Ok(a), Ok(b)) => a == b,
            (Err(a), Err(b)) => a@ == b,
            _ => false,
        },
{
    let trimmed = text::trimmed(s);
    let n = trimmed.unicode_len();
    if n == 0 {
        return Err("empty bitrate".to_owned());
    }
    let last = trimmed.get_char(n - 1);
    let factor: u64 = if last == 'k' || last == 'K' {
        1_000
    } else if last == 'm' || last == 'M' {
        1_000_000
    } else if last == 'g' || last == 'G' {
        1_000_000_000
    } else {
        1
    };
    let number = if factor > 1 {
        trimmed.substring_char(0, n - 1)
    } else {
        trimmed
    };
    assert(number@ =~= if factor > 1 {
        text::trim(s@).drop_last()
    } else {
        text::trim(s@)
    });
    match numeral::read(number) {
        Some(Numeral::Finite { negative, digits, point }) => {
            match double::read(&digits, point) {
                Some((mantissa, exponent)) if !negative || mantissa == 0 => {
                    match double::product(mantissa, exponent, factor) {
                        Some(bps) => Ok(bps),
                        None => Err(around("bitrate '", s, "' is unreasonably large")),
                    }
                },
                _ => Err(around("bitrate must be a positive finite number, got '", s, "'")),
            }
        },
        Some(Numeral::NotFinite) => Err(
            around("bitrate must be a positive finite number, got '", s, "'"),
        ),
        None => Err(around("could not parse bitrate '", s, "' as a number")),
    }
}

// ---------------------------------------------------------------------------
// Which arguments go together
// ---------------------------------------------------------------------------

/// What a command line asks for.
#[derive(Debug)]
pub enum Request {
    /// Print the profile of `input`.
    ProbeOnly { input: String },
    /// Upgrade `input` in place.
    Upgrade { input: String, intent: Intent, overrides: Overrides, flags: FlowFlags },
    /// Join `inputs` into `output`.
    Concat { inputs: Vec<String>, output: String, overrides: Overrides, flags: FlowFlags },
    /// Turn `input` into `output`.
    Single {
        input: String,
        output: String,
        intent: Intent,
        overrides: Overrides,
        flags: FlowFlags,
    },
    /// The arguments make no sense together.
    Refused(String),
}

/// The flags that steer a run.
pub open spec fn flags_of(args: Args) -> FlowFlags {
    FlowFlags {
        dry_run: args.dry_run,
        overwrite: args.overwrite,
        force: args.force,
        yes: args.yes,
    }
}

/// An optional number the way `Debug` prints it.
pub open spec fn option_text(n: Option<nat>) -> Seq<char> {
    match n {
        Some(n) => "Some("@ + text::decimal(n) + ")"@,
        None => "None"@,
    }
}

/// An intent the way `Debug` prints it.
pub open spec fn intent_text(intent: Intent) -> Seq<char> {
    match intent {
        Intent::Auto => "Auto"@,
        Intent::Remux => "Remux"@,
        Intent::Reencode => "Reencode"@,
        Intent::Shrink { max_height, target_bitrate_bps } => {
            "Shrink { max_height: "@ + option_text(
                match max_height {
                    Some(n) => Some(n as nat),
                    None => None,
                },
            ) + ", target_bitrate_bps: "@ + option_text(
                match target_bitrate_bps {
                    Some(n) => Some(n as nat),
                    None => None,
                },
            ) + " }"@
        },
        Intent::Concat => "Concat"@,
    }
}

/// Why the arguments make no sense together, if they don't.
pub open spec fn refusal(args: Args) -> Option<Seq<char>> {
    let n = args.paths@.len();
    let intent = intent_of(args);
    if args.probe_only {
        if n != 1 {
            Some("--probe-only takes exactly one INPUT (got "@ + text::decimal(n) + ")"@)
        } else {
            None
        }
    } else if args.upgrade {
        if n != 1 {
            Some(
                "--upgrade takes exactly one INPUT (got "@ + text::decimal(n)
                    + "); for concat or explicit-output runs, omit --upgrade"@,
            )
        } else if intent is Concat {
            Some("--intent concat is incompatible with --upgrade"@)
        } else {
            None
        }
    } else if n < 2 {
        Some(
            "expected `INPUT [INPUT...] OUTPUT` or `--upgrade INPUT` (got "@ + text::decimal(n)
                + (if n == 1 {
                " path)"@
            } else {
                " paths)"@
            }),
        )
    } else if n > 2 && !(intent is Auto || intent is Concat) {
        Some(
            "intent "@ + intent_text(intent)
                + " doesn't make sense with multiple inputs; omit --intent or use --intent concat"@,
        )
    } else if n == 2 && intent is Concat {
        Some(
            "--intent concat needs at least two inputs (got 1); pass each input as a positional argument before the output path"@,
        )
    } else {
        None
    }
}

/// Whether `request` is what the arguments ask for.
pub open spec fn is_request(args: Args, request: Request) -> bool {
    let n = args.paths@.len();
    match refusal(args) {
        Some(why) => request matches Request::Refused(message) && message@ == why,
        None => if args.probe_only {
            request == (Request::ProbeOnly { input: args.paths@[0] })
        } else if args.upgrade {
            request == (Request::Upgrade {
                input: args.paths@[0],
                intent: intent_of(args),
                overrides: overrides_of(args, None),
                flags: flags_of(args),
            })
        } else if n > 2 {
            &&& request matches Request::Concat { inputs, output, overrides, flags }
            &&& inputs@ == args.paths@.drop_last()
            &&& output == args.paths@.last()
            &&& overrides == overrides_of(args, Some(args.paths@.last()@))
            &&& flags == flags_of(args)
        } else {
            request == (Request::Single {
                input: args.paths@[0],
                output: args.paths@[1],
                intent: intent_of(args),
                overrides: overrides_of(args, Some(args.paths@[1]@)),
                flags: flags_of(args),
            })
        },
    }
}

/// Append an optional number the way `Debug` prints it.
fn push_option(out: &mut String, n: Option<u64>)
    ensures
        final(out)@ == old(out)@ + option_text(
            match n {
                Some(n) => Some(n as nat),
                None => None,
            },
        ),
{
    match n {
        Some(n) => {
            out.append("Some(");
            text::push_decimal(out, n);
            out.append(")");
        },
        None => {
            out.append("None");
        },
    }
    assert(out@ =~= old(out)@ + option_text(
        match n {
            Some(n) => Some(n as nat),
            None => None,
        },
    ));
}

/// An intent the way `Debug` prints it.
fn describe_intent(intent: &Intent) -> (r: String)
    ensures
        r@ == intent_text(*intent),
{
    match intent {
        Intent::Auto => "Auto".to_owned(),
        Intent::Remux => "Remux".to_owned(),
        Intent::Reencode => "Reencode".to_owned(),
        Intent::Shrink { max_height, target_bitrate_bps } => {
            let mut out = "Shrink { max_height: ".to_owned();
            push_option(
                &mut out,
                match max_height {
                    Some(n) => Some(*n as u64),
                    None => None,
                },
            );
            out.append(", target_bitrate_bps: ");
            push_option(&mut out, *target_bitrate_bps);
            out.append(" }");
            out
        },
        Intent::Concat => "Concat".to_owned(),
    }
}

/// Why the arguments make no sense together, if they don't.
fn refuse(args: &Args, intent: &Intent) -> (r: Option<String>)
    requires
        *intent == intent_of(*args),
    ensures
        text::opt_text(r) == refusal(*args),
{
    let n = args.paths.len();
    if args.probe_only {
        if n != 1 {
            let mut out = "--probe-only takes exactly one INPUT (got ".to_owned();
            text::push_decimal(&mut out, n as u64);
            out.append(")");
            return Some(out);
        }
        return None;
    }
    if args.upgrade {
        if n != 1 {
            let mut out = "--upgrade takes exactly one INPUT (got ".to_owned();
            text::push_decimal(&mut out, n as u64);
            out.append("); for concat or explicit-output runs, omit --upgrade");
            return Some(out);
        }
        if matches!(intent, Intent::Concat) {
            return Some("--intent concat is incompatible with --upgrade".to_owned());
        }
        return None;
    }
    if n < 2 {
        let mut out = "expected `INPUT [INPUT...] OUTPUT` or `--upgrade INPUT` (got ".to_owned();
        text::push_decimal(&mut out, n as u64);
        if n == 1 {
            out.append(" path)");
        } else {
            out.append(" paths)");
        }
        return Some(out);
    }
    if n > 2 && !matches!(intent, Intent::Auto | Intent::Concat) {
        let mut out = "intent ".to_owned();
        out.append(describe_intent(intent).as_str());
        out.append(
            " doesn't make sense with multiple inputs; omit --intent or use --intent concat",
        );
        return Some(out);
    }
    if n == 2 && matches!(intent, Intent::Concat) {
        return Some(
            "--intent concat needs at least two inputs (got 1); pass each input as a positional argument before the output path".to_owned(),
        );
    }
    None
}

/// Find out what a command line asks for, and refuse arguments that make no
/// sense together.
///
/// The last path is the output, unless the output is computed. More than one
/// input means that they are to be joined.
pub fn request_from_args(args: &Args) -> (r: Request)
    ensures
        is_request(*args, r),
{
    let intent = intent_from_args(args);
    if let Some(why) = refuse(args, &intent) {
        return Request::Refused(why);
    }
    let flags = FlowFlags {
        dry_run: args.dry_run,
        overwrite: args.overwrite,
        force: args.force,
        yes: args.yes,
    };
    let n = args.paths.len();
    if args.probe_only {
        return Request::ProbeOnly { input: args.paths[0].clone() };
    }
    if args.upgrade {
        let overrides = overrides_from_args(args, None);
        return Request::Upgrade { input: args.paths[0].clone(), intent, overrides, flags };
    }
    let output = args.paths[n - 1].clone();
    let overrides = overrides_from_args(args, Some(output.as_str()));
    if n > 2 {
        let inputs = text::first_copies(&args.paths, n - 1);
        assert(inputs@ =~= args.paths@.drop_last());
        return Request::Concat { inputs, output, overrides, flags };
    }
    Request::Single { input: args.paths[0].clone(), output, intent, overrides, flags }
}

/// Whether an answer to the `[Y/n]` prompt accepts: everything does but a
/// word that starts with `n`.
pub open spec fn accepts(answer: Seq<char>) -> bool {
    let word = text::trim(answer);
    !(word.len() > 0 && (word[0] == 'n' || word[0] == 'N'))
}

/// Whether an answer to the `[Y/n]` prompt accepts. A bare Enter does.
pub fn answer_accepts(answer: &str) -> (r: bool)
    ensures
        r == accepts(answer@),
{
    let word = text::trimmed(answer);
    if word.unicode_len() == 0 {
        return true;
    }
    let first = word.get_char(0);
    !(first == 'n' || first == 'N')
}

/// The sum of all sizes, unless one of them is missing.
pub open spec fn size_sum(sizes: Seq<Option<u64>>) -> Option<nat>
    decreases sizes.len(),
{
    if sizes.len() == 0 {
        Some(0)
    } else {
        match (size_sum(sizes.drop_last()), sizes.last()) {
            (Some(before), Some(size)) => Some(before + size as nat),
            _ => None,
        }
    }
}

/// A sum with an addend missing stays missing, and a sum never falls.
proof fn lemma_size_sum_prefix(sizes: Seq<Option<u64>>, n: int)
    requires
        0 <= n <= sizes.len(),
    ensures
        size_sum(sizes.take(n)) is None ==> size_sum(sizes) is None,
        size_sum(sizes) matches Some(all) ==> size_sum(sizes.take(n)) matches Some(some) && some
            <= all,
    decreases sizes.len() - n,
{
    if n < sizes.len() {
        lemma_size_sum_prefix(sizes, n + 1);
        assert(sizes.take(n + 1).drop_last() == sizes.take(n));
    } else {
        assert(sizes.take(n) == sizes);
    }
}

/// Sum the sizes of all inputs. `None` if any of them is missing, rather than
/// a misleading partial total, or if the total exceeds 64 bits.
pub fn sum_input_sizes(sizes: &[Option<u64>]) -> (r: Option<u64>)
    ensures
        match r {
            Some(total) => size_sum(sizes@) == Some(total as nat),
            None => match size_sum(sizes@) {
                Some(total) => total > u64::MAX,
                None => true,
            },
        },
{
    let mut total: u64 = 0;
    for i in 0..sizes.len()
        invariant
            size_sum(sizes@.take(i as int)) == Some(total as nat),
    {
        proof {
            assert(sizes@.take(i + 1).drop_last() == sizes@.take(i as int));
            lemma_size_sum_prefix(sizes@, i + 1);
        }
        match sizes[i] {
            Some(size) => {
                if size > u64::MAX - total {
                    return None;
                }
                total = total + size;
            },
            None => {
                return None;
            },
        }
    }
    assert(sizes@.take(sizes@.len() as int) == sizes@);
    Some(total)
}

// ---------------------------------------------------------------------------
// Laws
// ---------------------------------------------------------------------------

/// Digits are read as they stand.
pub(crate) proof fn lemma_digits_are_a_numeral(s: Seq<char>)
    requires
        s.len() > 0,
        text::all_digits(s),
    ensures
        numeral::numeral(s) == Some(
            NumeralView::Finite { negative: false, digits: s, point: s.len() as int },
        ),
{
    reveal_strlit("inf");
    reveal_strlit("infinity");
    reveal_strlit("nan");
    assert(text::is_digit(s[0]));
    assert(text::ascii_lowercase(s)[0] == s[0]);
    assert("inf"@[0] == 'i' && "infinity"@[0] == 'i' && "nan"@[0] == 'n');
    lemma_digits_hold_no_letter(s);
    assert(s.take(s.len() as int) =~= s);
}

/// Digits hold neither a point nor an exponent.
pub(crate) proof fn lemma_digits_hold_no_letter(s: Seq<char>)
    requires
        text::all_digits(s),
    ensures
        numeral::exponent_index(s) == s.len(),
        text::first_index(s, '.') == s.len(),
    decreases s.len(),
{
    if s.len() > 0 {
        assert(text::is_digit(s[0]));
        assert forall|i: int| 0 <= i < s.drop_first().len() implies text::is_digit(
            #[trigger] s.drop_first()[i],
        ) by {
            assert(text::is_digit(s[i + 1]));
        }
        lemma_digits_hold_no_letter(s.drop_first());
    }
}

/// The first digits write what they write alone.
proof fn lemma_leading_digits(s: Seq<char>, n: nat)
    requires
        n <= s.len(),
    ensures
        numeral::leading_value(s, n) == text::digits_value(s.take(n as int)),
    decreases n,
{
    if n > 0 {
        lemma_leading_digits(s, (n - 1) as nat);
        assert(s.take(n as int).drop_last() == s.take(n - 1));
    }
}

/// Digits write the same number however they are read.
pub(crate) proof fn lemma_digits_are_a_number(n: nat)
    ensures
        numeral::leading_value(text::decimal(n), text::decimal(n).len()) == n,
{
    let s = text::decimal(n);
    text::law_decimal_reads_back(n);
    lemma_leading_digits(s, s.len());
    assert(s.take(s.len() as int) == s);
}

/// A plain integer is read as it stands, in bits per second, if it fits into
/// the mantissa of a double.
pub proof fn law_plain_bitrates(n: nat)
    requires
        n < binary64::TWO_53,
    ensures
        bitrate_of(text::decimal(n)) == Ok::<u64, Seq<char>>(n as u64),
{
    let s = text::decimal(n);
    text::law_decimal_reads_back(n);
    assert(text::is_digit(s[0]) && text::is_digit(s[s.len() - 1]));
    assert(text::trim(s) == s);
    lemma_digits_are_a_numeral(s);
    lemma_digits_are_a_number(n);
    double::law_short_products_are_exact(s, 1);
    assert(suffix_factor(s.last()) == 1);
}

/// A suffix multiplies the integer before it by a thousand, a million or a
/// billion, if the product fits into the mantissa of a double.
pub proof fn law_suffixed_bitrates(n: nat, suffix: char)
    requires
        suffix_factor(suffix) > 1,
        n * suffix_factor(suffix) < binary64::TWO_53,
    ensures
        bitrate_of(text::decimal(n).push(suffix)) == Ok::<u64, Seq<char>>(
            (n * suffix_factor(suffix)) as u64,
        ),
{
    let s = text::decimal(n);
    let whole = s.push(suffix);
    text::law_decimal_reads_back(n);
    assert(text::is_digit(s[0]));
    assert(whole[0] == s[0]);
    assert(text::trim(whole) == whole);
    assert(whole.drop_last() =~= s);
    lemma_digits_are_a_numeral(s);
    lemma_digits_are_a_number(n);
    double::law_short_products_are_exact(s, suffix_factor(suffix));
}

/// An explicit intent wins over everything else, and a height or a bitrate
/// alone asks for shrinking.
pub proof fn law_explicit_intent_wins(args: Args)
    ensures
        args.intent == Some(CliIntent::Remux) ==> intent_of(args) is Remux,
        args.intent == Some(CliIntent::Auto) ==> intent_of(args) is Auto,
        args.intent == Some(CliIntent::Concat) ==> intent_of(args) is Concat,
        args.intent is None && !args.reencode ==> (intent_of(args) is Shrink <==> (
        args.max_height is Some || args.target_bitrate is Some)),
        args.intent is None && args.reencode ==> intent_of(args) is Reencode,
{
}

/// Arguments are refused exactly when they do not fit one of the modes:
/// probing and upgrading take one path, a single-file run an input and an
/// output without the intent to join, and joining more than one input without
/// any other intent.
pub proof fn law_requests(args: Args)
    ensures
        refusal(args) is None <==> {
            let n = args.paths@.len();
            let intent = intent_of(args);
            if args.probe_only {
                n == 1
            } else if args.upgrade {
                n == 1 && !(intent is Concat)
            } else {
                (n == 2 && !(intent is Concat)) || (n > 2 && (intent is Auto || intent is Concat))
            }
        },
{
}

} // verus!
