use vimprover::cli::{
    answer_accepts, intent_from_args, overrides_from_args, parse_bitrate, request_from_args,
    sum_input_sizes, Args, CliCodec, CliContainer, CliIntent, FlowFlags, Request,
};
use vimprover::model::Container;
use vimprover::plan::{Intent, VideoCodecChoice};

#[test]
fn parse_bitrate_accepts_plain_integer() {
    assert_eq!(parse_bitrate("5000000").unwrap(), 5_000_000);
    assert_eq!(parse_bitrate("0").unwrap(), 0);
}

#[test]
fn parse_bitrate_accepts_si_suffixes() {
    assert_eq!(parse_bitrate("5M").unwrap(), 5_000_000);
    assert_eq!(parse_bitrate("5m").unwrap(), 5_000_000);
    assert_eq!(parse_bitrate("750k").unwrap(), 750_000);
    assert_eq!(parse_bitrate("2G").unwrap(), 2_000_000_000);
}

#[test]
fn parse_bitrate_accepts_decimals() {
    assert_eq!(parse_bitrate("1.5M").unwrap(), 1_500_000);
    assert_eq!(parse_bitrate("2.5k").unwrap(), 2_500);
}

#[test]
fn parse_bitrate_rejects_garbage() {
    assert!(parse_bitrate("").is_err());
    assert!(parse_bitrate("abc").is_err());
    assert!(parse_bitrate("-5M").is_err());
    assert!(parse_bitrate("5MM").is_err());
}

fn args(paths: &[&str]) -> Args {
    Args {
        paths: paths.iter().map(|p| p.to_string()).collect(),
        probe_only: false,
        upgrade: false,
        dry_run: false,
        overwrite: false,
        force: false,
        yes: false,
        reencode: false,
        intent: None,
        max_height: None,
        target_bitrate: None,
        video_codec: None,
        crf: None,
        preset: None,
        container: None,
        keep_multichannel_audio: false,
    }
}

fn refusal(args: &Args) -> String {
    match request_from_args(args) {
        Request::Refused(why) => why,
        other => panic!("expected a refusal, got {other:?}"),
    }
}

#[test]
fn parse_bitrate_reads_back_plain_and_suffixed_integers() {
    for n in [0u64, 1, 999, 5_000_000, (1 << 53) - 1, 1 << 53, u64::MAX] {
        assert_eq!(parse_bitrate(&n.to_string()).unwrap(), n);
    }
    for (suffix, factor) in [("k", 1_000), ("K", 1_000), ("m", 1_000_000), ("M", 1_000_000)] {
        assert_eq!(parse_bitrate(&format!("12{suffix}")).unwrap(), 12 * factor);
    }
    assert_eq!(parse_bitrate("18g").unwrap(), 18_000_000_000);
    assert_eq!(parse_bitrate("18G").unwrap(), 18_000_000_000);
}

/// What double-precision arithmetic makes of a bitrate.
fn bitrate_in_doubles(number: &str, factor: f64) -> Result<u64, &'static str> {
    let num: f64 = number.parse().unwrap();
    if num < 0.0 || !num.is_finite() {
        return Err("positive finite");
    }
    let bits = (num * factor).round();
    if bits > u64::MAX as f64 {
        return Err("unreasonably large");
    }
    Ok(bits as u64)
}

fn assert_agrees_with_doubles(number: &str) {
    for (suffix, factor) in [("", 1.0), ("k", 1e3), ("M", 1e6), ("G", 1e9)] {
        let text = format!(" {number}{suffix} ");
        match (parse_bitrate(&text), bitrate_in_doubles(number, factor)) {
            (Ok(a), Ok(b)) => assert_eq!(a, b, "{text}"),
            (Err(message), Err(what)) => assert!(message.contains(what), "{text}: {message}"),
            (a, b) => panic!("{text}: {a:?} is not {b:?}"),
        }
    }
}

#[test]
fn parse_bitrate_agrees_with_doubles() {
    for s in ["0.1", "1.5", "2.25", "0.0005", "7.0004", "3.3333", ".5", "5.", "1e3", "1E-3", "+2"] {
        assert_agrees_with_doubles(s);
    }
    for s in [
        "1.0005", "2.0005", "1.0015", "8.0000005", "4.0000000005", "0.0000000005", "0.00000000049999",
        "0.4999999999999999999999", "0.49999999999999994", "0.5000000000000000000001",
        "9007199254740991", "9007199254740992", "9007199254740993", "9007199254740993.00001",
        "9007199254740995", "9007199254740996.5", "4503599627370496.5", "4503599627370497.5",
        "4503599627370497.4999999999999999", "36028797018963971", "18446744073709551615",
        "18446744073709549568", "18446744073709550591", "18446744073709550592", "18446744073709551616",
        "18446744073709553664", "18446744073709553664.0000001", "18446744073709553665", "36893488147419103232",
        "18446744073.709551615", "18446744073.7095516160001", "18446744073709.551616",
        "1e300", "1.7976931348623157e308", "1.7976931348623158e308", "1.7976931348623159e308", "2e308",
        "1e1000", "1e1100", "1e999999999", "0e999999999", "1e-300", "1e-999999999", "0.000001e6",
        "-0", "-0.0", "-1e-323", "-3e-324", "-2.4703282292062328e-324", "-2.4703282292062327e-324",
        "-2e-324", "-1e-400", "-1e-1074", "-1e-1080", "-1e-999999999", "-1", "-0.5", "-1e400",
        "000000000000000000000000000000000000000000000000001.5", "0.1e-30", "123456789e-35",
    ] {
        assert_agrees_with_doubles(s);
    }
}

#[test]
fn parse_bitrate_agrees_with_doubles_at_their_limits() {
    let infinite = "179769313486231580793728971405303415079934132710037826936173778980444968292764750946649017977587207096330286416692887910946555547851940402630657488671505820681908902000708383676273854845817711531764475730270069855571366959622842914819860834936475292719074168444365510704342711559699508093042880177904174497792";
    let finite = "179769313486231580793728971405303415079934132710037826936173778980444968292764750946649017977587207096330286416692887910946555547851940402630657488671505820681908902000708383676273854845817711531764475730270069855571366959622842914819860834936475292719074168444365510704342711559699508093042880177904174497791";
    assert_agrees_with_doubles(infinite);
    assert_agrees_with_doubles(&format!("{finite}.999999"));
    assert_agrees_with_doubles(finite);
    assert!(parse_bitrate(infinite).unwrap_err().contains("positive finite"));
    assert!(parse_bitrate(finite).unwrap_err().contains("unreasonably large"));
    let vanishing = "24703282292062327208828439643411068618252990130716238221279284125033775363510437593264991818081799618989828234772285886546332835517796989819938739800539093906315035659515570226392290858392449105184435931802849936536152500319370457678249219365623669863658480757001585769269903706311928279558551332927834338409351978015531246597263579574622766465272827220056374006485499977096599470454020828166226237857393450736339007967761930577506740176324673600968951340535537458516661134223766678604162159680461914467291840300530057530849048765391711386591646239524912623653881879636239373280423891018672348497668235089863388587925628302755995657524455507255189313690836254779186948667994968324049705821028513185451396213837722826145437693412532098591327667236328125";
    assert_agrees_with_doubles(&format!("-{vanishing}e-1075"));
    assert_agrees_with_doubles(&format!("-{vanishing}.1e-1075"));
    assert_eq!(parse_bitrate(&format!("-{vanishing}e-1075")).unwrap(), 0);
    assert!(parse_bitrate(&format!("-{vanishing}.1e-1075")).is_err());
}

#[test]
fn parse_bitrate_agrees_with_doubles_on_many_numbers() {
    let mut state: u64 = 0x9e37_79b9_7f4a_7c15;
    for _ in 0..3000 {
        state = state.wrapping_mul(6364136223846793005).wrapping_add(1442695040888963407);
        let digits = (state >> 3).to_string();
        let point = (state >> 7) as usize % (digits.len() + 1);
        assert_agrees_with_doubles(&format!("{}.{}", &digits[..point], &digits[point..]));
        let exponent = (state >> 11) as i64 % 40 - 30;
        assert_agrees_with_doubles(&format!("{digits}e{exponent}"));
        let half = (state >> 40) % 100_000;
        assert_agrees_with_doubles(&format!("{half}.0005"));
        assert_agrees_with_doubles(&format!("{half}.0000005"));
    }
}

#[test]
fn parse_bitrate_says_what_is_wrong() {
    assert_eq!(parse_bitrate("  ").unwrap_err(), "empty bitrate");
    assert_eq!(parse_bitrate("5MM").unwrap_err(), "could not parse bitrate '5MM' as a number");
    assert_eq!(parse_bitrate("k").unwrap_err(), "could not parse bitrate 'k' as a number");
    assert_eq!(
        parse_bitrate("-5M").unwrap_err(),
        "bitrate must be a positive finite number, got '-5M'"
    );
    assert_eq!(
        parse_bitrate("nan").unwrap_err(),
        "bitrate must be a positive finite number, got 'nan'"
    );
    assert_eq!(
        parse_bitrate(" inf").unwrap_err(),
        "bitrate must be a positive finite number, got ' inf'"
    );
    assert_eq!(
        parse_bitrate("20000000000G").unwrap_err(),
        "bitrate '20000000000G' is unreasonably large"
    );
    assert_eq!(parse_bitrate("-0").unwrap(), 0);
}

#[test]
fn intent_comes_from_the_flags() {
    let mut a = args(&["in", "out"]);
    assert_eq!(intent_from_args(&a), Intent::Auto);
    a.max_height = Some(720);
    let shrink = Intent::Shrink { max_height: Some(720), target_bitrate_bps: None };
    assert_eq!(intent_from_args(&a), shrink);
    a.reencode = true;
    assert_eq!(intent_from_args(&a), Intent::Reencode);
    a.intent = Some(CliIntent::Shrink);
    assert_eq!(intent_from_args(&a), shrink);
    a.intent = Some(CliIntent::Remux);
    assert_eq!(intent_from_args(&a), Intent::Remux);
    a.intent = Some(CliIntent::Auto);
    assert_eq!(intent_from_args(&a), Intent::Auto);
    a.intent = Some(CliIntent::Concat);
    assert_eq!(intent_from_args(&a), Intent::Concat);
    a.intent = None;
    a.reencode = false;
    a.max_height = None;
    a.target_bitrate = Some(5);
    assert_eq!(
        intent_from_args(&a),
        Intent::Shrink { max_height: None, target_bitrate_bps: Some(5) }
    );
}

#[test]
fn container_comes_from_the_flag_or_the_output() {
    let mut a = args(&["in", "out"]);
    assert_eq!(overrides_from_args(&a, Some("out.mp4")).container, Some(Container::Mp4));
    assert_eq!(overrides_from_args(&a, Some("out.webm")).container, None);
    assert_eq!(overrides_from_args(&a, None).container, None);
    a.container = Some(CliContainer::Mkv);
    a.video_codec = Some(CliCodec::X265);
    a.preset = Some("slow".to_string());
    a.crf = Some(30);
    a.keep_multichannel_audio = true;
    let o = overrides_from_args(&a, Some("out.mp4"));
    assert_eq!(o.container, Some(Container::Mkv));
    assert_eq!(o.video_codec, Some(VideoCodecChoice::X265));
    assert_eq!(o.preset.as_deref(), Some("slow"));
    assert_eq!(o.crf, Some(30));
    assert_eq!(o.max_height, None);
    assert!(o.keep_multichannel_audio);
}

#[test]
fn requests_by_the_number_of_paths() {
    let mut a = args(&["in.vob", "out.mp4"]);
    a.yes = true;
    match request_from_args(&a) {
        Request::Single { input, output, intent, overrides, flags } => {
            assert_eq!(input, "in.vob");
            assert_eq!(output, "out.mp4");
            assert_eq!(intent, Intent::Auto);
            assert_eq!(overrides.container, Some(Container::Mp4));
            assert_eq!(
                flags,
                FlowFlags { dry_run: false, overwrite: false, force: false, yes: true }
            );
        }
        other => panic!("{other:?}"),
    }
    match request_from_args(&args(&["a.mp4", "b.mp4", "joined"])) {
        Request::Concat { inputs, output, .. } => {
            assert_eq!(inputs, ["a.mp4", "b.mp4"]);
            assert_eq!(output, "joined");
        }
        other => panic!("{other:?}"),
    }
    let mut a = args(&["in.vob"]);
    a.probe_only = true;
    assert!(matches!(request_from_args(&a), Request::ProbeOnly { input } if input == "in.vob"));
    let mut a = args(&["in.vob"]);
    a.upgrade = true;
    assert!(matches!(request_from_args(&a), Request::Upgrade { input, .. } if input == "in.vob"));
}

#[test]
fn arguments_that_make_no_sense_together_are_refused() {
    let mut a = args(&["a", "b"]);
    a.probe_only = true;
    assert_eq!(refusal(&a), "--probe-only takes exactly one INPUT (got 2)");
    let mut a = args(&["a", "b"]);
    a.upgrade = true;
    assert_eq!(
        refusal(&a),
        "--upgrade takes exactly one INPUT (got 2); for concat or explicit-output runs, omit --upgrade"
    );
    let mut a = args(&["a"]);
    a.upgrade = true;
    a.intent = Some(CliIntent::Concat);
    assert_eq!(refusal(&a), "--intent concat is incompatible with --upgrade");
    assert_eq!(
        refusal(&args(&["a"])),
        "expected `INPUT [INPUT...] OUTPUT` or `--upgrade INPUT` (got 1 path)"
    );
    assert_eq!(
        refusal(&args(&[])),
        "expected `INPUT [INPUT...] OUTPUT` or `--upgrade INPUT` (got 0 paths)"
    );
    let mut a = args(&["a", "b", "c"]);
    a.max_height = Some(720);
    assert_eq!(
        refusal(&a),
        format!(
            "intent {:?} doesn't make sense with multiple inputs; omit --intent or use --intent concat",
            intent_from_args(&a)
        )
    );
    a.target_bitrate = Some(7);
    assert!(refusal(&a).contains(&format!("intent {:?} ", intent_from_args(&a))));
    a.intent = Some(CliIntent::Remux);
    assert!(refusal(&a).starts_with("intent Remux doesn't"));
    let mut a = args(&["a", "b"]);
    a.intent = Some(CliIntent::Concat);
    assert_eq!(
        refusal(&a),
        "--intent concat needs at least two inputs (got 1); pass each input as a positional argument before the output path"
    );
}

#[test]
fn answers_to_the_prompt() {
    for yes in ["", "\n", "y\n", "Yes\n", "whatever\n", "  \n"] {
        assert!(answer_accepts(yes), "{yes:?}");
    }
    for no in ["n\n", "N\n", "no\n", "  Nope\n"] {
        assert!(!answer_accepts(no), "{no:?}");
    }
}

#[test]
fn input_sizes_are_summed_as_a_whole_or_not_at_all() {
    assert_eq!(sum_input_sizes(&[]), Some(0));
    assert_eq!(sum_input_sizes(&[Some(1), Some(2), Some(3)]), Some(6));
    assert_eq!(sum_input_sizes(&[Some(1), None, Some(3)]), None);
    assert_eq!(sum_input_sizes(&[Some(u64::MAX), Some(1)]), None);
    assert_eq!(sum_input_sizes(&[Some(u64::MAX), Some(0)]), Some(u64::MAX));
}
