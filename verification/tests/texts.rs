//! Text and path primitives, held against the standard library.

use std::path::Path;
use vimprover::numeral;
use vimprover::path;
use vimprover::text;

/// All texts of up to `len` characters over an alphabet.
fn texts_over(alphabet: &[char], len: usize) -> Vec<String> {
    let mut all = vec![String::new()];
    let mut last = all.clone();
    for _ in 0..len {
        let mut longer = Vec::new();
        for s in &last {
            for c in alphabet {
                let mut t = s.clone();
                t.push(*c);
                longer.push(t);
            }
        }
        all.extend(longer.iter().cloned());
        last = longer;
    }
    all
}

#[test]
fn whitespace_is_that_of_unicode() {
    for c in '\0'..=char::MAX {
        assert_eq!(text::whitespace(c), c.is_whitespace(), "{c:?}");
    }
}

#[test]
fn trimming_and_splitting() {
    for s in texts_over(&[' ', 'a', ',', '\u{3000}'], 6) {
        assert_eq!(text::trimmed(&s), s.trim(), "{s:?}");
        assert_eq!(text::pieces(&s, ','), s.split(',').collect::<Vec<_>>(), "{s:?}");
        let parts: Vec<&str> = s.split(',').map(str::trim).collect();
        assert_eq!(text::lists_word(&s, "a"), parts.contains(&"a"), "{s:?}");
        assert_eq!(text::has_prefix(&s, "a,"), s.starts_with("a,"), "{s:?}");
    }
}

#[test]
fn lowering_is_for_ascii_only() {
    for s in ["MKV", "mkv", "mKv", "MKV ", "", "M\u{212a}V", "\u{130}"] {
        assert_eq!(text::eq_lowered(s, "mkv"), s.to_ascii_lowercase() == "mkv", "{s:?}");
    }
}

#[test]
fn whole_numbers_are_read_like_the_standard_library_reads_them() {
    for s in texts_over(&['+', '-', '0', '7', ' '], 5) {
        assert_eq!(text::parse_u64(&s), s.parse::<u64>().ok(), "{s:?}");
        assert_eq!(text::parse_u32(&s), s.parse::<u32>().ok(), "{s:?}");
    }
    for s in [
        "18446744073709551615",
        "18446744073709551616",
        "+18446744073709551615",
        "4294967295",
        "4294967296",
        "00000000000000000000000000000000000012",
        "99999999999999999999999999",
    ] {
        assert_eq!(text::parse_u64(s), s.parse::<u64>().ok(), "{s:?}");
        assert_eq!(text::parse_u32(s), s.parse::<u32>().ok(), "{s:?}");
    }
}

#[test]
fn whole_numbers_read_back() {
    for n in [0, 1, 9, 10, 99, 100, 12345, u64::MAX] {
        let s = text::decimal_text(n);
        assert_eq!(s, n.to_string());
        assert_eq!(text::parse_u64(&s), Some(n));
    }
    let mut out = String::new();
    for n in [0, -1, 7, i32::MIN, i32::MAX] {
        out.clear();
        text::push_signed(&mut out, n);
        assert_eq!(out, n.to_string());
    }
}

#[test]
fn paths_come_apart_like_the_standard_library_takes_them_apart() {
    for s in texts_over(&['/', '.', 'a'], 7) {
        let p = Path::new(&s);
        assert_eq!(path::name_of(&s).as_deref(), p.file_name().and_then(|n| n.to_str()), "{s:?}");
        assert_eq!(path::stem_of(&s).as_deref(), p.file_stem().and_then(|n| n.to_str()), "{s:?}");
        assert_eq!(
            path::extension_of(&s).as_deref(),
            p.extension().and_then(|n| n.to_str()),
            "{s:?}"
        );
        assert_eq!(path::parent_of(&s).as_deref(), p.parent().and_then(|n| n.to_str()), "{s:?}");
        assert_eq!(path::joined(&s, "b.mkv"), p.join("b.mkv").to_str().unwrap(), "{s:?}");
    }
}

#[test]
fn paths_are_the_same_when_the_standard_library_says_so() {
    let all = texts_over(&['/', '.', 'a'], 5);
    for a in &all {
        for b in &all {
            assert_eq!(path::same_place(a, b), Path::new(a) == Path::new(b), "{a:?} {b:?}");
        }
    }
}

#[test]
fn numerals_are_what_the_standard_library_reads_as_numbers() {
    for s in texts_over(&['+', '-', '.', '5', 'e', 'E'], 5) {
        assert_eq!(numeral::read(&s).is_some(), s.parse::<f64>().is_ok(), "{s:?}");
    }
    for s in ["inf", "-inf", "+Infinity", "NaN", "-nan", "infinit", "nane", "in", "INF", " 1", "1 "] {
        assert_eq!(numeral::read(s).is_some(), s.parse::<f64>().is_ok(), "{s:?}");
    }
}

#[test]
fn numerals_are_cut_to_their_whole_part() {
    let whole = |s: &str| match numeral::read(s) {
        Some(numeral::Numeral::Finite { digits, point, .. }) => numeral::short_whole(&digits, point),
        _ => panic!("{s} is no number"),
    };
    for s in [
        "0", "0.4", "0.5", "0.49999", "1.5", "2.5", "00012", "12e3", "12e-1", "15e-1", "5e-1", "4e-1",
        ".5e1", "5.e1", "1234567.5", "0e999999999999", "1e-999999999999", "99.5e-2",
    ] {
        let f: f64 = s.parse().unwrap();
        assert_eq!(whole(s), Some(f.trunc() as u128), "{s}");
    }
    assert_eq!(whole("9007199254740991.9"), Some((1 << 53) - 1));
    assert_eq!(whole("9007199254740992"), None);
    assert_eq!(whole("18446744073709551616"), None);
    assert_eq!(whole("1e999999999999"), None);
    assert_eq!(whole("0.00000000000000000001e20"), Some(1));
}

#[test]
fn paths_are_made_absolute_like_the_standard_library_does() {
    let text = |p: std::path::PathBuf| p.to_str().unwrap().to_string();
    let here = text(std::path::absolute(".").unwrap());
    for p in texts_over(&['/', '.', 'a'], 6) {
        if !p.is_empty() {
            let expected = text(std::path::absolute(&p).unwrap());
            assert_eq!(path::absolute_of(&here, &p), expected, "{p:?}");
        }
    }
    assert_eq!(
        std::path::absolute("").unwrap_err().to_string(),
        vimprover::execute::absolute_paths(&[String::new()], &Ok(here)).unwrap_err()
    );
}
