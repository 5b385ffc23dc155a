//! Numbers that are shown as decimals, held against double-precision
//! arithmetic.

use vimprover::binary64;
use vimprover::format::{format_bitrate, format_bytes, format_khz, render_framerate};
use vimprover::model::{FieldOrder, Rational, VideoCodec, VideoInfo};

/// A small generator of numbers that repeats itself on every run.
struct Numbers(u64);

impl Numbers {
    fn next(&mut self) -> u64 {
        self.0 ^= self.0 << 13;
        self.0 ^= self.0 >> 7;
        self.0 ^= self.0 << 17;
        self.0
    }

    /// A number with a random count of bits.
    fn sized(&mut self) -> u64 {
        let bits = self.next() % 64;
        self.next() >> bits
    }
}

fn bytes_by_doubles(bytes: u64) -> String {
    let units = ["B", "KiB", "MiB", "GiB", "TiB", "PiB"];
    let mut value = bytes as f64;
    let mut unit = 0;
    while value >= 1024.0 && unit < 5 {
        value /= 1024.0;
        unit += 1;
    }
    if unit == 0 {
        format!("{bytes} B")
    } else {
        format!("{value:.1} {}", units[unit])
    }
}

fn bitrate_by_doubles(bps: u64) -> String {
    if bps >= 1_000_000 {
        format!("{:.1} Mbps", bps as f64 / 1_000_000.0)
    } else if bps >= 1_000 {
        format!("{:.0} kbps", bps as f64 / 1_000.0)
    } else {
        format!("{bps} bps")
    }
}

fn khz_by_doubles(hz: u32) -> String {
    if hz % 1000 == 0 {
        format!("{}", hz / 1000)
    } else {
        format!("{:.1}", hz as f64 / 1000.0)
    }
}

fn framerate_by_doubles(num: u32, den: u32) -> String {
    let f = num as f64 / den as f64;
    if (f - f.round()).abs() < 1e-6 {
        format!("{}", f.round() as u32)
    } else {
        format!("{f:.3}")
    }
}

fn video(width: u32, num: u32, den: u32) -> VideoInfo {
    VideoInfo {
        codec: VideoCodec::H264,
        width,
        height: 480,
        field_order: FieldOrder::Progressive,
        framerate: None,
        pix_fmt: None,
        sar: Some(Rational { num, den }),
        is_hdr: false,
    }
}

#[test]
fn byte_counts_agree_with_doubles() {
    let mut n = Numbers(0x9e3779b97f4a7c15);
    for _ in 0..20_000 {
        let bytes = n.sized();
        assert_eq!(format_bytes(bytes), bytes_by_doubles(bytes), "{bytes}");
    }
    for bytes in [1023, 1024, 1_048_575, 1_048_576, u64::MAX, u64::MAX - 1, (1 << 53) + 1] {
        assert_eq!(format_bytes(bytes), bytes_by_doubles(bytes), "{bytes}");
    }
    // A tie in the decimal goes to the even digit.
    assert_eq!(format_bytes(1024 + 256), "1.2 KiB");
    assert_eq!(format_bytes(1024 + 768), "1.8 KiB");
}

#[test]
fn bitrates_agree_with_doubles() {
    let mut n = Numbers(0x1234567890abcdef);
    for _ in 0..20_000 {
        let bps = n.sized();
        assert_eq!(format_bitrate(bps), bitrate_by_doubles(bps), "{bps}");
    }
    for bps in [999, 1_000, 1_500, 2_500, 999_499, 999_500, 999_999, 1_000_000, 1_050_000, u64::MAX]
    {
        assert_eq!(format_bitrate(bps), bitrate_by_doubles(bps), "{bps}");
    }
    assert_eq!(format_bitrate(2_500), "2 kbps");
    assert_eq!(format_bitrate(999_999), "1000 kbps");
}

#[test]
fn sample_rates_agree_with_doubles() {
    let mut n = Numbers(77);
    for _ in 0..20_000 {
        let hz = n.sized() as u32;
        assert_eq!(format_khz(hz), khz_by_doubles(hz), "{hz}");
    }
    for hz in (0..100_000).step_by(25) {
        assert_eq!(format_khz(hz), khz_by_doubles(hz), "{hz}");
    }
}

#[test]
fn framerates_agree_with_doubles() {
    let mut n = Numbers(4242);
    for _ in 0..20_000 {
        let num = n.sized() as u32;
        let den = (n.sized() as u32).max(1);
        let rate = Rational { num, den };
        assert_eq!(render_framerate(rate), framerate_by_doubles(num, den), "{num}/{den}");
    }
    for (num, den) in
        [(0, 1), (0, 7), (30000, 1001), (24000, 1001), (30, 1), (1, 3), (u32::MAX, 1), (1, u32::MAX)]
    {
        let rate = Rational { num, den };
        assert_eq!(render_framerate(rate), framerate_by_doubles(num, den), "{num}/{den}");
        assert_eq!(rate.to_string(), framerate_by_doubles(num, den), "{num}/{den}");
    }
    assert_eq!(Rational { num: 1, den: 0 }.to_string(), "inf");
    assert_eq!(Rational { num: 0, den: 0 }.to_string(), "NaN");
    // Within a millionth of a whole number, but not one.
    assert_eq!(Rational { num: 30_000_001, den: 1_000_000 }.to_string(), "30.000");
    assert_eq!(Rational { num: 300_000_001, den: 10_000_000 }.to_string(), "30");
}

#[test]
fn display_widths_agree_with_doubles() {
    let mut n = Numbers(99);
    for _ in 0..20_000 {
        let width = n.sized() as u32;
        let num = n.sized() as u32;
        let den = (n.sized() as u32).max(1);
        let expected = if num != den {
            (width as f64 * (num as f64 / den as f64)).round() as u32
        } else {
            width
        };
        assert_eq!(video(width, num, den).display_size(), (expected, 480), "{width} {num}:{den}");
    }
    for (num, den) in [(10, 11), (16, 11), (200, 219), (40, 33), (12, 11), (1, 2), (3, 2)] {
        for width in 0..2_000 {
            let expected = (width as f64 * (num as f64 / den as f64)).round() as u32;
            assert_eq!(video(width, num, den).display_size().0, expected, "{width} {num}:{den}");
        }
    }
    assert_eq!(video(720, 5, 0).display_size(), (u32::MAX, 480));
    assert_eq!(video(0, 5, 0).display_size(), (0, 480));
}

#[test]
fn framerate_distances_agree_with_doubles() {
    let apart = |a: (u32, u32), b: (u32, u32)| {
        let x = a.0 as f64 / a.1 as f64;
        let y = b.0 as f64 / b.1 as f64;
        (x - y).abs() > 0.025
    };
    let mut n = Numbers(31337);
    for _ in 0..20_000 {
        let a = (n.sized() as u32, n.sized() as u32);
        let b = (n.sized() as u32, n.sized() as u32);
        assert_eq!(binary64::apart(a.0, a.1, b.0, b.1), apart(a, b), "{a:?} {b:?}");
        // Two rates that are close to each other.
        let den = (n.next() as u32 % 100_000).max(1);
        let num = n.next() as u32 % 6_000_000;
        let near = num + n.next() as u32 % (den / 20 + 2);
        assert_eq!(
            binary64::apart(num, den, near, den),
            apart((num, den), (near, den)),
            "{num} {near} over {den}"
        );
        assert_eq!(
            binary64::apart(near, den, num, den),
            apart((near, den), (num, den)),
            "{near} {num} over {den}"
        );
    }
    for (a, b) in [
        ((30000, 1001), (30, 1)),
        ((24000, 1001), (24, 1)),
        ((961, 40), (24, 1)),
        ((960, 40), (24, 1)),
        ((1, 40), (0, 1)),
        ((2, 40), (1, 40)),
        ((3, 40), (2, 40)),
        ((241, 10), (24, 1)),
        ((240, 10), (24, 1)),
        ((1, 10), (0, 1)),
        ((2, 10), (1, 10)),
        ((3, 10), (2, 10)),
        ((1, 0), (2, 0)),
        ((0, 0), (1, 1)),
        ((1, 0), (1, 1)),
    ] {
        assert_eq!(binary64::apart(a.0, a.1, b.0, b.1), apart(a, b), "{a:?} {b:?}");
    }
    assert!(binary64::apart(30000, 1001, 30, 1));
    assert!(!binary64::apart(24000, 1001, 24, 1));
}

#[test]
fn rounding_goes_to_the_nearest() {
    assert_eq!(binary64::half_even(5, 2), 2);
    assert_eq!(binary64::half_even(7, 2), 4);
    assert_eq!(binary64::half_up(5, 2), 3);
    assert_eq!(binary64::half_up(9, 4), 2);
    assert_eq!(binary64::nearest_whole_double((1 << 53) + 1), 1 << 53);
    assert_eq!(binary64::nearest_whole_double((1 << 53) + 3), (1 << 53) + 4);
    for n in [0u64, 1, u64::MAX, (1 << 60) + 12345] {
        assert_eq!(binary64::nearest_whole_double(n as u128), n as f64 as u128);
    }
}
