use bogoforge::double::Double;
use bogoforge::float::Float;
use bogoforge::tui::figures::{
    ascii_ramp_char, fmt_best, fmt_bytes, fmt_count, fmt_double_rate, fmt_rate, fmt_score,
    fmt_uptime,
};
use bogoforge::tui::palette::{badge_color, load_color, percent_color, Tone};

/// A spread of 64-bit numbers: around powers of two and of ten, and between.
fn spread() -> Vec<u64> {
    let mut v = vec![0u64, 1, 2, 3, 5, 7, 9, 10, 11, 25, 99, 100, 101];
    for k in 0..64 {
        let p = 1u64 << k;
        for d in [0u64, 1, 2, 3, 511, 512, 513, 1023, 1024, 1025] {
            v.push(p.wrapping_add(d));
            v.push(p.wrapping_sub(d));
            v.push((p / 3).wrapping_add(d));
        }
    }
    let mut p = 1u64;
    for _ in 0..19 {
        for d in [0u64, 1, 4, 5, 6, 49, 50, 51, 499, 500, 501, 5000, 5001] {
            v.push(p.wrapping_add(d));
            v.push(p.wrapping_sub(d));
            v.push(p.wrapping_mul(5).wrapping_add(d));
        }
        p *= 10;
    }
    let mut x = 0x9e37_79b9_7f4a_7c15u64;
    for i in 0..2000u32 {
        x = x.wrapping_mul(6364136223846793005).wrapping_add(1442695040888963407);
        v.push(x >> (i % 64));
    }
    v
}

#[test]
fn bytes_are_printed() {
    assert_eq!(fmt_bytes(0), "0 B");
    assert_eq!(fmt_bytes(1023), "1023 B");
    assert_eq!(fmt_bytes(1024), "1 KB");
    assert_eq!(fmt_bytes(1536), "2 KB");
    assert_eq!(fmt_bytes(2560), "2 KB");
    assert_eq!(fmt_bytes(1024 * 1024), "1 MB");
    assert_eq!(fmt_bytes(1024 * 1024 * 1024), "1.0 GB");
    assert_eq!(fmt_bytes(34_359_738_368), "32.0 GB");
    assert_eq!(fmt_bytes(u64::MAX), "17179869184.0 GB");
    for n in spread() {
        let b = n as f64;
        let expected = if b >= 1073741824.0 {
            format!("{:.1} GB", b / 1073741824.0)
        } else if b >= 1048576.0 {
            format!("{:.0} MB", b / 1048576.0)
        } else if b >= 1024.0 {
            format!("{:.0} KB", b / 1024.0)
        } else {
            format!("{n} B")
        };
        assert_eq!(fmt_bytes(n), expected, "{n}");
    }
}

#[test]
fn counts_are_printed() {
    assert_eq!(fmt_count(0), "0");
    assert_eq!(fmt_count(999), "999");
    assert_eq!(fmt_count(1_000), "1.0K");
    assert_eq!(fmt_count(1_250), "1.2K");
    assert_eq!(fmt_count(1_350), "1.4K");
    assert_eq!(fmt_count(1_000_000), "1.00M");
    assert_eq!(fmt_count(50_000_000_000), "50.00B");
    assert_eq!(fmt_count(1_500_000_000_000), "1.50T");
    assert_eq!(fmt_count(u64::MAX), "18446744.07T");
    for n in spread() {
        let expected = if n >= 1_000_000_000_000 {
            format!("{:.2}T", n as f64 / 1e12)
        } else if n >= 1_000_000_000 {
            format!("{:.2}B", n as f64 / 1e9)
        } else if n >= 1_000_000 {
            format!("{:.2}M", n as f64 / 1e6)
        } else if n >= 1_000 {
            format!("{:.1}K", n as f64 / 1e3)
        } else {
            format!("{n}")
        };
        assert_eq!(fmt_count(n), expected, "{n}");
    }
}

fn rate_by_floats(rate: f64) -> String {
    if rate <= 0.0 {
        return "-".into();
    }
    if rate >= 1e12 {
        format!("{:.2}T/s", rate / 1e12)
    } else if rate >= 1e9 {
        format!("{:.2}B/s", rate / 1e9)
    } else if rate >= 1e6 {
        format!("{:.2}M/s", rate / 1e6)
    } else if rate >= 1e3 {
        format!("{:.2}K/s", rate / 1e3)
    } else {
        format!("{rate:.0}/s")
    }
}

fn float(x: f64) -> Float {
    Float { bits: x.to_bits() }
}

fn printed(x: f64, decimals: u8) -> String {
    let mut s = String::from("=");
    float(x).push_text(&mut s, decimals);
    s
}

#[test]
fn rates_are_printed() {
    assert_eq!(fmt_double_rate(Double::of(0)), "-");
    assert_eq!(fmt_double_rate(Double::of(1)), "1/s");
    assert_eq!(fmt_double_rate(Double::of(999)), "999/s");
    assert_eq!(fmt_double_rate(Double::of(1_000)), "1.00K/s");
    assert_eq!(fmt_double_rate(Double::of(123_456_789)), "123.46M/s");
    assert_eq!(fmt_double_rate(Double::ratio_of(5, 2)), "2/s");
    assert_eq!(fmt_double_rate(Double::ratio_of(1, u64::MAX)), "0/s");
    for n in spread() {
        assert_eq!(fmt_double_rate(Double::of(n)), rate_by_floats(n as f64), "{n}");
        assert_eq!(fmt_rate(float(n as f64)), rate_by_floats(n as f64), "{n}");
        for d in [1u64, 2, 3, 7, 60, 86_400, 1 << 53, (1 << 53) + 1, u64::MAX] {
            let rate = n as f64 / d as f64;
            assert_eq!(fmt_double_rate(Double::ratio_of(n, d)), rate_by_floats(rate), "{n} / {d}");
        }
    }
}

/// Every kind of number there is.
fn floats() -> Vec<f64> {
    let mut all = vec![
        0.0f64, 5e-324, 1e-300, 0.004999, 0.005, 0.25, 0.3, 0.5, 1.0, 1.5, 2.5, 12.345, 99.5, 1e3,
        1e15, 18446744073709549568.0, 18446744073709551616.0, 1e20, 1e25, 9.007199254740993e27, 1e28,
        9.1e27, 1e30, 1e100, f64::MAX, f64::MIN_POSITIVE, f64::INFINITY, f64::NAN,
    ];
    let mut x = 0x1234_5678_9abc_def1u64;
    for _ in 0..3000 {
        x = x.wrapping_mul(6364136223846793005).wrapping_add(1442695040888963407);
        all.push(f64::from_bits(x >> 1));
    }
    for k in -60..1024 {
        let p = 2f64.powi(k);
        all.push(p);
        all.push(f64::from_bits(p.to_bits() - 1));
        all.push(f64::from_bits(p.to_bits() + 1));
    }
    let negative: Vec<f64> = all.iter().map(|x| -x).collect();
    all.extend(negative);
    all
}

#[test]
fn floats_are_printed() {
    assert_eq!(fmt_rate(float(-1.0)), "-");
    assert_eq!(fmt_rate(float(-0.0)), "-");
    assert_eq!(fmt_rate(float(f64::NEG_INFINITY)), "-");
    assert_eq!(fmt_rate(float(f64::INFINITY)), "infT/s");
    assert_eq!(fmt_rate(float(f64::NAN)), "NaN/s");
    assert_eq!(fmt_rate(float(1e20)), "100000000.00T/s");
    for x in floats() {
        assert_eq!(fmt_rate(float(x)), rate_by_floats(x), "{x:e}");
        assert_eq!(printed(x, 0), format!("={x:.0}"), "{x:e}");
        assert_eq!(printed(x, 1), format!("={x:.1}"), "{x:e}");
        assert_eq!(printed(x, 2), format!("={x:.2}"), "{x:e}");
    }
}

#[test]
fn doubles_are_compared_and_divided() {
    let d = Double::ratio_of(2399, 24);
    assert!(d.at_least(99));
    assert!(!d.at_least(100));
    assert!(!d.is_zero());
    assert!(Double::of(0).is_zero());
    let mut s = String::new();
    Double::of(1_000).divided_by(16).push_printed(&mut s, 1);
    assert_eq!(s, "62.5");
    assert_eq!(Double::ratio_of(5, 2).round(), 3);
    assert_eq!(Double::ratio_of(7, 2).round(), 4);
    assert_eq!(Double::ratio_of(22, 7).round(), 3);
}

#[test]
fn scores_are_printed() {
    assert_eq!(fmt_score(-1), "-");
    assert_eq!(fmt_score(0), "0");
    assert_eq!(fmt_score(25), "25");
    assert_eq!(fmt_best(-1), "- / 25");
    assert_eq!(fmt_best(7), "7 / 25");
    assert_eq!(fmt_score(i32::MIN), "-");
    assert_eq!(fmt_score(i32::MAX), "2147483647");
}

#[test]
fn uptimes_are_printed() {
    assert_eq!(fmt_uptime(0), "0h 0m 0s");
    assert_eq!(fmt_uptime(3_599), "0h 59m 59s");
    assert_eq!(fmt_uptime(3_661), "1h 1m 1s");
    assert_eq!(fmt_uptime(u64::MAX), "5124095576030431h 0m 15s");
}

#[test]
fn ramp_gets_darker() {
    assert_eq!(ascii_ramp_char(-1), '.');
    assert_eq!(ascii_ramp_char(0), ' ');
    assert_eq!(ascii_ramp_char(24), '%');
    assert_eq!(ascii_ramp_char(25), '@');
    assert_eq!(ascii_ramp_char(1000), '@');
    let ramp = b" .-:=+*#%@";
    for score in 0..=25i32 {
        assert_eq!(ascii_ramp_char(score), ramp[score as usize * 9 / 25] as char);
    }
}

#[test]
fn tones_follow_scores_and_loads() {
    assert_eq!(badge_color(-1), Tone::Dim);
    assert_eq!(badge_color(0), Tone::Wrong);
    assert_eq!(badge_color(11), Tone::Wrong);
    assert_eq!(badge_color(12), Tone::Accent);
    assert_eq!(badge_color(19), Tone::Accent);
    assert_eq!(badge_color(20), Tone::Correct);
    let mut loads = floats();
    loads.extend([59.999999, 60.0, 89.99999999999999, 90.0, 100.0]);
    for x in loads {
        let expected = if x >= 90.0 {
            Tone::Wrong
        } else if x >= 60.0 {
            Tone::Accent
        } else {
            Tone::Correct
        };
        assert_eq!(load_color(float(x)), expected);
        assert_eq!(percent_color(x as i32), {
            let u = (x as i32) as f64;
            if u >= 90.0 {
                Tone::Wrong
            } else if u >= 60.0 {
                Tone::Accent
            } else {
                Tone::Correct
            }
        });
    }
    assert_eq!(Tone::Correct.rgb(), Some((56, 224, 196)));
    assert_eq!(Tone::Wrong.rgb(), Some((255, 92, 141)));
    assert_eq!(Tone::Accent.rgb(), Some((255, 184, 76)));
    assert_eq!(Tone::Dim.rgb(), Some((96, 100, 112)));
    assert_eq!(Tone::Ink.rgb(), Some((18, 19, 24)));
    assert_eq!(Tone::White.rgb(), None);
}
