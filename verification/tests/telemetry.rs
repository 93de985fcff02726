use bogoforge::decimal::{parse_i32, parse_u64, parse_whole_part};
use bogoforge::text::{contains_phrase, lines_of, split_chars, string_of, to_lower, trim_chars};
use bogoforge::tui::sampler::{GpuTool, Sampler, SamplerCall, SamplerEvent, SamplerStage};
use bogoforge::tui::smi::{
    nvidia_args, parse_nvidia, parse_rocm, rocm_args, sample_nvidia_smi, sample_rocm_smi, GpuSample,
};

type Tuple = (String, i32, u64, u64, i32);

fn tuple(s: Option<GpuSample>) -> Option<Tuple> {
    s.map(|s| (s.name, s.util, s.used_mb, s.total_mb, s.temp))
}

fn chars(s: &str) -> Vec<char> {
    s.chars().collect()
}

#[test]
fn nvidia_lines_are_read() {
    assert_eq!(
        tuple(parse_nvidia("NVIDIA GeForce RTX 4090, 97, 1024, 24564, 61\n")),
        Some(("NVIDIA GeForce RTX 4090".to_string(), 97, 1024, 24564, 61))
    );
    // More fields and more lines are left alone, and blanks are cut off.
    assert_eq!(
        tuple(parse_nvidia("  A B\t,+5 , 0,18446744073709551615,\u{3000}-7\u{a0},x\r\nC,1,1,1,1")),
        Some(("A B".to_string(), 5, 0, u64::MAX, -7))
    );
    assert_eq!(tuple(parse_nvidia(",0,0,0,0")), Some((String::new(), 0, 0, 0, 0)));
    for bad in [
        "",
        "\n",
        "name",
        "name, 1, 2, 3",
        "name, x, 2, 3, 4",
        "name, 1, -2, 3, 4",
        "name, 1, 2, [N/A], 4",
        "name, 1, 2, 3, 4.5",
        "name, 2147483648, 2, 3, 4",
        "name, 1, 18446744073709551616, 3, 4",
        "\nname, 1, 2, 3, 4",
    ] {
        assert!(parse_nvidia(bad).is_none(), "{bad:?}");
    }
}

const TABLE: &str = "device,Card Series,GPU use (%),VRAM Total Memory (B),VRAM Total Used Memory (B),Temperature (Sensor edge) (C)\n\
card0,\"Radeon RX 9070 XT\",12%,17163091968,1073741824,45.0\n";

#[test]
fn rocm_tables_are_read() {
    assert_eq!(
        tuple(parse_rocm(TABLE)),
        Some(("Radeon RX 9070 XT".to_string(), 12, 1024, 16368, 45))
    );
    // Columns may come in any order and in any case; the last one of a kind counts.
    assert_eq!(
        tuple(parse_rocm(
            "TEMP EDGE,Used Memory,total memory,Product Name,use (%),USE (%)\r\n\
             48.9C,2097151 B,3 x 1048576,  \"a\"\"b\" ,1,99%\r\n"
        )),
        Some(("ab".to_string(), 99, 1, 29, 48))
    );
    let headers = ["Card Series", "use (%)", "used memory", "total memory", "temp edge", "device"];
    let cells = ["A", "7", "2097152", "4194304", "55.5", "card0"];
    for first in 0..6 {
        for stride in [1, 5] {
            let order: Vec<usize> = (0..6).map(|k| (first + k * stride) % 6).collect();
            let head: Vec<&str> = order.iter().map(|&i| headers[i]).collect();
            let row: Vec<&str> = order.iter().map(|&i| cells[i]).collect();
            let table = format!("{}\n{}\n", head.join(","), row.join(","));
            assert_eq!(tuple(parse_rocm(&table)), Some(("A".to_string(), 7, 2, 4, 55)), "{table}");
        }
    }
    for bad in [
        "",
        "device,Card Series\n",
        "Card Series,use (%),used memory,total memory\nA,1,2,3\n",
        "Card Series,use (%),used memory,total memory,temp edge\nA,1,2,3\n",
        "Card Series,use (%),used memory,total memory,temp edge\nA,none,2,3,4\n",
        "Card Series,use (%),used memory,total memory,temp edge\nA,1,2,3,.\n",
        "Card Series,use (%),used memory,total memory,temp edge\nA,1,2,3,1.2.3\n",
        "Card Series,use (%),used memory,total memory,temp\nA,1,2,3,4\n",
    ] {
        assert!(parse_rocm(bad).is_none(), "{bad:?}");
    }
}

#[test]
fn bytes_are_decoded_first() {
    let out = b"GeForce \xff GT, 1, 2, 3, 4\n".to_vec();
    assert_eq!(
        tuple(sample_nvidia_smi(true, &out)),
        Some(("GeForce \u{fffd} GT".to_string(), 1, 2, 3, 4))
    );
    assert_eq!(tuple(sample_nvidia_smi(false, &out)), None);
    let out = "Gerät, 1, 2, 3, 4".as_bytes().to_vec();
    assert_eq!(tuple(sample_nvidia_smi(true, &out)), Some(("Gerät".to_string(), 1, 2, 3, 4)));
    let out = TABLE.as_bytes().to_vec();
    assert_eq!(
        tuple(sample_rocm_smi(true, &out)),
        Some(("Radeon RX 9070 XT".to_string(), 12, 1024, 16368, 45))
    );
    assert_eq!(tuple(sample_rocm_smi(false, &out)), None);
    assert_eq!(tuple(sample_rocm_smi(true, &vec![])), None);
    assert_eq!(tuple(sample_nvidia_smi(true, &vec![])), None);
}

#[test]
fn tools_get_their_arguments() {
    assert_eq!(
        nvidia_args(),
        [
            "--query-gpu=name,utilization.gpu,memory.used,memory.total,temperature.gpu",
            "--format=csv,noheader,nounits"
        ]
    );
    assert_eq!(
        rocm_args(),
        ["--showproductname", "--showuse", "--showmeminfo", "vram", "--showtemp", "--csv"]
    );
}

#[test]
fn whole_numbers_are_read() {
    for s in [
        "", "0", "7", "+7", "-7", "+", "-", "+-1", "--1", "007", "2147483647", "2147483648",
        "-2147483648", "-2147483649", "18446744073709551615", "18446744073709551616",
        "99999999999999999999999999999999999999999999", "1 ", " 1", "1a", "a1", "-0", "٣",
        "00000000000000000000000000000000000000000000000001",
    ] {
        assert_eq!(parse_i32(&chars(s)), s.parse::<i32>().ok(), "{s:?}");
        assert_eq!(parse_u64(&chars(s)), s.parse::<u64>().ok(), "{s:?}");
    }
}

/// What is almost a whole number reads as it, exactly where a double does.
#[test]
fn decimals_are_cut_like_doubles() {
    let mut all: Vec<String> = vec![];
    for i in ["", "0", "1", "2", "3", "44", "45", "127", "128", "1023", "65535", "2147483646", "2147483647", "2147483648", "99999999999", "0000000000000000045"] {
        all.push(i.to_string());
        for f in ["", "0", "5", "9", "49", "999", "4999999999999999"] {
            all.push(format!("{i}.{f}"));
        }
        for n in 1..40 {
            let nines = "9".repeat(n);
            all.push(format!("{i}.{nines}"));
            for d in ["0", "1", "3", "4", "44", "45", "5", "6", "8"] {
                all.push(format!("{i}.{nines}{d}"));
            }
        }
    }
    // The middle between 1 and the double below it, and its neighbours.
    for f in [
        "999999999999999944488848768742172978818416595458984375",
        "999999999999999944488848768742172978818416595458984374",
        "999999999999999944488848768742172978818416595458984376",
        "9999999999999999444888487687421729788184165954589843749999",
        "88897769753748434595763683319091796875",
        "999999999999999888977697537484345957636833190917968750",
        "999999999999999888977697537484345957636833190917968749999",
    ] {
        for i in ["0", "1", "2", "7"] {
            all.push(format!("{i}.{f}"));
        }
    }
    for bad in ["", ".", "..", "1.2.3", ".1.", "1..2"] {
        all.push(bad.to_string());
    }
    for s in all {
        let expected = s.parse::<f64>().ok().map(|t| t as i32);
        assert_eq!(parse_whole_part(&chars(&s)), expected, "{s}");
    }
}

#[test]
fn texts_are_split_like_strings() {
    for s in ["", ",", "a", "a,b", ",a,,b,", "\n", "a\nb", "a\r\nb\r", "\r\n\r\n", "a\n\nb\n", "x\r\r\n", "ä,ö\nü"] {
        let parts: Vec<String> = split_chars(&chars(s), ',').iter().map(string_of).collect();
        assert_eq!(parts, s.split(',').collect::<Vec<_>>());
        let lines: Vec<String> = lines_of(&chars(s)).iter().map(string_of).collect();
        assert_eq!(lines, s.lines().collect::<Vec<_>>(), "{s:?}");
        assert_eq!(parts.join(","), s);
    }
}

#[test]
fn blanks_are_those_of_unicode() {
    for c in '\0'..=char::MAX {
        let s = format!("{c}x{c}");
        assert_eq!(string_of(&trim_chars(&chars(&s))), s.trim());
    }
    assert_eq!(string_of(&trim_chars(&chars(" \t\n "))), "");
    assert_eq!(string_of(&trim_chars(&chars("  a b  "))), "a b");
}

/// No character but the capital letters of ASCII becomes one that stands in a
/// header: with others, a phrase is found exactly where it stood before.
#[test]
fn phrases_are_found_in_any_case() {
    let phrases = ["card series", "product", "use (%)", "used memory", "total memory", "temp", "edge"];
    assert_eq!(string_of(&to_lower(&chars("GPU Use (%) Ä"))), "gpu use (%) Ä");
    for phrase in phrases {
        assert!(contains_phrase(&chars(phrase), phrase));
        assert!(contains_phrase(&chars(&format!("x{phrase}y")), phrase));
        assert!(!contains_phrase(&chars(&phrase[1..]), phrase));
        assert!(contains_phrase(&chars(phrase), ""));
        for (i, _) in phrase.char_indices() {
            for c in '\0'..='\u{2fff}' {
                let h = format!("{}{c}{}", &phrase[..i], &phrase[i + 1..]);
                assert_eq!(
                    contains_phrase(&to_lower(&chars(&h)), phrase),
                    h.to_lowercase().contains(phrase),
                    "{h:?}"
                );
            }
        }
    }
    assert!(!contains_phrase(&chars("aab"), "ab "));
    assert!(contains_phrase(&chars("aab"), "ab"));
}

fn sample() -> GpuSample {
    GpuSample { name: "gpu".to_string(), util: 1, used_mb: 2, total_mb: 3, temp: 4 }
}

fn slept(call: &SamplerCall) -> Option<u64> {
    match call {
        SamplerCall::Sleep(ms) => Some(*ms),
        _ => None,
    }
}

#[test]
fn samplers_use_the_first_tool_that_answers() {
    let (mut s, call) = Sampler::start();
    assert_eq!(slept(&call), Some(300));
    assert!(matches!(s.advance(SamplerEvent::Done), SamplerCall::Run(GpuTool::Nvidia)));
    assert!(matches!(s.advance(SamplerEvent::Sampled(None)), SamplerCall::Run(GpuTool::Rocm)));
    // The probe only finds the tool; its reading is not kept.
    assert!(matches!(s.advance(SamplerEvent::Sampled(Some(sample()))), SamplerCall::CheckCancel));
    assert_eq!(s.tool, Some(GpuTool::Rocm));
    assert!(matches!(s.advance(SamplerEvent::Cancelled(false)), SamplerCall::StoreHost));
    assert!(matches!(s.advance(SamplerEvent::Done), SamplerCall::Run(GpuTool::Rocm)));
    match s.advance(SamplerEvent::Sampled(Some(sample()))) {
        SamplerCall::StoreGpu(g) => assert_eq!((g.util, g.temp), (1, 4)),
        other => panic!("{other:?}"),
    }
    assert!(matches!(s.advance(SamplerEvent::Done), SamplerCall::CheckCancel));
    for _ in 0..10 {
        let call = s.advance(SamplerEvent::Cancelled(false));
        assert_eq!(slept(&call), Some(100));
        assert!(matches!(s.advance(SamplerEvent::Done), SamplerCall::CheckCancel));
    }
    assert_eq!(s.stage, SamplerStage::CheckRound);
    assert!(matches!(s.advance(SamplerEvent::Cancelled(false)), SamplerCall::StoreHost));
    // A tool that fails is given up.
    assert!(matches!(s.advance(SamplerEvent::Done), SamplerCall::Run(GpuTool::Rocm)));
    assert!(matches!(s.advance(SamplerEvent::Sampled(None)), SamplerCall::ClearGpu));
    assert_eq!(s.tool, None);
    assert!(matches!(s.advance(SamplerEvent::Done), SamplerCall::CheckCancel));
    assert_eq!(s.stage, SamplerStage::CheckSlice(10));
    assert!(matches!(s.advance(SamplerEvent::Cancelled(true)), SamplerCall::Finish));
}

#[test]
fn samplers_without_a_tool_read_the_host() {
    let (mut s, _) = Sampler::start();
    s.advance(SamplerEvent::Done);
    s.advance(SamplerEvent::Sampled(None));
    assert!(matches!(s.advance(SamplerEvent::Sampled(None)), SamplerCall::ClearGpu));
    assert!(matches!(s.advance(SamplerEvent::Done), SamplerCall::CheckCancel));
    assert!(matches!(s.advance(SamplerEvent::Cancelled(false)), SamplerCall::StoreHost));
    assert!(matches!(s.advance(SamplerEvent::Done), SamplerCall::CheckCancel));
    assert_eq!(s.stage, SamplerStage::CheckSlice(10));
    let (mut s, _) = Sampler::start();
    s.advance(SamplerEvent::Done);
    assert!(matches!(s.advance(SamplerEvent::Sampled(Some(sample()))), SamplerCall::CheckCancel));
    assert_eq!(s.tool, Some(GpuTool::Nvidia));
    assert!(matches!(s.advance(SamplerEvent::Cancelled(true)), SamplerCall::Finish));
}
