use sdr_bullet::frequency::parse_frequency;

/// Reads a frequency in floating point.
fn in_floating_point(text: &str) -> Option<u32> {
    let text = text.trim();
    let (number, scale) = match text.chars().last()? {
        'k' | 'K' => (&text[..text.len() - 1], 1_000.0),
        'M' | 'm' => (&text[..text.len() - 1], 1_000_000.0),
        'G' | 'g' => (&text[..text.len() - 1], 1_000_000_000.0),
        _ => (text, 1.0),
    };
    let value: f64 = number.parse().ok()?;
    Some((value * scale) as u32)
}

#[test]
fn frequency_parsing_accepts_the_usual_forms() {
    assert_eq!(parse_frequency("98500000"), Some(98_500_000));
    assert_eq!(parse_frequency("98.5M"), Some(98_500_000));
    assert_eq!(parse_frequency("7100k"), Some(7_100_000));
    assert_eq!(parse_frequency("1.2G"), Some(1_200_000_000));
    assert_eq!(parse_frequency("nonsense"), None);
}

#[test]
fn unusual_forms_read_as_doubles_do() {
    let texts = [
        "", " ", "k", "M", "+", "-", ".", "+.", "1.", ".5M", "+1.5k", "-3M", "-0", "1e3", "1E3k",
        "1e", "1e+", "1e-3G", "1e+2M", "e5", "1.2.3", "0x10", "1_000", "12 k", " 98.5M\t", "inf",
        "INF", "-inf", "Infinity", "-infinity", "nan", "-NaN", "infin", "nank", "infk", "1.001k",
        "0.001M", "4294967295", "4294967296", "4294967295.999999999", "4.294967295G",
        "4.294967296G", "1e400", "-1e400", "1e-400", "0e999999999999999999999", "1e99999999999",
        "1e-99999999999", "0.1k", "0.0001k", "0.00099999999999999999k", "0.0009999999999999999M",
        "99.999999999999999999M", "100.00000000000000000001M", "0.29M", "0.57M", "1.15M", "8.2M",
        "16.4M", "1.005k", "2.675M", "0.1", "0.9999999999999999", "0.99999999999999999",
        "999999999.99999999", "00098.5M", "000000000000000000000000000001.5k",
        "1.5000000000000000000000000000000000000000000000000000000000000000000000000001k",
        "123456789012345678901234567890e-20", "\u{a0}7k\u{2003}", "5\u{1680}", "7\u{663}",
        "9007199254740993e-6", "9007199254740992.5e-6", "0.000000001G", "1e-9G",
    ];
    for text in texts {
        assert_eq!(parse_frequency(text), in_floating_point(text), "reading {text:?}");
    }
}

#[test]
fn every_tenth_of_a_kilohertz_reads_as_doubles_do() {
    for n in 0..20_000u32 {
        let text = format!("{}.{:04}M", n / 10_000 + 87, n % 10_000);
        assert_eq!(parse_frequency(&text), in_floating_point(&text), "reading {text}");
        let text = format!("{}.{:03}k", n % 977, n % 1000);
        assert_eq!(parse_frequency(&text), in_floating_point(&text), "reading {text}");
        let text = format!("{}.{:05}", n * 211_111 % 4_000_000, n);
        assert_eq!(parse_frequency(&text), in_floating_point(&text), "reading {text}");
    }
}

#[test]
fn long_decimals_read_as_doubles_do() {
    let mut state = 0x2545_F491u32;
    for _ in 0..4_000 {
        let mut text = String::new();
        for k in 0..24 {
            state ^= state << 13;
            state ^= state >> 17;
            state ^= state << 5;
            if k == 3 {
                text.push('.');
            }
            text.push((b'0' + (state % 10) as u8) as char);
        }
        for suffix in ["", "k", "M", "G", "e-2M", "e3", "e-7G"] {
            let whole = format!("{text}{suffix}");
            assert_eq!(parse_frequency(&whole), in_floating_point(&whole), "reading {whole}");
        }
    }
}

#[test]
fn plain_hertz_come_back() {
    for hertz in [0u32, 1, 9, 10, 99, 100, 28_800_000, 4_294_967_294, u32::MAX] {
        assert_eq!(parse_frequency(&hertz.to_string()), Some(hertz));
    }
}
