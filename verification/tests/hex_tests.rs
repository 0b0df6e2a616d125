use bestool::hex::{parse_hex_u32, is_whitespace};

fn reference(s: &str) -> Result<u32, String> {
    let clean_str = s.trim();
    let hex_str = clean_str
        .strip_prefix("0x")
        .or_else(|| clean_str.strip_prefix("0X"))
        .unwrap_or(clean_str);
    u32::from_str_radix(hex_str, 16).map_err(|e| format!("Invalid hex value '{}': {}", s, e))
}

#[test]
fn parses_the_documented_forms() {
    assert_eq!(parse_hex_u32("0x2C000000"), Ok(0x2C00_0000));
    assert_eq!(parse_hex_u32("0X2C000000"), Ok(0x2C00_0000));
    assert_eq!(parse_hex_u32("2C000000"), Ok(0x2C00_0000));
    assert_eq!(parse_hex_u32("0x400000"), Ok(0x40_0000));
    assert_eq!(parse_hex_u32("0x0"), Ok(0));
    assert_eq!(parse_hex_u32("  0x18000\n"), Ok(0x18000));
    assert_eq!(parse_hex_u32("ffffffff"), Ok(u32::MAX));
    assert_eq!(parse_hex_u32("+1f"), Ok(0x1F));
    assert_eq!(parse_hex_u32("\u{3000}0x10\u{2003}"), Ok(0x10));
}

#[test]
fn reports_each_error() {
    assert_eq!(parse_hex_u32(""), Err("Invalid hex value '': cannot parse integer from empty string".to_string()));
    assert_eq!(parse_hex_u32(" 0x "), Err("Invalid hex value ' 0x ': cannot parse integer from empty string".to_string()));
    assert_eq!(parse_hex_u32("0xZZ"), Err("Invalid hex value '0xZZ': invalid digit found in string".to_string()));
    assert_eq!(parse_hex_u32("-1"), Err("Invalid hex value '-1': invalid digit found in string".to_string()));
    assert_eq!(parse_hex_u32("+"), Err("Invalid hex value '+': invalid digit found in string".to_string()));
    assert_eq!(
        parse_hex_u32("0x100000000"),
        Err("Invalid hex value '0x100000000': number too large to fit in target type".to_string())
    );
    // overflow is found before a later bad character
    assert_eq!(
        parse_hex_u32("123456789g"),
        Err("Invalid hex value '123456789g': number too large to fit in target type".to_string())
    );
    // a bad character is found before a later overflow
    assert_eq!(
        parse_hex_u32("1g23456789"),
        Err("Invalid hex value '1g23456789': invalid digit found in string".to_string())
    );
}

#[test]
fn agrees_with_std() {
    let cases = [
        "", " ", "0", "0x", "0X", "0x0x1", "0X1f", "x1", "00000000001", "fFfFfFfF", "100000000",
        "+", "-", "+-1", "+0x1", "0x+1", "0x-1", " \t0x2c000000\r\n", "é", "1é", "٣", "12 34",
        "\u{a0}7\u{85}", "\u{200b}1", "0x0000000000000000ff", "fffffffff", "0xDEADBEEF",
    ];
    for s in cases {
        assert_eq!(parse_hex_u32(s), reference(s), "input {:?}", s);
    }
}

#[test]
fn whitespace_matches_std() {
    for v in 0u32..0x3100 {
        if let Some(c) = char::from_u32(v) {
            assert_eq!(is_whitespace(c), c.is_whitespace(), "char {:#x}", v);
        }
    }
}

#[test]
fn hex_rendering_parses_back() {
    let samples = [0u32, 1, 9, 10, 15, 16, 0xFF, 0x1000, 0x2C00_0000, 0x3C00_0000, 0xDEAD_BEEF, u32::MAX];
    for n in samples.iter().copied().chain((0..2000u32).map(|i| i.wrapping_mul(2_654_435_761))) {
        assert_eq!(parse_hex_u32(&format!("0x{:X}", n)), Ok(n));
        assert_eq!(parse_hex_u32(&format!("{:x}", n)), Ok(n));
        assert_eq!(parse_hex_u32(&format!("  0X{:08x} ", n)), Ok(n));
        assert_eq!(parse_hex_u32(&format!("\t{:012X}\n", n)), Ok(n));
    }
}
