use bkg_beam::text::{decimal_string, parse_u16, trim_str};

#[test]
fn parse_u16_agrees_with_std() {
    let inputs = [
        "", "+", "-", "-1", "0", "7", "00012", "+22", "++22", "65535", "65536", "99999", " 1", "1 ",
        "1_000", "12a", "\u{0661}\u{0662}", "4294967296", "000000000000065535",
    ];
    for s in inputs {
        assert_eq!(parse_u16(s), s.parse::<u16>().ok(), "input {:?}", s);
    }
}

#[test]
fn parse_u16_values() {
    assert_eq!(parse_u16("22"), Some(22));
    assert_eq!(parse_u16("+8080"), Some(8080));
    assert_eq!(parse_u16("65535"), Some(65535));
    assert_eq!(parse_u16("65536"), None);
    assert_eq!(parse_u16(""), None);
}

#[test]
fn trim_agrees_with_std() {
    let inputs = [
        "", "   ", "OK\n", " OK \r\n", "\tCONNECT\n", "\u{3000}x\u{85}", "\u{200b}x\u{200b}",
        "\u{a0}\u{1680}a b\u{2028}\u{2029}\u{202f}\u{205f}", "\u{2000}\u{200a}y\u{200a}",
        "\u{180e}z", "inner  space",
    ];
    for s in inputs {
        assert_eq!(trim_str(s), s.trim(), "input {:?}", s);
    }
}

#[test]
fn decimal_agrees_with_to_string() {
    for n in [0u16, 1, 9, 10, 22, 99, 100, 8080, 65535] {
        assert_eq!(decimal_string(n), n.to_string());
    }
}
