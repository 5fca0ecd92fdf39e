use encdec::render::{render_digits, render_numeral, Radix};
use encdec::unicode::{print_unicode, print_unicode_b};
use encdec::utf16::{print_utf16, print_utf16_b};

fn dashes(n: usize) -> String {
    "-".repeat(n)
}

#[test]
fn unicode_report_hex_and_decimal() {
    let expected = format!(
        "\n--------------- UNICODE code points ---------------\nHex: [10001]\nDec: [65537]\n{}\n\n",
        dashes(51)
    );
    assert_eq!(print_unicode(&[0x10001]), expected);
}

#[test]
fn unicode_report_with_binary() {
    let expected = format!(
        "\n--------------- UNICODE code points ---------------\nHex: [10001, 41]\nBin: [\"00000000000000010000000000000001\", \"00000000000000000000000001000001\"]\nDec: [65537, 65]\n{}\n\n",
        dashes(51)
    );
    assert_eq!(print_unicode_b(&[0x10001, 0x41]), expected);
}

#[test]
fn unicode_report_of_nothing() {
    let expected = format!(
        "\n--------------- UNICODE code points ---------------\nHex: []\nDec: []\n{}\n\n",
        dashes(51)
    );
    assert_eq!(print_unicode(&[]), expected);
}

#[test]
fn utf16_report_quotes_text() {
    let expected = format!(
        "\n--------------- UTF-16 of \"\u{10000}\" ---------------\nHex: [d800, dc00]\nDec: [55296, 56320]\n{}\n\n",
        dashes(45)
    );
    assert_eq!(print_utf16(&[0xD800, 0xDC00]), Some(expected));
}

#[test]
fn utf16_report_with_binary() {
    let expected = format!(
        "\n--------------- UTF-16 of \"A\u{10000}\" ---------------\nHex: [41, d800, dc00]\nBin: [\"0000000001000001\", \"1101100000000000\", \"1101110000000000\"]\nDec: [65, 55296, 56320]\n{}\n\n",
        dashes(46)
    );
    assert_eq!(print_utf16_b(&[0x41, 0xD800, 0xDC00]), Some(expected));
}

#[test]
fn utf16_report_refuses_lone_surrogates() {
    assert_eq!(print_utf16(&[0xD800]), None);
    assert_eq!(print_utf16(&[0xDC00]), None);
    assert_eq!(print_utf16_b(&[0xD800, 0x41]), None);
}

#[test]
fn numerals() {
    let s = |v: Vec<char>| v.into_iter().collect::<String>();
    assert_eq!(s(render_digits(0, 10)), "0");
    assert_eq!(s(render_digits(255, 16)), "ff");
    assert_eq!(s(render_digits(4096, 10)), "4096");
    assert_eq!(s(render_digits(5, 2)), "101");
    assert_eq!(s(render_numeral(0xDBFF, Radix::Hex)), "dbff");
    assert_eq!(s(render_numeral(5, Radix::Binary { width: 8 })), "\"00000101\"");
    assert_eq!(s(render_numeral(0x1FF, Radix::Binary { width: 4 })), "\"111111111\"");
    assert_eq!(s(render_numeral(u32::MAX, Radix::Decimal)), "4294967295");
}
