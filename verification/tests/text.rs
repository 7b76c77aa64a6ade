use serial_terminal::numeral::{decimal, magnitude, parse_u64, push_decimal, push_padded};
use serial_terminal::text::{
    char_is_whitespace, chars_of, decode_bytes, escape_line, final_token, owned, quoted,
    replace_char, split_fragments,
};

const SAMPLES: [&str; 24] = [
    "",
    " ",
    "a",
    "a\nb",
    "a\\nb",
    "\n",
    "\r\n",
    "OK\r",
    "a\n\nb\n",
    "\n\na",
    "PING 100",
    "PING 100 ",
    "  lead",
    "tab\tsep\t42",
    "\\",
    "\\r\\n",
    "x\ry\nz\r\n",
    "gr\u{fc}n 7",
    "nb\u{a0}sp",
    "wide\u{3000}space 12",
    "zero\u{200b}width 5",
    "+12",
    "12+",
    "18446744073709551615",
];

#[test]
fn escaping_writes_terminators_out() {
    assert_eq!("a\\nb", escape_line("a\nb"));
    assert_eq!("OK\\r\\n", escape_line("OK\r\n"));
    assert_eq!("", escape_line(""));
    assert_eq!("plain", escape_line("plain"));
    assert_eq!("\\\\", escape_line("\\\\"));
    for sample in SAMPLES {
        assert_eq!(sample.replace("\n", "\\n").replace("\r", "\\r"), escape_line(sample));
    }
}

#[test]
fn escaping_is_idempotent() {
    let once = escape_line("a\nb");
    assert_eq!("a\\nb", once);
    assert_eq!("a\\nb", escape_line(&once));
    for sample in SAMPLES {
        let once = escape_line(sample);
        assert!(!once.contains('\n'));
        assert!(!once.contains('\r'));
        assert_eq!(once, escape_line(&once));
    }
}

#[test]
fn replace_char_agrees_with_std() {
    for sample in SAMPLES {
        assert_eq!(sample.replace('\r', "\\r"), replace_char(sample, '\r', "\\r"));
        assert_eq!(sample.replace(' ', ""), replace_char(sample, ' ', ""));
        assert_eq!(sample.replace('a', "aa"), replace_char(sample, 'a', "aa"));
    }
}

#[test]
fn fragments_are_the_non_empty_pieces() {
    assert_eq!(vec!["a", "b"], split_fragments("a\nb", '\n'));
    assert_eq!(vec!["a", "b"], split_fragments("\na\n\n\nb\n", '\n'));
    assert_eq!(Vec::<String>::new(), split_fragments("", '\n'));
    assert_eq!(Vec::<String>::new(), split_fragments("\n\n", '\n'));
    assert_eq!(vec!["a b"], split_fragments("a b", '\n'));
    for sample in SAMPLES {
        for sep in ['\n', ' ', 'a'] {
            let expected: Vec<&str> = sample.split(sep).filter(|piece| !piece.is_empty()).collect();
            assert_eq!(expected, split_fragments(sample, sep));
        }
    }
}

#[test]
fn bytes_decode_one_for_one() {
    assert_eq!("OK\r", decode_bytes(b"OK\r"));
    assert_eq!("", decode_bytes(b""));
    let all: Vec<u8> = (0..=255).collect();
    let text = decode_bytes(&all);
    let expected: String = all.iter().map(|b| char::from(*b)).collect();
    assert_eq!(expected, text);
    assert_eq!(256, text.chars().count());
}

#[test]
fn white_space_is_what_unicode_says() {
    let mut code = 0u32;
    while code <= 0x10FFFF {
        if let Some(c) = char::from_u32(code) {
            assert_eq!(c.is_whitespace(), char_is_whitespace(c), "U+{:04X}", code);
        }
        code += 1;
    }
}

#[test]
fn final_token_agrees_with_split_whitespace() {
    assert_eq!("100", final_token("PING 100"));
    assert_eq!("100", final_token("PING 100 \t\n"));
    assert_eq!("PONG", final_token("PONG"));
    assert_eq!("", final_token(""));
    assert_eq!("", final_token(" \u{3000} "));
    for sample in SAMPLES {
        assert_eq!(sample.split_whitespace().last().unwrap_or(""), final_token(sample));
    }
}

#[test]
fn parse_agrees_with_std() {
    assert_eq!(Some(100), parse_u64("100"));
    assert_eq!(Some(0), parse_u64("0"));
    assert_eq!(Some(7), parse_u64("+007"));
    assert_eq!(Some(u64::MAX), parse_u64("18446744073709551615"));
    assert_eq!(Some(u64::MAX), parse_u64("+0018446744073709551615"));
    assert_eq!(None, parse_u64("18446744073709551616"));
    assert_eq!(None, parse_u64("18446744073709551620"));
    assert_eq!(None, parse_u64("28446744073709551615"));
    assert_eq!(None, parse_u64("184467440737095516150"));
    assert_eq!(None, parse_u64(""));
    assert_eq!(None, parse_u64("+"));
    assert_eq!(None, parse_u64("-"));
    assert_eq!(None, parse_u64("-0"));
    assert_eq!(None, parse_u64("1 "));
    assert_eq!(None, parse_u64(" 1"));
    assert_eq!(None, parse_u64("0x10"));
    assert_eq!(None, parse_u64("\u{0661}"));
    let extra = ["+", "-1", "+-1", "1+", "00", "+0", "9", "/", ":", "1/", "1:", "٣", "１２"];
    for sample in SAMPLES.iter().chain(extra.iter()) {
        assert_eq!(sample.parse::<u64>().ok(), parse_u64(sample), "{:?}", sample);
    }
    let mut n: u64 = 1;
    for _ in 0..64 {
        for value in [n - 1, n, n.wrapping_add(1)] {
            assert_eq!(Some(value), parse_u64(&value.to_string()));
        }
        n = n.wrapping_mul(2);
    }
}

#[test]
fn numerals_agree_with_std() {
    for value in [0u64, 1, 9, 10, 11, 99, 100, 101, 12345, u32::MAX as u64, u64::MAX - 1, u64::MAX] {
        assert_eq!(value.to_string(), decimal(value));
    }
    let mut out = String::from("n=");
    push_decimal(&mut out, u128::MAX);
    assert_eq!(format!("n={}", u128::MAX), out);
    push_decimal(&mut out, 0);
    assert_eq!(format!("n={}0", u128::MAX), out);
}

#[test]
fn padding_agrees_with_std() {
    let values: [i128; 16] = [
        0, 1, -1, 9, -9, 12, 999, -999, 1000, -1000, 9999, 10000, -12345,
        i64::MAX as i128, i64::MIN as i128, i128::MIN + 1,
    ];
    for value in values {
        let mut out = String::new();
        push_padded(&mut out, value, 4);
        assert_eq!(format!("{:04}", value), out);
        for width in [0usize, 1, 2, 7] {
            let mut out = String::from(">");
            push_padded(&mut out, value, width);
            assert_eq!(format!(">{:0width$}", value, width = width), out);
        }
    }
    let mut out = String::new();
    push_padded(&mut out, 12, 4);
    assert_eq!("0012", out);
    let mut out = String::new();
    push_padded(&mut out, -5, 4);
    assert_eq!("-005", out);
    let mut out = String::new();
    push_padded(&mut out, i128::MIN, 4);
    assert_eq!(format!("{:04}", i128::MIN), out);
    assert_eq!(5, magnitude(-5));
    assert_eq!(5, magnitude(5));
    assert_eq!(0, magnitude(0));
    assert_eq!(1u128 << 127, magnitude(i128::MIN));
}

#[test]
fn small_helpers_copy_and_quote() {
    assert_eq!("abc", owned("abc"));
    assert_eq!(vec!['a', '\u{fc}', '\n'], chars_of("a\u{fc}\n"));
    assert_eq!(Vec::<char>::new(), chars_of(""));
    assert_eq!("Rx: 'abc'", quoted("Rx: '", "abc"));
    assert_eq!("'", quoted("", ""));
}
