use shipfe::text::{is_whitespace, join_with, push_decimal, push_signed_decimal, split_lines, trim};

#[test]
fn whitespace_agrees_with_std() {
    for v in 0u32..0x3100 {
        if let Some(c) = char::from_u32(v) {
            assert_eq!(is_whitespace(c), c.is_whitespace(), "char {:x}", v);
        }
    }
}

#[test]
fn trim_agrees_with_std() {
    let cases = [
        "",
        "   ",
        "abc",
        "  abc  ",
        "\t\n x y \r\n",
        "\u{3000}wide\u{2003}",
        "\u{85}next\u{a0}",
        "a \u{200b}",
    ];
    for c in cases {
        assert_eq!(trim(c), c.trim());
    }
}

#[test]
fn split_lines_agrees_with_std() {
    let cases = [
        "",
        "\n",
        "a",
        "a\n",
        "a\nb",
        "a\r\nb\r\n",
        "a\n\nb\n",
        "\r\n",
        "x\ry\n",
        "last\r",
    ];
    for c in cases {
        let expected: Vec<String> = c.lines().map(|s| s.to_string()).collect();
        assert_eq!(split_lines(c), expected, "input {:?}", c);
    }
}

#[test]
fn join_with_newline() {
    let parts = vec!["a".to_string(), "".to_string(), "c".to_string()];
    assert_eq!(join_with(&parts, '\n'), parts.join("\n"));
    assert_eq!(join_with(&Vec::new(), '\n'), "");
    assert_eq!(join_with(&vec!["only".to_string()], ','), "only");
}

#[test]
fn decimals() {
    for n in [0u64, 7, 10, 99, 1234567890, u64::MAX] {
        let mut s = "x".to_string();
        push_decimal(&mut s, n);
        assert_eq!(s, format!("x{}", n));
    }
    for n in [0i64, -1, 42, -9000, i64::MIN, i64::MAX] {
        let mut s = String::new();
        push_signed_decimal(&mut s, n);
        assert_eq!(s, n.to_string());
    }
}

