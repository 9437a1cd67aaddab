use mjae::text::{chars_of, occurs, parse_u64, push_decimal, text_comes_by, trim};

#[test]
fn trimming_takes_unicode_white_space() {
    let texts = ["", " ", "\t a b \n", "\u{a0}x\u{2003}", "\u{3000}", "\u{85}y", "\u{200b}z"];
    for text in texts {
        assert_eq!(trim(text), text.trim());
    }
    for code in 0..0x3100_u32 {
        if let Some(c) = char::from_u32(code) {
            let text = format!("{c}a{c}");
            assert_eq!(trim(&text), text.trim());
        }
    }
}

#[test]
fn numbers_read_as_std_reads_them() {
    let texts = [
        "0",
        "007",
        "+12",
        "",
        "+",
        "-0",
        "1_0",
        "18446744073709551615",
        "18446744073709551616",
        "99999999999999999999999",
        "１",
    ];
    for text in texts {
        assert_eq!(parse_u64(text), text.parse::<u64>().ok());
    }
}

#[test]
fn numbers_are_written_in_decimal() {
    for n in [0_u32, 7, 10, 4_242, u32::MAX] {
        let mut out = "n=".to_owned();
        push_decimal(&mut out, n);
        assert_eq!(out, format!("n={n}"));
    }
}

#[test]
fn texts_compare_as_strings_do() {
    let texts = ["", "a", "ab", "b", "B", "é", "\u{ffff}", "\u{10000}"];
    for a in texts {
        for b in texts {
            assert_eq!(text_comes_by(a, b), a <= b);
        }
    }
}

#[test]
fn parts_are_found_anywhere() {
    let whole = chars_of("die gpu rail");
    assert!(occurs(&whole, &chars_of("gpu")));
    assert!(occurs(&whole, &chars_of("rail")));
    assert!(occurs(&whole, &chars_of("")));
    assert!(!occurs(&whole, &chars_of("ane")));
    assert!(!occurs(&chars_of(""), &chars_of("a")));
}
