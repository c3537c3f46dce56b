use sam::float::{
    from_signed, from_unsigned, is_less, truncate, FloatNumbers, FloatTexts, FloatValue, HIGHEST,
    LOWEST,
};
use sam::text::{
    contains, decimal_text, eq_ignore_ascii_case, is_at_most, is_c_text, parse_i32, parse_u32,
    push_padded, signed_text, starts_with, trim,
};

/// Patterns from all over the range.
fn patterns() -> Vec<u32> {
    let mut list = vec![
        0,
        1,
        0x8000_0000,
        0x8000_0001,
        0x007f_ffff,
        0x0080_0000,
        0x3f80_0000,
        0x4f00_0000,
        0xcf00_0000,
        0x4eff_ffff,
        0x7f7f_ffff,
        0xff7f_ffff,
        0x7f80_0000,
        0xff80_0000,
        0x7fc0_0000,
        0xffc0_0001,
    ];
    let mut x: u32 = 12345;
    for _ in 0..200 {
        x = x.wrapping_mul(1_664_525).wrapping_add(1_013_904_223);
        list.push(x);
    }
    list
}

#[test]
fn real_numbers_are_cut_down_like_the_machine_does() {
    for bits in patterns() {
        assert_eq!(truncate(bits), f32::from_bits(bits) as i32, "{bits:#x}");
    }
    assert_eq!(truncate(2.75f32.to_bits()), 2);
    assert_eq!(truncate((-2.75f32).to_bits()), -2);
}

#[test]
fn real_numbers_are_ordered_like_the_machine_does() {
    for a in patterns() {
        for b in patterns() {
            assert_eq!(
                is_less(a, b),
                f32::from_bits(a) < f32::from_bits(b),
                "{a:#x} {b:#x}"
            );
        }
    }
}

#[test]
fn integers_become_the_nearest_real_numbers() {
    for n in patterns() {
        assert_eq!(from_unsigned(n), (n as f32).to_bits(), "{n}");
        assert_eq!(from_signed(n as i32), (n as i32 as f32).to_bits(), "{n}");
    }
    for n in [0u32, 1, 0xff_ffff, 0x100_0000, 0x100_0001, 0x100_0003, u32::MAX] {
        assert_eq!(from_unsigned(n), (n as f32).to_bits(), "{n}");
    }
    assert_eq!(HIGHEST, f32::MAX.to_bits());
    assert_eq!(LOWEST, f32::MIN.to_bits());
}

#[test]
fn texts_of_real_numbers_are_looked_up() {
    let mut texts = FloatTexts::new();
    texts.insert(5, "five".into());
    texts.insert(5, "cinq".into());
    assert_eq!(texts.text(5), "cinq");
    assert_eq!(texts.text(6), "");
    let mut numbers = FloatNumbers::new();
    numbers.insert("1.5".into(), 7);
    assert_eq!(numbers.number("1.5"), Some(7));
    assert_eq!(numbers.number("x"), None);
    let value = FloatValue::Text { text: "1.5".into(), fallback: 9 };
    assert_eq!(value.resolve(numbers.number("1.5")), 7);
    assert_eq!(value.resolve(None), 9);
    assert_eq!(FloatValue::Bits(3).resolve(Some(8)), 3);
    assert_eq!(value.clone(), value);
}

#[test]
fn numbers_are_read_like_the_standard_library_does() {
    for s in [
        "", "+", "-", "0", "-0", "+0", "007", "2147483647", "2147483648", "-2147483648",
        "-2147483649", "4294967295", "4294967296", " 1", "1 ", "1x", "--1", "+-1", "99999999999999999999",
        "١",
    ] {
        assert_eq!(parse_i32(s), s.parse::<i32>().ok(), "{s}");
        assert_eq!(parse_u32(s), s.parse::<u32>().ok(), "{s}");
    }
}

#[test]
fn numbers_are_written_like_the_standard_library_does() {
    for n in [0u64, 9, 10, 99, 100, 4294967296, u64::MAX] {
        assert_eq!(decimal_text(n), n.to_string());
    }
    for i in [0i32, -1, i32::MIN, i32::MAX] {
        assert_eq!(signed_text(i), i.to_string());
        assert_eq!(parse_i32(&signed_text(i)), Some(i));
    }
    let mut s = String::from("x");
    push_padded(&mut s, 7, 3);
    push_padded(&mut s, 12345, 3);
    assert_eq!(s, "x00712345");
}

#[test]
fn texts_are_trimmed_and_searched_like_the_standard_library_does() {
    for s in ["", " ", "\t a b \n", "\u{a0}x\u{3000}", "\u{200b}x", "\u{85}x\u{2029}", "x\u{1680}", "\u{feff}x"] {
        assert_eq!(trim(s), s.trim());
    }
    for (a, b) in [("abc", "bc"), ("abc", ""), ("", "a"), ("", ""), ("aab", "ab"), ("é", "é"), ("ab", "abc")] {
        assert_eq!(contains(a, b), a.contains(b));
        assert_eq!(starts_with(a, b), a.starts_with(b));
        assert_eq!(is_at_most(a, b), a <= b);
        assert_eq!(is_at_most(b, a), b <= a);
    }
    assert!(eq_ignore_ascii_case("StaTs", "sTAts"));
    assert!(!eq_ignore_ascii_case("É", "é"));
    assert!(is_c_text("abc"));
    assert!(!is_c_text("a\0c"));
}
