use agent::text::{
    contains_text, ends_with, not_after, push_decimal, push_hex, push_seconds, same_text, trim,
    EXACT_SECONDS_LIMIT_MS,
};

fn seconds(ms: u64) -> String {
    let mut out = String::new();
    push_seconds(&mut out, ms);
    out
}

#[test]
fn numbers_are_written_in_decimal_and_hexadecimal() {
    for n in [0, 1, 9, 10, 99, 100, 12345, u64::MAX] {
        let mut out = String::from("n=");
        push_decimal(&mut out, n);
        assert_eq!(out, format!("n={n}"));
        let mut out = String::new();
        push_hex(&mut out, n, 16);
        assert_eq!(out, format!("{n:016x}"));
    }
    let mut out = String::new();
    push_hex(&mut out, 0xabc, 2);
    assert_eq!(out, "bc");
}

#[test]
fn seconds_are_the_quotient_of_double_precision() {
    assert_eq!(seconds(0), "0");
    assert_eq!(seconds(1), "0.001");
    assert_eq!(seconds(1500), "1.5");
    assert_eq!(seconds(2000), "2");
    assert_eq!(seconds(12340), "12.34");
    let mut ms: u64 = 1;
    for i in 0..20_000u64 {
        assert_eq!(seconds(i), format!("{}", i as f64 / 1000.0));
        ms = ms.wrapping_mul(6364136223846793005).wrapping_add(1442695040888963407);
        let sample = ms % EXACT_SECONDS_LIMIT_MS;
        assert_eq!(seconds(sample), format!("{}", sample as f64 / 1000.0));
    }
    let last = EXACT_SECONDS_LIMIT_MS - 1;
    assert_eq!(seconds(last), format!("{}", last as f64 / 1000.0));
}

#[test]
fn every_character_is_trimmed_as_white_space_or_kept() {
    for c in '\0'..=char::MAX {
        let text = c.to_string();
        assert_eq!(trim(&text), text.trim());
    }
    assert_eq!(trim("  a b\n"), "a b");
    assert_eq!(trim(" \t\n"), "");
    assert_eq!(trim(""), "");
}

#[test]
fn strings_compare_by_their_characters() {
    let texts = ["", "a", "ab", "b", "aé", "a\u{10ffff}", "é", "a.json", ".json", "10", "9"];
    for a in texts {
        for b in texts {
            assert_eq!(not_after(a, b), a <= b);
            assert_eq!(same_text(a, b), a == b);
            assert_eq!(ends_with(a, b), a.ends_with(b));
            assert_eq!(contains_text(a, b), a.contains(b));
        }
    }
    assert!(contains_text("src/main.rs", "main"));
    assert!(!contains_text("src/main.rs", "mainn"));
}
