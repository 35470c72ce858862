use x0x_compute::text::{count_words, push_zero_padded, str_eq, str_lt, trim};

#[test]
fn trim_strips_unicode_whitespace() {
    assert_eq!(trim("  hi there \n"), "hi there");
    assert_eq!(trim("\u{3000}x\u{a0}"), "x");
    assert_eq!(trim("   "), "");
    assert_eq!(trim(""), "");
}

#[test]
fn word_counts_follow_split_whitespace() {
    for text in ["", "a", " a b ", "a\u{2003}b", "x  y\tz"] {
        assert_eq!(count_words(text), text.split_whitespace().count());
    }
}

#[test]
fn ordering_matches_string_order() {
    let words = ["", "a", "ab", "b", "resv-000010", "resv-000002", "é", "z"];
    for a in words {
        for b in words {
            assert_eq!(str_lt(a, b), a < b, "{a} < {b}");
            assert_eq!(str_eq(a, b), a == b);
        }
    }
}

#[test]
fn zero_padding_matches_format() {
    for (n, width) in [(0u64, 6usize), (7, 6), (123456, 6), (1234567, 6), (u64::MAX, 6), (5, 0)] {
        let mut out = String::from("p-");
        push_zero_padded(&mut out, n, width);
        assert_eq!(out, format!("p-{:0width$}", n, width = width));
    }
}
