use pidx::health::HealthLabel;
use pidx::text::{is_space_char, push_decimal, same_text, substring, text_less};

#[test]
fn whitespace_matches_std() {
    for u in (0u32..0x3100).chain([0xFEFF, 0x10FFFF, 0x205F, 0x3000]) {
        if let Some(c) = char::from_u32(u) {
            assert_eq!(is_space_char(c), c.is_whitespace(), "U+{u:04X}");
        }
    }
}

#[test]
fn string_order_matches_std() {
    let words = ["", "a", "ab", "b", "B", "é", "e", "2024-01-02", "2024-01-10", "2023-12-31", "日本", "ÿ"];
    for a in words {
        for b in words {
            assert_eq!(text_less(a, b), a < b, "{a:?} < {b:?}");
            assert_eq!(same_text(a, b), a == b);
        }
    }
}

#[test]
fn decimals_and_slices() {
    let mut s = String::from("n=");
    push_decimal(&mut s, 0);
    push_decimal(&mut s, 1234567890123);
    assert_eq!(s, "n=01234567890123");
    assert_eq!(substring("héllo", 1, 4), "éll");
}

#[test]
fn label_names() {
    let all = [
        (HealthLabel::Active, "Active"),
        (HealthLabel::Healthy, "Healthy"),
        (HealthLabel::Moderate, "Moderate"),
        (HealthLabel::Stale, "Stale"),
        (HealthLabel::Dormant, "Dormant"),
    ];
    for (l, name) in all {
        assert_eq!(l.as_str(), name);
    }
    for (i, (_, a)) in all.iter().enumerate() {
        for (j, (_, b)) in all.iter().enumerate() {
            assert_eq!(i == j, a == b);
        }
    }
}
