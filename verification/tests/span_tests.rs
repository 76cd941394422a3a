use pidx::span::{parse_span, IntErrorKind, Span, SpanError};
use pidx::text::push_int;

#[test]
fn days_and_weeks() {
    assert_eq!(parse_span("7d"), Ok(Span::Days(7)));
    assert_eq!(parse_span("2w"), Ok(Span::Weeks(2)));
    assert_eq!(parse_span("  30d\n"), Ok(Span::Days(30)));
    assert_eq!(parse_span("+5d"), Ok(Span::Days(5)));
    assert_eq!(parse_span("-1d"), Ok(Span::Days(-1)));
    assert_eq!(parse_span("0w"), Ok(Span::Weeks(0)));
    assert_eq!(parse_span("007d"), Ok(Span::Days(7)));
}

#[test]
fn limits_of_i64() {
    assert_eq!(parse_span("9223372036854775807d"), Ok(Span::Days(i64::MAX)));
    assert_eq!(parse_span("-9223372036854775808w"), Ok(Span::Weeks(i64::MIN)));
    assert_eq!(
        parse_span("9223372036854775808d"),
        Err(SpanError::Number(IntErrorKind::PosOverflow))
    );
    assert_eq!(
        parse_span("-9223372036854775809d"),
        Err(SpanError::Number(IntErrorKind::NegOverflow))
    );
}

#[test]
fn bad_counts() {
    assert_eq!(parse_span("d"), Err(SpanError::Number(IntErrorKind::Empty)));
    assert_eq!(parse_span("xd"), Err(SpanError::Number(IntErrorKind::InvalidDigit)));
    assert_eq!(parse_span("-w"), Err(SpanError::Number(IntErrorKind::InvalidDigit)));
    assert_eq!(parse_span("7 d"), Err(SpanError::Number(IntErrorKind::InvalidDigit)));
    assert_eq!(parse_span("1.5w"), Err(SpanError::Number(IntErrorKind::InvalidDigit)));
    // Overflow is found before the later invalid character, as std does.
    assert_eq!(
        parse_span("99999999999999999999xd"),
        Err(SpanError::Number(IntErrorKind::PosOverflow))
    );
}

#[test]
fn agrees_with_std_parse() {
    for text in ["", "+", "-", "12", "-0", "+-1", "9223372036854775808", "٣", "1_000"] {
        let ours = parse_span(&format!("{text}d"));
        let std_result = text.parse::<i64>();
        match (ours, std_result) {
            (Ok(Span::Days(a)), Ok(b)) => assert_eq!(a, b),
            (Err(SpanError::Number(kind)), Err(e)) => {
                let expected = match e.kind() {
                    std::num::IntErrorKind::Empty => IntErrorKind::Empty,
                    std::num::IntErrorKind::InvalidDigit => IntErrorKind::InvalidDigit,
                    std::num::IntErrorKind::PosOverflow => IntErrorKind::PosOverflow,
                    std::num::IntErrorKind::NegOverflow => IntErrorKind::NegOverflow,
                    _ => panic!("unexpected kind"),
                };
                assert_eq!(kind, expected, "for {text:?}");
            }
            (a, b) => panic!("mismatch for {text:?}: {a:?} vs {b:?}"),
        }
    }
}

#[test]
fn bad_units() {
    assert_eq!(parse_span("7"), Err(SpanError::Format("7".to_string())));
    assert_eq!(parse_span("  7h "), Err(SpanError::Format("7h".to_string())));
    assert_eq!(parse_span(""), Err(SpanError::Format(String::new())));
    assert_eq!(parse_span("7D"), Err(SpanError::Format("7D".to_string())));
}

#[test]
fn written_counts_read_back() {
    for n in [0i64, 1, 7, 10, 99, 12345, -3, -100, i64::MAX, i64::MIN] {
        let mut text = String::new();
        push_int(&mut text, n);
        assert_eq!(text, n.to_string());
        text.push('d');
        assert_eq!(parse_span(&text), Ok(Span::Days(n)));
    }
}
