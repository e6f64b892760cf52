use course_scrape::details::{
    compare_decimals, credits_from_captures, get_course_catalog, parse_credit_range, parse_decimal,
};
use course_scrape::dom::detail_body;
use course_scrape::error::ScrapeError;
use course_scrape::text::is_white_space;

fn number(text: &str) -> f32 {
    text.parse::<f32>().unwrap()
}

#[test]
fn credit_value_keeps_all_its_digits() {
    let c = parse_credit_range("12.000 Credit hours").unwrap();
    assert_eq!((c.low.to_text(), c.high.to_text()), ("12.000".to_string(), "12.000".to_string()));
    assert_eq!((number(&c.low.to_text()), number(&c.high.to_text())), (12.0, 12.0));
    let c = parse_credit_range("12.000 TO 14.000 Credit hours").unwrap();
    assert_eq!((number(&c.low.to_text()), number(&c.high.to_text())), (12.0, 14.0));
    let c = parse_credit_range("Lab: 1.5 hours, then 103.25   TO   1200.5 Credit hours, more").unwrap();
    assert_eq!((c.low.to_text(), c.high.to_text()), ("103.25".to_string(), "1200.5".to_string()));
}

#[test]
fn course_catalog_with_two_digit_credits() {
    let page = "<table summary='This table lists the course detail for the selected term.'>\
                <tr><td class='ntdefault'>Desc<br>12.000 Credit hours</td></tr></table>";
    let body = detail_body(page).unwrap();
    let (description, credits) = get_course_catalog(body.as_deref()).unwrap();
    assert_eq!(description, "Desc");
    assert_eq!((number(&credits.low.to_text()), number(&credits.high.to_text())), (12.0, 12.0));
}

#[test]
fn reversed_credit_range_is_a_parse_failure() {
    match parse_credit_range("4.000 TO 3.000 Credit hours") {
        Err(ScrapeError::Parse(what)) => assert_eq!(what, "credits: order"),
        other => panic!("unexpected: {:?}", other),
    }
    let groups = |a: &str, b: &str| {
        Some(vec![Some("all".to_string()), Some(a.to_string()), Some(b.to_string())])
    };
    assert!(credits_from_captures(&groups("4.000", "3.000"), &None).is_err());
    assert!(credits_from_captures(&groups("10.0", "9.99"), &None).is_err());
    assert!(credits_from_captures(&groups("3.000", "3.0"), &None).is_ok());
    assert!(credits_from_captures(&groups("9.99", "10.0"), &None).is_ok());
    assert!(credits_from_captures(&groups("03.5", "3.50"), &None).is_ok());
}

#[test]
fn decimals_are_ordered_as_numbers() {
    let d = |s: &str| parse_decimal(s).unwrap();
    let cases = [
        ("3.0", "4.0", -1),
        ("4.0", "3.0", 1),
        ("3.0", "3.000", 0),
        ("3.5", "3.45", 1),
        ("3.05", "3.5", -1),
        ("12.0", "9.9", 1),
        ("9.9", "12.0", -1),
        ("012.0", "12.00", 0),
        ("0.1", "0.09", 1),
        ("100.0", "99.999", 1),
    ];
    for (a, b, expected) in cases {
        assert_eq!(compare_decimals(&d(a), &d(b)), expected, "{} against {}", a, b);
        let by_float = number(a).partial_cmp(&number(b)).unwrap() as i8;
        assert_eq!(by_float, expected);
    }
}

#[test]
fn white_space_is_what_the_standard_library_calls_so() {
    let mut count = 0;
    for code in 0u32..=0x10ffff {
        if let Some(c) = char::from_u32(code) {
            assert_eq!(is_white_space(c), c.is_whitespace(), "U+{:04X}", code);
            if is_white_space(c) {
                count += 1;
            }
        }
    }
    assert_eq!(count, 25);
}
