use course_scrape::clock::{day_letter_to_ordinal, days_of, fix_time};
use course_scrape::entity::decode;
use course_scrape::error::ScrapeError;

#[test]
fn fix_time_morning_is_padded() {
    assert_eq!(fix_time("9", "30", "am").unwrap(), "09:30");
}

#[test]
fn fix_time_noon_stays_twelve() {
    assert_eq!(fix_time("12", "00", "pm").unwrap(), "12:00");
}

#[test]
fn fix_time_afternoon_adds_twelve() {
    assert_eq!(fix_time("1", "15", "pm").unwrap(), "13:15");
}

#[test]
fn fix_time_rejects_hours_that_are_no_number() {
    match fix_time("x1", "15", "pm") {
        Err(ScrapeError::Format(h)) => assert_eq!(h, "x1"),
        other => panic!("unexpected: {:?}", other),
    }
    assert!(matches!(fix_time("", "15", "am"), Err(ScrapeError::Format(_))));
}

#[test]
fn day_letters_map_to_ordinals() {
    assert_eq!(day_letter_to_ordinal('M'), Some(1));
    assert_eq!(day_letter_to_ordinal('U'), Some(7));
    assert_eq!(day_letter_to_ordinal('x'), None);
    assert_eq!(days_of("MWF"), vec![1, 3, 5]);
    assert_eq!(days_of(" T?R "), vec![2, 4]);
}

#[test]
fn decode_replaces_both_entities() {
    assert_eq!(decode("A &amp; B&nbsp;C"), "A & B C");
    assert_eq!(decode("&amp;nbsp;"), " ");
    assert_eq!(decode("&amp;amp;"), "&amp;");
    assert_eq!(decode(decode("x &amp; y").as_str()), decode("x &amp; y"));
}
