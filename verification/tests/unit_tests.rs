use course_scrape::catalog::{add_course, add_section, locate, lookup_cached};
use course_scrape::clock::{day_letter_to_ordinal, days_of, fix_time};
use course_scrape::details::{credits_from_captures, details_from_pieces, parse_credit_range};
use course_scrape::dom::pair_rows;
use course_scrape::entity::decode;
use course_scrape::error::ScrapeError;
use course_scrape::numeral::{digit_value, parse_usize, push_decimal};
use course_scrape::rows::{
    add_member, add_targets, header_from_captures, meeting_of_row, targets_of_row,
    time_from_captures, Cell, Header,
};
use course_scrape::structs::{find_key, get, put, Catalog, Section};
use course_scrape::text::{chars_of, same_chars, same_text, trim};
use course_scrape::titles::{subject_from_captures, Titles};

fn chars(s: &str) -> Vec<char> {
    s.chars().collect()
}

fn groups(parts: &[Option<&str>]) -> Option<Vec<Option<String>>> {
    Some(parts.iter().map(|p| p.map(|s| s.to_string())).collect())
}

#[test]
fn chars_and_equality() {
    assert_eq!(chars_of("a\u{e9}z"), vec!['a', '\u{e9}', 'z']);
    assert!(same_text("abc", "abc"));
    assert!(!same_text("abc", "abd"));
    assert!(!same_text("abc", "ab"));
    assert!(same_chars(&chars(""), &chars("")));
}

#[test]
fn trim_removes_white_space_at_both_ends_only() {
    assert_eq!(trim("  \n a b \t"), "a b");
    assert_eq!(trim("\u{a0}x\u{2003}"), "x");
    assert_eq!(trim("   "), "");
    assert_eq!(trim(""), "");
    assert_eq!(trim("x"), "x");
}

#[test]
fn numerals_are_read_and_written() {
    assert_eq!(parse_usize(&chars("0")), Some(0));
    assert_eq!(parse_usize(&chars("007")), Some(7));
    assert_eq!(parse_usize(&chars("+15")), Some(15));
    assert_eq!(parse_usize(&chars("")), None);
    assert_eq!(parse_usize(&chars("+")), None);
    assert_eq!(parse_usize(&chars("-1")), None);
    assert_eq!(parse_usize(&chars("1 ")), None);
    assert_eq!(parse_usize(&chars("\u{663}")), None);
    assert_eq!(parse_usize(&chars(&usize::MAX.to_string())), Some(usize::MAX));
    assert_eq!(parse_usize(&chars(&format!("{}0", usize::MAX))), None);
    assert_eq!(parse_usize(&chars("99999999999999999999999999")), None);
    assert_eq!(digit_value('7'), Some(7));
    assert_eq!(digit_value('a'), None);
    let mut out = vec!['x'];
    push_decimal(0, &mut out);
    push_decimal(1205, &mut out);
    assert_eq!(out, chars("x01205"));
}

#[test]
fn fix_time_edge_cases() {
    assert_eq!(fix_time("12", "30", "am").unwrap(), "12:30");
    assert_eq!(fix_time("11", "59", "pm").unwrap(), "23:59");
    assert_eq!(fix_time("012", "00", "pm").unwrap(), "24:00");
    assert_eq!(fix_time("7", "5", "noon").unwrap(), "07:5");
    assert_eq!(fix_time("123", "00", "am").unwrap(), "123:00");
    assert_eq!(fix_time("+9", "00", "pm").unwrap(), "21:00");
    let huge = usize::MAX.to_string();
    assert_eq!(fix_time(&huge, "00", "am").unwrap(), format!("{}:00", huge));
    match fix_time(&huge, "00", "pm") {
        Err(ScrapeError::Format(h)) => assert_eq!(h, huge),
        other => panic!("unexpected: {:?}", other),
    }
    assert!(matches!(fix_time("nine", "00", "am"), Err(ScrapeError::Format(_))));
}

#[test]
fn every_day_letter_has_its_ordinal() {
    let letters = ['M', 'T', 'W', 'R', 'F', 'S', 'U'];
    for (i, c) in letters.iter().enumerate() {
        assert_eq!(day_letter_to_ordinal(*c), Some(i as u8 + 1));
    }
    for c in ['m', 'A', ' ', '1', '\u{e9}'] {
        assert_eq!(day_letter_to_ordinal(c), None);
    }
    assert_eq!(days_of("MTWRFSU"), vec![1, 2, 3, 4, 5, 6, 7]);
    assert_eq!(days_of(""), Vec::<u8>::new());
    assert_eq!(days_of("&nbsp;"), Vec::<u8>::new());
}

#[test]
fn decode_knows_two_entities_only() {
    assert_eq!(decode(""), "");
    assert_eq!(decode("&lt;&amp;&gt;"), "&lt;&&gt;");
    assert_eq!(decode("&amp"), "&amp");
    assert_eq!(decode("&&amp;&"), "&&&");
    assert_eq!(decode("&nbsp;&nbsp;"), "  ");
    assert_eq!(decode("&amp;&amp;"), "&&");
}

#[test]
fn decode_twice_is_decode_once_without_nested_entity() {
    for s in ["", "plain", "a &amp; b", "&nbsp;x&amp;nbsp;", "&&amp;amp", "&amp;lt;"] {
        let once = decode(s);
        assert_eq!(decode(&once), once);
    }
    let once = decode("&amp;amp;");
    assert_ne!(decode(&once), once);
}

#[test]
fn failures_have_words() {
    assert_eq!(ScrapeError::Parse("x".to_string()).message(), "parse: x");
    assert_eq!(ScrapeError::NotFound("body".to_string()).message(), "not found: body");
    assert_eq!(ScrapeError::Selector("a >".to_string()).message(), "selector: a >");
    assert_eq!(ScrapeError::Format("x9".to_string()).message(), "format: x9");
    assert_eq!(ScrapeError::Pattern("(".to_string()).message(), "pattern: (");
    assert_eq!(ScrapeError::Config("k".to_string()).message(), "config: k");
    let e = ScrapeError::Pattern("(".to_string()).duplicate();
    assert!(matches!(e, ScrapeError::Pattern(p) if p == "("));
}

#[test]
fn header_needs_all_four_groups_and_a_number() {
    let full = groups(&[Some("all"), Some("T"), Some("00123"), Some("MATH"), Some("1113")]);
    let h = header_from_captures(&full).unwrap();
    assert_eq!((h.title.as_str(), h.crn, h.subject.as_str(), h.course.as_str()), ("T", 123, "MATH", "1113"));
    let short = groups(&[Some("all"), Some("T"), Some("00123"), Some("MATH")]);
    assert!(matches!(header_from_captures(&short), Err(ScrapeError::Parse(_))));
    let hole = groups(&[Some("all"), Some("T"), None, Some("MATH"), Some("1113")]);
    assert!(matches!(header_from_captures(&hole), Err(ScrapeError::Parse(_))));
    let other_digits = groups(&[Some("all"), Some("T"), Some("\u{661}2345"), Some("MATH"), Some("1113")]);
    assert!(matches!(header_from_captures(&other_digits), Err(ScrapeError::Parse(_))));
    assert!(matches!(header_from_captures(&None), Err(ScrapeError::Parse(_))));
}

#[test]
fn time_needs_all_six_groups() {
    let full = groups(&[
        Some("all"),
        Some("8"),
        Some("00"),
        Some("am"),
        Some("1"),
        Some("15"),
        Some("pm"),
    ]);
    assert_eq!(
        time_from_captures(&full).unwrap(),
        Some(("08:00".to_string(), "13:15".to_string()))
    );
    let short = groups(&[Some("all"), Some("8"), Some("00"), Some("am")]);
    assert!(matches!(time_from_captures(&short), Err(ScrapeError::Parse(_))));
    let bad = groups(&[
        Some("all"),
        Some("\u{668}"),
        Some("00"),
        Some("am"),
        Some("1"),
        Some("15"),
        Some("pm"),
    ]);
    assert!(matches!(time_from_captures(&bad), Err(ScrapeError::Format(_))));
    assert!(matches!(time_from_captures(&None), Err(ScrapeError::Parse(_))));
}

#[test]
fn credits_prefer_the_range() {
    let range = groups(&[Some("all"), Some("1.0"), Some("2.5")]);
    let single = groups(&[Some("all"), Some("9.0")]);
    let c = credits_from_captures(&range, &single).unwrap();
    assert_eq!((c.low.to_text(), c.high.to_text()), ("1.0".to_string(), "2.5".to_string()));
    let c = credits_from_captures(&None, &single).unwrap();
    assert_eq!((c.low.to_text(), c.high.to_text()), ("9.0".to_string(), "9.0".to_string()));
    assert!(matches!(credits_from_captures(&None, &None), Err(ScrapeError::Parse(_))));
    let other_digits = groups(&[Some("all"), Some("\u{663}.0")]);
    match credits_from_captures(&None, &other_digits) {
        Err(ScrapeError::Parse(what)) => assert_eq!(what, "credits: number"),
        other => panic!("unexpected: {:?}", other),
    }
}

#[test]
fn details_take_the_first_two_pieces() {
    let pieces = vec![" About. ".to_string(), "4.000 Credit hours".to_string(), "x".to_string()];
    let (description, credits) = details_from_pieces(&pieces).unwrap();
    assert_eq!(description, "About.");
    assert_eq!(credits.low.to_text(), "4.000");
    match details_from_pieces(&Vec::new()) {
        Err(ScrapeError::NotFound(what)) => assert_eq!(what, "desc"),
        other => panic!("unexpected: {:?}", other),
    }
    let one = vec!["About".to_string()];
    assert!(matches!(details_from_pieces(&one), Err(ScrapeError::NotFound(_))));
    let no_credits = vec!["About".to_string(), "nothing".to_string()];
    assert!(matches!(details_from_pieces(&no_credits), Err(ScrapeError::Parse(_))));
}

#[test]
fn subject_option_needs_both_groups() {
    let found = groups(&[Some("all"), Some("ARTS"), Some("Art &amp; Design")]);
    assert_eq!(
        subject_from_captures("x", &found).unwrap(),
        ("ARTS".to_string(), "Art & Design".to_string())
    );
    match subject_from_captures("frag", &None) {
        Err(ScrapeError::Parse(what)) => assert_eq!(what, "Could not parse subject: frag"),
        other => panic!("unexpected: {:?}", other),
    }
}

fn cell(text: Option<&str>, markup: &str, targets: &[Option<&str>]) -> Cell {
    Cell {
        text: text.map(|t| t.to_string()),
        markup: markup.to_string(),
        link_targets: targets.iter().map(|t| t.map(|s| s.to_string())).collect(),
    }
}

#[test]
fn meeting_row_names_the_missing_column() {
    let first = cell(Some("Class"), "Class", &[]);
    let time = cell(Some("TBA"), "TBA", &[]);
    let days = cell(None, "MW", &[]);
    let place = cell(Some("Hall &amp; Room"), "Hall &amp;amp; Room", &[]);
    let other = cell(Some("x"), "x", &[]);
    let people = cell(Some("P"), "P", &[Some("a"), Some("b")]);
    let expect = |cells: Vec<Cell>, name: &str| match meeting_of_row(&cells) {
        Err(ScrapeError::NotFound(what)) => assert_eq!(what, name),
        other => panic!("unexpected: {:?}", other),
    };
    expect(vec![], "time");
    expect(vec![cell(None, "", &[])], "time");
    expect(vec![cell(None, "", &[]), cell(None, "", &[])], "time");
    expect(vec![cell(None, "", &[]), cell(Some("TBA"), "", &[])], "days");
    expect(
        vec![cell(None, "", &[]), cell(Some("TBA"), "", &[]), cell(None, "", &[])],
        "location",
    );
    expect(
        vec![
            cell(None, "", &[]),
            cell(Some("TBA"), "", &[]),
            cell(None, "", &[]),
            cell(None, "", &[]),
        ],
        "location text",
    );
    let row = vec![first, time, days, place, other, cell(None, "", &[]), people];
    let item = meeting_of_row(&row).unwrap();
    assert_eq!(item.time, None);
    assert_eq!(item.days, vec![1, 3]);
    assert_eq!(item.location.as_deref(), Some("Hall & Room"));
    assert_eq!(targets_of_row(&row).unwrap().len(), 2);
    let expect_targets = |n: usize, name: &str| {
        let cells: Vec<Cell> = (0..n).map(|_| cell(Some("TBA"), "", &[])).collect();
        match targets_of_row(&cells) {
            Err(ScrapeError::NotFound(what)) => assert_eq!(what, name),
            other => panic!("unexpected: {:?}", other.map(|t| t.len())),
        }
    };
    expect_targets(4, "date range");
    expect_targets(5, "sched type");
    expect_targets(6, "instructors");
}

#[test]
fn instructors_are_a_set() {
    let mut names = Vec::new();
    add_member(&mut names, "a".to_string());
    add_member(&mut names, "b".to_string());
    add_member(&mut names, "a".to_string());
    assert_eq!(names, vec!["a".to_string(), "b".to_string()]);
    let more = vec![Some("c".to_string()), Some("b".to_string())];
    assert!(add_targets(&mut names, &more).is_ok());
    assert_eq!(names, vec!["a".to_string(), "b".to_string(), "c".to_string()]);
    let hole = vec![Some("d".to_string()), None];
    assert!(matches!(add_targets(&mut names, &hole), Err(ScrapeError::NotFound(_))));
}

#[test]
fn rows_are_paired_two_by_two() {
    assert_eq!(pair_rows(&Vec::<u8>::new()), (vec![], false));
    assert_eq!(pair_rows(&vec![1]), (vec![], true));
    assert_eq!(pair_rows(&vec![1, 2]), (vec![(1, 2)], false));
    assert_eq!(pair_rows(&vec![1, 2, 3]), (vec![(1, 2)], true));
    assert_eq!(pair_rows(&vec![1, 2, 3, 4]), (vec![(1, 2), (3, 4)], false));
}

#[test]
fn keyed_lists_behave_as_maps() {
    let mut list: Vec<(String, u8)> = Vec::new();
    put(&mut list, "a".to_string(), 1);
    put(&mut list, "b".to_string(), 2);
    put(&mut list, "a".to_string(), 3);
    assert_eq!(list, vec![("a".to_string(), 3), ("b".to_string(), 2)]);
    assert_eq!(find_key(&list, &"b".to_string()), Some(1));
    assert_eq!(find_key(&list, &"c".to_string()), None);
    assert_eq!(get(&list, &"a".to_string()), Some(&3));
    assert_eq!(get(&list, &"z".to_string()), None);
    let mut titles = Titles::new();
    titles.set("MATH".to_string(), "Math".to_string());
    titles.set("MATH".to_string(), "Mathematics".to_string());
    assert_eq!(titles.title(&"MATH".to_string()).map(|s| s.as_str()), Some("Mathematics"));
    assert_eq!(titles.codes(), vec!["MATH".to_string()]);
}

fn header(subject: &str, course: &str) -> Header {
    Header {
        title: "T &amp; U".to_string(),
        crn: 11111,
        subject: subject.to_string(),
        course: course.to_string(),
    }
}

fn section(crn: usize) -> Section {
    Section { crn, instructors: Vec::new(), schedule: Vec::new() }
}

#[test]
fn catalog_gets_courses_once_and_sections_in_order() {
    let mut titles = Titles::new();
    titles.set("MATH".to_string(), "Mathematics".to_string());
    let mut cat = Catalog::new();
    let credits = || parse_credit_range("3.0 Credit hours").unwrap();
    assert!(!add_section(&mut cat, &"MATH".to_string(), &"1113".to_string(), section(1)));
    assert!(add_course(&mut cat, &titles, &header("MATH", "1113"), "first".to_string(), credits()));
    assert!(!add_course(&mut cat, &titles, &header("MATH", "1113"), "second".to_string(), credits()));
    assert!(add_course(&mut cat, &titles, &header("MATH", "2250"), "third".to_string(), credits()));
    assert!(add_course(&mut cat, &titles, &header("ZOOL", "1010"), "fourth".to_string(), credits()));
    assert!(add_section(&mut cat, &"MATH".to_string(), &"1113".to_string(), section(1)));
    assert!(add_section(&mut cat, &"MATH".to_string(), &"1113".to_string(), section(2)));
    assert_eq!(locate(&cat, &"MATH".to_string(), &"2250".to_string()), Some((0, 1)));
    assert_eq!(locate(&cat, &"ZOOL".to_string(), &"1010".to_string()), Some((1, 0)));
    assert_eq!(locate(&cat, &"ZOOL".to_string(), &"2250".to_string()), None);
    assert_eq!(locate(&cat, &"ARTS".to_string(), &"1010".to_string()), None);
    let math = &cat.subjects[0].1;
    assert_eq!(math.title.as_deref(), Some("Mathematics"));
    assert_eq!(cat.subjects[1].1.title, None);
    assert_eq!(math.courses[0].1.title, "T & U");
    assert_eq!(math.courses[0].1.description, "first");
    assert_eq!(math.courses[0].1.sections.iter().map(|s| s.crn).collect::<Vec<_>>(), vec![1, 2]);
    let cache = Some(cat);
    let found = lookup_cached(&cache, &"MATH".to_string(), &"1113".to_string()).unwrap();
    assert_eq!(found.0, "first");
    assert_eq!(found.1.low.to_text(), "3.0");
    assert!(lookup_cached(&cache, &"MATH".to_string(), &"9999".to_string()).is_none());
    assert!(lookup_cached(&None, &"MATH".to_string(), &"1113".to_string()).is_none());
}
