use course_scrape::details::{get_course_catalog, parse_credit_range, parse_decimal};
use course_scrape::dom::{detail_body, section_table, selected_markup};
use course_scrape::error::ScrapeError;
use course_scrape::rows::{parse_time, scrape_body, scrape_line};
use course_scrape::titles::{get_subject_titles, parse_subject_option};

fn sections_page(rows: &str) -> String {
    format!(
        "<html><body><table summary='This layout table is used to present the sections found'>\
         <tbody>{}</tbody></table></body></html>",
        rows
    )
}

fn header_row(line: &str) -> String {
    format!("<tr><th><a href='/x'>{}</a></th></tr>", line)
}

fn body_row(meetings: &str) -> String {
    format!(
        "<tr><td>Some text<table summary='This table lists the scheduled meeting times and \
         assigned instructors for this class..'><tbody>\
         <tr><th>Type</th><th>Time</th><th>Days</th><th>Where</th><th>Date Range</th>\
         <th>Schedule Type</th><th>Instructors</th></tr>{}</tbody></table></td></tr>",
        meetings
    )
}

fn meeting(time: &str, days: &str, place: &str, instructors: &str) -> String {
    format!(
        "<tr><td class='dddefault'>Class</td><td class='dddefault'>{}</td>\
         <td class='dddefault'>{}</td><td class='dddefault'>{}</td>\
         <td class='dddefault'>Aug 14 - Dec 10</td><td class='dddefault'>Lecture</td>\
         <td class='dddefault'>{}</td></tr>",
        time, days, place, instructors
    )
}

#[test]
fn section_table_reads_header_and_cells() {
    let page = sections_page(&format!(
        "{}{}",
        header_row("Intro to Foo - 12345 - CSCI 1301 - Lecture"),
        body_row(&meeting("TBA", "&nbsp;", "TBA", "Jane Doe (<a target='jdoe' href='m'>P</a>)"))
    ));
    let table = section_table(&page).unwrap();
    assert!(!table.unpaired);
    assert_eq!(table.sections.len(), 1);
    let raw = &table.sections[0];
    assert_eq!(
        raw.header.as_ref().unwrap().as_deref(),
        Some("Intro to Foo - 12345 - CSCI 1301 - Lecture")
    );
    let rows = raw.body.as_ref().unwrap().as_ref().unwrap();
    assert_eq!(rows.len(), 2);
    assert_eq!(rows[0].len(), 0);
    assert_eq!(rows[1].len(), 7);
    assert_eq!(rows[1][1].text.as_deref(), Some("TBA"));
    assert_eq!(rows[1][2].markup, "&nbsp;");
    assert_eq!(rows[1][6].link_targets, vec![Some("jdoe".to_string())]);
}

#[test]
fn section_table_reports_unpaired_row() {
    let page = sections_page(&format!(
        "{}{}{}",
        header_row("Intro to Foo - 12345 - CSCI 1301 - Lecture"),
        body_row(""),
        header_row("Orphan - 54321 - CSCI 1302 - Lecture")
    ));
    let table = section_table(&page).unwrap();
    assert!(table.unpaired);
    assert_eq!(table.sections.len(), 1);
}

#[test]
fn section_without_meeting_table_has_no_body() {
    let page = sections_page(&format!(
        "{}<tr><td>online</td></tr>",
        header_row("Intro to Foo - 12345 - CSCI 1301 - Lecture")
    ));
    let table = section_table(&page).unwrap();
    let raw = &table.sections[0];
    assert!(raw.body.as_ref().unwrap().is_none());
    let (schedule, instructors) = scrape_body(None).unwrap();
    assert!(schedule.is_empty());
    assert!(instructors.is_empty());
}

#[test]
fn scrape_line_reads_the_four_parts() {
    let h = scrape_line(Some("Intro to Foo - 12345 - CSCI 1301 - Lecture")).unwrap();
    assert_eq!(h.title, "Intro to Foo");
    assert_eq!(h.crn, 12345);
    assert_eq!(h.subject, "CSCI");
    assert_eq!(h.course, "1301");
    let h = scrape_line(Some("A - B - 00042 - MATH 2250H - x")).unwrap();
    assert_eq!(h.title, "A - B");
    assert_eq!(h.crn, 42);
    assert_eq!(h.course, "2250H");
}

#[test]
fn scrape_line_rejects_other_lines() {
    assert!(matches!(scrape_line(Some("no dashes here")), Err(ScrapeError::Parse(_))));
    assert!(matches!(scrape_line(None), Err(ScrapeError::NotFound(_))));
}

#[test]
fn parse_time_converts_both_ends() {
    assert_eq!(parse_time("TBA").unwrap(), None);
    assert_eq!(
        parse_time("9:05 am - 1:20 pm").unwrap(),
        Some(("09:05".to_string(), "13:20".to_string()))
    );
    assert_eq!(
        parse_time("12:40 pm - 12:55 am").unwrap(),
        Some(("12:40".to_string(), "12:55".to_string()))
    );
    assert!(matches!(parse_time("noon"), Err(ScrapeError::Parse(_))));
}

#[test]
fn scrape_body_reads_meetings_and_instructors() {
    let page = sections_page(&format!(
        "{}{}",
        header_row("Intro to Foo - 12345 - CSCI 1301 - Lecture"),
        body_row(&format!(
            "{}{}",
            meeting(
                "9:05 am - 9:55 am",
                "MWF",
                "Boyd 100 &amp; Annex",
                "<a target='jdoe'>P</a>, <a target='asmith'>x</a>"
            ),
            meeting("2:00 pm - 3:15 pm", "TR", "TBA", "<a target='jdoe'>P</a>")
        ))
    ));
    let table = section_table(&page).unwrap();
    let rows = table.sections[0].body.as_ref().unwrap().as_ref();
    let (schedule, instructors) = scrape_body(rows).unwrap();
    assert_eq!(schedule.len(), 2);
    assert_eq!(schedule[0].time, Some(("09:05".to_string(), "09:55".to_string())));
    assert_eq!(schedule[0].days, vec![1, 3, 5]);
    assert_eq!(schedule[0].location.as_deref(), Some("Boyd 100 & Annex"));
    assert_eq!(schedule[1].time, Some(("14:00".to_string(), "15:15".to_string())));
    assert_eq!(schedule[1].days, vec![2, 4]);
    assert_eq!(schedule[1].location, None);
    assert_eq!(instructors, vec!["jdoe".to_string(), "asmith".to_string()]);
}

#[test]
fn scrape_body_fails_on_link_without_target() {
    let page = sections_page(&format!(
        "{}{}",
        header_row("Intro to Foo - 12345 - CSCI 1301 - Lecture"),
        body_row(&meeting("TBA", "M", "TBA", "<a href='x'>P</a>"))
    ));
    let table = section_table(&page).unwrap();
    let rows = table.sections[0].body.as_ref().unwrap().as_ref();
    match scrape_body(rows) {
        Err(ScrapeError::NotFound(what)) => assert_eq!(what, "instructor name"),
        other => panic!("unexpected: {:?}", other),
    }
}

#[test]
fn scrape_body_fails_on_short_row() {
    let page = sections_page(&format!(
        "{}{}",
        header_row("Intro to Foo - 12345 - CSCI 1301 - Lecture"),
        body_row("<tr><td class='dddefault'>Class</td><td class='dddefault'>TBA</td></tr>")
    ));
    let table = section_table(&page).unwrap();
    let rows = table.sections[0].body.as_ref().unwrap().as_ref();
    match scrape_body(rows) {
        Err(ScrapeError::NotFound(what)) => assert_eq!(what, "days"),
        other => panic!("unexpected: {:?}", other),
    }
}

fn as_f32(d: &course_scrape::structs::Decimal) -> f32 {
    d.to_text().parse::<f32>().unwrap()
}

#[test]
fn credit_range_with_two_values() {
    let c = parse_credit_range("3.000 TO 4.000 Credit hours").unwrap();
    assert_eq!((as_f32(&c.low), as_f32(&c.high)), (3.0, 4.0));
    assert_eq!(c.low.whole, "3");
    assert_eq!(c.low.fraction, "000");
}

#[test]
fn credit_range_with_one_value() {
    let c = parse_credit_range("    3.000 Credit hours  ").unwrap();
    assert_eq!((as_f32(&c.low), as_f32(&c.high)), (3.0, 3.0));
}

#[test]
fn credit_range_without_credit_hours_fails() {
    match parse_credit_range("3.000 Lecture hours") {
        Err(ScrapeError::Parse(what)) => assert_eq!(what, "credits: no match"),
        other => panic!("unexpected: {:?}", other),
    }
}

#[test]
fn decimal_needs_digits_on_both_sides() {
    assert!(parse_decimal("1.5").is_some());
    assert!(parse_decimal(".5").is_none());
    assert!(parse_decimal("5.").is_none());
    assert!(parse_decimal("1.2.3").is_none());
    assert!(parse_decimal("15").is_none());
    assert_eq!(parse_decimal("12.50").unwrap().to_text(), "12.50");
}

#[test]
fn course_catalog_reads_description_and_credits() {
    let page = "<html><body><table summary='This table lists the course detail for the \
                selected term.'><tr><td class='ntdefault'>\n  Sets &amp; logic.  \n<br>\n \
                3.000 TO 4.000 Credit hours<br \\>more</td></tr></table></body></html>";
    let body = detail_body(page).unwrap();
    let (description, credits) = get_course_catalog(body.as_deref()).unwrap();
    assert_eq!(description, "Sets &amp; logic.");
    assert_eq!(credits.low.to_text(), "3.000");
    assert_eq!(credits.high.to_text(), "4.000");
}

#[test]
fn course_catalog_names_what_is_missing() {
    match get_course_catalog(None) {
        Err(ScrapeError::NotFound(what)) => assert_eq!(what, "body"),
        other => panic!("unexpected: {:?}", other),
    }
    match get_course_catalog(Some("only a description")) {
        Err(ScrapeError::NotFound(what)) => assert_eq!(what, "credits"),
        other => panic!("unexpected: {:?}", other),
    }
    assert!(detail_body("<html><body><p>nothing</p></body></html>").unwrap().is_none());
}

#[test]
fn subject_option_splits_code_and_title() {
    assert_eq!(
        parse_subject_option("ACCT - Accounting &amp; Audit").unwrap(),
        ("ACCT".to_string(), "Accounting & Audit".to_string())
    );
    assert_eq!(
        parse_subject_option("MATH\u{2013} Mathematics").unwrap(),
        ("MATH".to_string(), "Mathematics".to_string())
    );
    match parse_subject_option("All subjects") {
        Err(ScrapeError::Parse(what)) => assert_eq!(what, "Could not parse subject: All subjects"),
        other => panic!("unexpected: {:?}", other),
    }
}

#[test]
fn bulletin_replaces_titles_and_adds_no_code() {
    let search = "<html><body><select id='subj_id'><option>ACCT - Acct</option>\
                  <option>MATH - Math</option></select></body></html>";
    let bulletin = "<html><body><select id='ddlAllPrefixes'><option>Choose</option>\
                    <option>MATH - Mathematics</option><option>ZOOL - Zoology</option>\
                    </select></body></html>";
    let a = selected_markup(search, "#subj_id > option").unwrap();
    let b = selected_markup(bulletin, "#ddlAllPrefixes > option").unwrap();
    let titles = get_subject_titles(&a, &b).unwrap();
    assert_eq!(titles.title(&"ACCT".to_string()).map(|s| s.as_str()), Some("Acct"));
    assert_eq!(titles.title(&"MATH".to_string()).map(|s| s.as_str()), Some("Mathematics"));
    assert_eq!(titles.title(&"ZOOL".to_string()), None);
    assert_eq!(titles.codes(), vec!["ACCT".to_string(), "MATH".to_string()]);
}

#[test]
fn selected_markup_rejects_a_bad_selector() {
    assert!(matches!(selected_markup("<p></p>", "p >"), Err(ScrapeError::Selector(_))));
}
