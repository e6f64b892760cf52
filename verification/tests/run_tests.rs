use course_scrape::catalog::untitled_subjects;
use course_scrape::details::parse_credit_range;
use course_scrape::dom::section_table;
use course_scrape::request::{
    course_details_query, get_sections_doc, rate_limit, subject_search_query, RateLimit,
};
use course_scrape::run::{scrape_doc, Scrape, Step};
use course_scrape::structs::{Catalog, Course, Subject};
use course_scrape::titles::Titles;

fn sections_page(rows: &str) -> String {
    format!(
        "<html><body><table summary='This layout table is used to present the sections found'>\
         <tbody>{}</tbody></table></body></html>",
        rows
    )
}

fn header_row(line: &str) -> String {
    format!("<tr><th><a href='/x'>{}</a></th></tr>", line)
}

fn body_row(meetings: &str) -> String {
    format!(
        "<tr><td>Some text<table summary='This table lists the scheduled meeting times and \
         assigned instructors for this class..'><tbody>\
         <tr><th>Type</th><th>Time</th><th>Days</th><th>Where</th><th>Date Range</th>\
         <th>Schedule Type</th><th>Instructors</th></tr>{}</tbody></table></td></tr>",
        meetings
    )
}

fn meeting(time: &str, days: &str, place: &str, instructors: &str) -> String {
    format!(
        "<tr><td class='dddefault'>Class</td><td class='dddefault'>{}</td>\
         <td class='dddefault'>{}</td><td class='dddefault'>{}</td>\
         <td class='dddefault'>Aug 14 - Dec 10</td><td class='dddefault'>Lecture</td>\
         <td class='dddefault'>{}</td></tr>",
        time, days, place, instructors
    )
}

fn pair(line: &str, instructor: &str) -> String {
    format!(
        "{}{}",
        header_row(line),
        body_row(&meeting(
            "TBA",
            "&nbsp;",
            "TBA",
            &format!("<a target='{}' href='m'>P</a>", instructor)
        ))
    )
}

fn titles() -> Titles {
    let mut t = Titles::new();
    t.set("CSCI".to_string(), "Computer Science".to_string());
    t
}

fn previous(description: &str) -> Catalog {
    let course = Course {
        title: "old title".to_string(),
        description: description.to_string(),
        credits: parse_credit_range("3.000 TO 4.000 Credit hours").unwrap(),
        sections: Vec::new(),
    };
    let subject = Subject { title: None, courses: vec![("1301".to_string(), course)] };
    Catalog { subjects: vec![("CSCI".to_string(), subject)] }
}

fn run_with(page: &str, cache: Option<Catalog>, description: &str) -> (Catalog, Vec<String>) {
    let table = section_table(page).unwrap();
    let (mut run, mut step) = scrape_doc(table, titles(), cache);
    let mut asked = Vec::new();
    loop {
        match step {
            Step::Done => break,
            Step::Fetch { subject, course } => {
                asked.push(format!("{} {}", subject, course));
                let credits = parse_credit_range("1.000 Credit hours").unwrap();
                assert!(run.supply(description.to_string(), credits));
                step = run.advance();
            }
        }
    }
    let (catalog, _) = run.finish();
    (catalog, asked)
}

#[test]
fn two_row_table_gives_one_section() {
    let page = sections_page(&pair("Intro to Foo - 12345 - CSCI 1301 - Lecture", "jdoe"));
    let (catalog, asked) = run_with(&page, None, "About foo &amp; bar");
    assert_eq!(asked, vec!["CSCI 1301".to_string()]);
    assert_eq!(catalog.subjects.len(), 1);
    let (code, subject) = &catalog.subjects[0];
    assert_eq!(code, "CSCI");
    assert_eq!(subject.title.as_deref(), Some("Computer Science"));
    assert_eq!(subject.courses.len(), 1);
    let (number, course) = &subject.courses[0];
    assert_eq!(number, "1301");
    assert_eq!(course.title, "Intro to Foo");
    assert_eq!(course.description, "About foo & bar");
    assert_eq!(course.credits.low.to_text(), "1.000");
    assert_eq!(course.sections.len(), 1);
    let section = &course.sections[0];
    assert_eq!(section.crn, 12345);
    assert_eq!(section.instructors, vec!["jdoe".to_string()]);
    assert_eq!(section.schedule.len(), 1);
    assert_eq!(section.schedule[0].time, None);
    assert_eq!(section.schedule[0].days, Vec::<u8>::new());
    assert_eq!(section.schedule[0].location, None);
}

#[test]
fn odd_row_count_is_reported_and_does_not_fail() {
    let page = sections_page(&format!(
        "{}{}",
        pair("Intro to Foo - 12345 - CSCI 1301 - Lecture", "jdoe"),
        header_row("Orphan - 54321 - CSCI 1302 - Lecture")
    ));
    let table = section_table(&page).unwrap();
    let (mut run, step) = scrape_doc(table, titles(), Some(previous("D")));
    assert!(matches!(step, Step::Done));
    assert!(!run.supply("x".to_string(), parse_credit_range("1.0 Credit hours").unwrap()));
    let (catalog, report) = run.finish();
    assert!(report.unpaired);
    assert!(report.skipped.is_empty());
    assert_eq!(catalog.subjects[0].1.courses[0].1.sections.len(), 1);
}

#[test]
fn malformed_header_skips_exactly_that_pair() {
    let good_a = pair("Intro to Foo - 12345 - CSCI 1301 - Lecture", "jdoe");
    let bad = pair("This line has no reference number", "nobody");
    let good_b = pair("Intro to Foo - 12346 - CSCI 1301 - Lab", "asmith");
    let with_bad = sections_page(&format!("{}{}{}", good_a, bad, good_b));
    let without = sections_page(&format!("{}{}", good_a, good_b));
    let table = section_table(&with_bad).unwrap();
    let (mut run, step) = scrape_doc(table, titles(), Some(previous("D")));
    assert!(matches!(step, Step::Done));
    assert!(matches!(run.advance(), Step::Done));
    let (catalog, report) = run.finish();
    assert_eq!(report.skipped.len(), 1);
    assert_eq!(report.skipped[0].0, 1);
    let (expected, _) = run_with(&without, Some(previous("D")), "unused");
    assert_eq!(format!("{:?}", catalog), format!("{:?}", expected));
    let sections = &catalog.subjects[0].1.courses[0].1.sections;
    assert_eq!(sections.iter().map(|s| s.crn).collect::<Vec<_>>(), vec![12345, 12346]);
}

#[test]
fn failing_body_skips_the_section() {
    let page = sections_page(&format!(
        "{}{}",
        header_row("Intro to Foo - 12345 - CSCI 1301 - Lecture"),
        body_row(&meeting("noon", "M", "TBA", ""))
    ));
    let (catalog, asked) = run_with(&page, None, "unused");
    assert!(asked.is_empty());
    assert!(catalog.subjects.is_empty());
}

#[test]
fn cached_course_is_not_fetched_and_keeps_its_details() {
    let page = sections_page(&format!(
        "{}{}",
        pair("Intro to Foo - 12345 - CSCI 1301 - Lecture", "jdoe"),
        pair("Data &amp; Things - 22222 - CSCI 2720 - Lecture", "asmith")
    ));
    let (catalog, asked) = run_with(&page, Some(previous("Kept &amp; as is")), "Fetched");
    assert_eq!(asked, vec!["CSCI 2720".to_string()]);
    let courses = &catalog.subjects[0].1.courses;
    assert_eq!(courses[0].0, "1301");
    assert_eq!(courses[0].1.description, "Kept &amp; as is");
    assert_eq!(courses[0].1.credits.low.to_text(), "3.000");
    assert_eq!(courses[0].1.credits.high.to_text(), "4.000");
    assert_eq!(courses[0].1.title, "Intro to Foo");
    assert_eq!(courses[1].0, "2720");
    assert_eq!(courses[1].1.title, "Data & Things");
    assert_eq!(courses[1].1.description, "Fetched");
}

#[test]
fn waiting_section_asks_again_until_supplied() {
    let page = sections_page(&pair("Intro to Foo - 12345 - CSCI 1301 - Lecture", "jdoe"));
    let mut run = Scrape::new(section_table(&page).unwrap(), titles(), None);
    let step = run.advance();
    assert!(matches!(step, Step::Fetch { .. }));
    match run.advance() {
        Step::Fetch { subject, course } => {
            assert_eq!(subject, "CSCI");
            assert_eq!(course, "1301");
        }
        Step::Done => panic!("the section still waits"),
    }
    assert!(run.supply("D".to_string(), parse_credit_range("2.5 Credit hours").unwrap()));
    assert!(matches!(run.advance(), Step::Done));
}

#[test]
fn subject_without_title_is_listed() {
    let page = sections_page(&format!(
        "{}{}",
        pair("Intro to Foo - 12345 - CSCI 1301 - Lecture", "jdoe"),
        pair("Birds - 33333 - ZOOL 1010 - Lecture", "asmith")
    ));
    let (catalog, _) = run_with(&page, None, "D");
    assert_eq!(untitled_subjects(&catalog), vec!["ZOOL".to_string()]);
    assert_eq!(catalog.subjects[1].1.title, None);
}

#[test]
fn duplicate_reference_numbers_are_both_kept() {
    let page = sections_page(&format!(
        "{}{}",
        pair("Intro to Foo - 12345 - CSCI 1301 - Lecture", "jdoe"),
        pair("Intro to Foo - 12345 - CSCI 1301 - Lecture", "jdoe")
    ));
    let (catalog, asked) = run_with(&page, None, "D");
    assert_eq!(asked.len(), 1);
    assert_eq!(catalog.subjects[0].1.courses[0].1.sections.len(), 2);
}

#[test]
fn rate_limit_follows_the_setting() {
    assert_eq!(rate_limit(Some(60)).unwrap(), RateLimit::PerMinute { requests: 60, burst: 1 });
    assert_eq!(rate_limit(Some(0)).unwrap(), RateLimit::Unlimited);
    assert_eq!(rate_limit(Some(-5)).unwrap(), RateLimit::Unlimited);
    assert_eq!(rate_limit(None).unwrap(), RateLimit::Unlimited);
    assert!(rate_limit(Some(4_294_967_296)).is_err());
    assert!(rate_limit(Some(4_294_967_295)).is_ok());
}

#[test]
fn queries_name_the_parameters_of_the_site() {
    let q = get_sections_doc("202408", &vec!["CSCI".to_string(), "MATH".to_string()]);
    assert_eq!(q.len(), 11 + 2 + 16);
    assert_eq!(q[0], ("term_in".to_string(), "202408".to_string()));
    assert_eq!(q[1], ("sel_subj".to_string(), "dummy".to_string()));
    assert_eq!(q[11], ("sel_subj".to_string(), "CSCI".to_string()));
    assert_eq!(q[12], ("sel_subj".to_string(), "MATH".to_string()));
    assert_eq!(q[13], ("sel_crse".to_string(), "".to_string()));
    assert_eq!(q[15], ("sel_schd".to_string(), "%".to_string()));
    assert_eq!(q[28], ("end_ap".to_string(), "a".to_string()));
    assert_eq!(
        subject_search_query("202408"),
        vec![
            ("p_calling_proc".to_string(), "bwckschd.p_disp_dyn_sched".to_string()),
            ("p_term".to_string(), "202408".to_string())
        ]
    );
    assert_eq!(
        course_details_query("202408", "CSCI", "1301"),
        vec![
            ("cat_term_in".to_string(), "202408".to_string()),
            ("subj_code_in".to_string(), "CSCI".to_string()),
            ("crse_numb_in".to_string(), "1301".to_string())
        ]
    );
}
