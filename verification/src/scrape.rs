//! The run over the table of sections: which rows become sections, where
//! each section is put, and when a course's details must be fetched.

use crate::dom::RawSection;
use crate::entity::decoded;
use crate::error::{outcome, Failure, ScrapeError};
use crate::rows::{
    header_of, rows_view, scrape_body, scrape_line, section_schedule, CellView, Header,
    HeaderView,
};
use crate::structs::{CourseView, CreditsView, Section, SectionView, SubjectView};
use vstd::prelude::*;

verus! {

/// The catalog as contracts speak of it: subjects by subject code.
pub type CatalogView = Map<Seq<char>, SubjectView>;

/// What a detail page says of a course, or why it could not be had.
pub type Details = Result<(Seq<char>, CreditsView), Failure>;

/// What the detail pages would say, course by course: the answer to a fetch
/// for subject and course code.
pub type Oracle = spec_fn(Seq<char>, Seq<char>) -> Details;

/// A pair of rows as contracts speak of it.
pub struct RawSectionView {
    pub header: Result<Option<Seq<char>>, Failure>,
    pub body: Result<Option<Seq<Seq<CellView>>>, Failure>,
}

impl View for RawSection {
    type V = RawSectionView;

    open spec fn view(&self) -> RawSectionView {
        RawSectionView {
            header: match self.header {
                Ok(Some(text)) => Ok(Some(text@)),
                Ok(None) => Ok(None),
                Err(e) => Err(e@),
            },
            body: match self.body {
                Ok(Some(rows)) => Ok(Some(rows_view(rows@))),
                Ok(None) => Ok(None),
                Err(e) => Err(e@),
            },
        }
    }
}

/// The section that a pair of rows gives: its header, and the section with
/// the header's reference number. The header is read first; any failure of
/// header or body is the failure of the pair.
pub open spec fn section_of(raw: RawSectionView) -> Result<(HeaderView, SectionView), Failure> {
    match raw.header {
        Err(e) => Err(e),
        Ok(link) => match header_of(link) {
            Err(e) => Err(e),
            Ok(header) => match raw.body {
                Err(e) => Err(e),
                Ok(body) => match section_schedule(body) {
                    Err(e) => Err(e),
                    Ok((schedule, instructors)) => Ok(
                        (header, SectionView { crn: header.crn, instructors, schedule }),
                    ),
                },
            },
        },
    }
}

/// Whether the catalog holds the course.
pub open spec fn has_course(cat: CatalogView, subject: Seq<char>, course: Seq<char>) -> bool {
    cat.dom().contains(subject) && cat[subject].courses.dom().contains(course)
}

/// Description and credit hours of the course in an earlier catalog, where
/// one was supplied and holds the course.
pub open spec fn cached(previous: Option<CatalogView>, subject: Seq<char>, course: Seq<char>) -> Option<
    (Seq<char>, CreditsView),
> {
    match previous {
        Some(cat) => if has_course(cat, subject, course) {
            Some(
                (
                    cat[subject].courses[course].description,
                    cat[subject].courses[course].credits,
                ),
            )
        } else {
            None
        },
        None => None,
    }
}

/// The title of a subject as the titles give it.
pub open spec fn title_of(titles: Map<Seq<char>, Seq<char>>, subject: Seq<char>) -> Option<
    Seq<char>,
> {
    if titles.dom().contains(subject) {
        Some(titles[subject])
    } else {
        None
    }
}

/// The subject as the catalog has it, or as it is when first met: with its
/// title from the titles and without courses.
pub open spec fn subject_in(
    cat: CatalogView,
    titles: Map<Seq<char>, Seq<char>>,
    subject: Seq<char>,
) -> SubjectView {
    if cat.dom().contains(subject) {
        cat[subject]
    } else {
        SubjectView { title: title_of(titles, subject), courses: Map::empty() }
    }
}

/// The catalog with a new course that has no section yet. The subject is
/// made where the catalog lacks it; the course title has its entities
/// decoded; description and credit hours are taken as given.
pub open spec fn with_course(
    cat: CatalogView,
    titles: Map<Seq<char>, Seq<char>>,
    header: HeaderView,
    description: Seq<char>,
    credits: CreditsView,
) -> CatalogView {
    let subject = subject_in(cat, titles, header.subject);
    cat.insert(
        header.subject,
        SubjectView {
            title: subject.title,
            courses: subject.courses.insert(
                header.course,
                CourseView {
                    title: decoded(header.title),
                    description,
                    credits,
                    sections: Seq::empty(),
                },
            ),
        },
    )
}

/// The catalog with `section` added as the last section of a course that it
/// holds.
pub open spec fn with_section(
    cat: CatalogView,
    subject: Seq<char>,
    course: Seq<char>,
    section: SectionView,
) -> CatalogView {
    let s = cat[subject];
    let c = s.courses[course];
    cat.insert(
        subject,
        SubjectView {
            title: s.title,
            courses: s.courses.insert(
                course,
                CourseView {
                    title: c.title,
                    description: c.description,
                    credits: c.credits,
                    sections: c.sections.push(section),
                },
            ),
        },
    )
}

/// The catalog after a section was put into it. A course that the catalog
/// holds gets the section. A new course takes description and credit hours
/// from the earlier catalog as they stand there; only where that has none,
/// the detail page is asked, its description is decoded, and its failure is
/// the failure of the run.
pub open spec fn placed(
    cat: CatalogView,
    header: HeaderView,
    section: SectionView,
    titles: Map<Seq<char>, Seq<char>>,
    previous: Option<CatalogView>,
    oracle: Oracle,
) -> Result<CatalogView, Failure> {
    if has_course(cat, header.subject, header.course) {
        Ok(with_section(cat, header.subject, header.course, section))
    } else {
        match cached(previous, header.subject, header.course) {
            Some((description, credits)) => Ok(
                with_section(
                    with_course(cat, titles, header, description, credits),
                    header.subject,
                    header.course,
                    section,
                ),
            ),
            None => match oracle(header.subject, header.course) {
                Err(e) => Err(e),
                Ok((description, credits)) => Ok(
                    with_section(
                        with_course(cat, titles, header, decoded(description), credits),
                        header.subject,
                        header.course,
                        section,
                    ),
                ),
            },
        }
    }
}

/// The catalog after the run over `rows`, begun with `cat`. A pair of rows
/// that gives no section is passed over; every other pair puts its section
/// into the catalog; the first detail page that fails ends the run.
pub open spec fn scraped(
    rows: Seq<RawSectionView>,
    cat: CatalogView,
    titles: Map<Seq<char>, Seq<char>>,
    previous: Option<CatalogView>,
    oracle: Oracle,
) -> Result<CatalogView, Failure>
    decreases rows.len(),
{
    if rows.len() == 0 {
        Ok(cat)
    } else {
        match section_of(rows[0]) {
            Err(_) => scraped(rows.skip(1), cat, titles, previous, oracle),
            Ok((header, section)) => match placed(
                cat,
                header,
                section,
                titles,
                previous,
                oracle,
            ) {
                Err(e) => Err(e),
                Ok(next) => scraped(rows.skip(1), next, titles, previous, oracle),
            },
        }
    }
}

/// Whether every course of the catalog that the earlier catalog holds has
/// the description and the credit hours that stand there.
pub open spec fn keeps_cached(cat: CatalogView, previous: Option<CatalogView>) -> bool {
    forall|subject: Seq<char>, course: Seq<char>|
        #![trigger has_course(cat, subject, course)]
        has_course(cat, subject, course) ==> match cached(previous, subject, course) {
            Some((description, credits)) => cat[subject].courses[course].description
                == description && cat[subject].courses[course].credits == credits,
            None => true,
        }
}

/// A pair of rows that gives no section changes nothing: the run over a
/// table with such a pair at `n` ends as the run over the table without it.
pub proof fn law_failed_row_is_skipped(
    rows: Seq<RawSectionView>,
    n: int,
    cat: CatalogView,
    titles: Map<Seq<char>, Seq<char>>,
    previous: Option<CatalogView>,
    oracle: Oracle,
)
    requires
        0 <= n < rows.len(),
        section_of(rows[n]) is Err,
    ensures
        scraped(rows, cat, titles, previous, oracle) == scraped(
            rows.remove(n),
            cat,
            titles,
            previous,
            oracle,
        ),
    decreases n,
{
    if n == 0 {
        assert(rows.remove(0) == rows.skip(1));
    } else {
        let shorter = rows.remove(n);
        assert(shorter[0] == rows[0]);
        assert(shorter.skip(1) == rows.skip(1).remove(n - 1));
        match section_of(rows[0]) {
            Err(_) => {
                law_failed_row_is_skipped(rows.skip(1), n - 1, cat, titles, previous, oracle);
            },
            Ok((header, section)) => {
                match placed(cat, header, section, titles, previous, oracle) {
                    Err(_) => {},
                    Ok(next) => {
                        law_failed_row_is_skipped(
                            rows.skip(1),
                            n - 1,
                            next,
                            titles,
                            previous,
                            oracle,
                        );
                    },
                }
            },
        }
    }
}

/// The run never asks for the detail page of a course that the earlier
/// catalog holds: two runs whose detail pages differ on such courses only
/// end alike.
pub proof fn law_cached_course_is_not_fetched(
    rows: Seq<RawSectionView>,
    cat: CatalogView,
    titles: Map<Seq<char>, Seq<char>>,
    previous: Option<CatalogView>,
    first: Oracle,
    second: Oracle,
)
    requires
        forall|subject: Seq<char>, course: Seq<char>|
            cached(previous, subject, course) is None ==> #[trigger] first(subject, course)
                == second(subject, course),
    ensures
        scraped(rows, cat, titles, previous, first) == scraped(
            rows,
            cat,
            titles,
            previous,
            second,
        ),
    decreases rows.len(),
{
    if rows.len() > 0 {
        match section_of(rows[0]) {
            Err(_) => {
                law_cached_course_is_not_fetched(
                    rows.skip(1),
                    cat,
                    titles,
                    previous,
                    first,
                    second,
                );
            },
            Ok((header, section)) => {
                assert(placed(cat, header, section, titles, previous, first) == placed(
                    cat,
                    header,
                    section,
                    titles,
                    previous,
                    second,
                ));
                match placed(cat, header, section, titles, previous, first) {
                    Err(_) => {},
                    Ok(next) => {
                        law_cached_course_is_not_fetched(
                            rows.skip(1),
                            next,
                            titles,
                            previous,
                            first,
                            second,
                        );
                    },
                }
            },
        }
    }
}

/// Putting a section into the catalog keeps what the earlier catalog says of
/// courses.
pub proof fn lemma_placed_keeps_cached(
    cat: CatalogView,
    header: HeaderView,
    section: SectionView,
    titles: Map<Seq<char>, Seq<char>>,
    previous: Option<CatalogView>,
    oracle: Oracle,
)
    requires
        keeps_cached(cat, previous),
    ensures
        placed(cat, header, section, titles, previous, oracle) matches Ok(next) ==> keeps_cached(
            next,
            previous,
        ),
{
    match placed(cat, header, section, titles, previous, oracle) {
        Err(_) => {},
        Ok(next) => {
            assert forall|subject: Seq<char>, course: Seq<char>|
                #![trigger has_course(next, subject, course)]
                has_course(next, subject, course) implies match cached(previous, subject, course) {
                Some((description, credits)) => next[subject].courses[course].description
                    == description && next[subject].courses[course].credits == credits,
                None => true,
            } by {
                if subject == header.subject && course == header.course {
                    if has_course(cat, subject, course) {
                    }
                } else {
                    assert(has_course(cat, subject, course));
                }
            }
        },
    }
}

/// In the catalog that a run ends with, every course that the earlier
/// catalog holds has exactly the description and the credit hours that
/// stand there.
pub proof fn law_cached_details_are_kept(
    rows: Seq<RawSectionView>,
    cat: CatalogView,
    titles: Map<Seq<char>, Seq<char>>,
    previous: Option<CatalogView>,
    oracle: Oracle,
)
    requires
        keeps_cached(cat, previous),
    ensures
        scraped(rows, cat, titles, previous, oracle) matches Ok(out) ==> keeps_cached(
            out,
            previous,
        ),
    decreases rows.len(),
{
    if rows.len() > 0 {
        match section_of(rows[0]) {
            Err(_) => {
                law_cached_details_are_kept(rows.skip(1), cat, titles, previous, oracle);
            },
            Ok((header, section)) => {
                lemma_placed_keeps_cached(cat, header, section, titles, previous, oracle);
                match placed(cat, header, section, titles, previous, oracle) {
                    Err(_) => {},
                    Ok(next) => {
                        law_cached_details_are_kept(rows.skip(1), next, titles, previous, oracle);
                    },
                }
            },
        }
    }
}

/// A further section of a course that the catalog holds changes nothing of
/// the course but its list of sections, which gains the section at its end:
/// title, description and credit hours stay as they were first entered.
pub proof fn law_course_details_stay(
    cat: CatalogView,
    header: HeaderView,
    section: SectionView,
    titles: Map<Seq<char>, Seq<char>>,
    previous: Option<CatalogView>,
    oracle: Oracle,
)
    requires
        has_course(cat, header.subject, header.course),
    ensures
        placed(cat, header, section, titles, previous, oracle) matches Ok(next) && {
            let before = cat[header.subject].courses[header.course];
            let after = next[header.subject].courses[header.course];
            &&& has_course(next, header.subject, header.course)
            &&& after.title == before.title
            &&& after.description == before.description
            &&& after.credits == before.credits
            &&& after.sections == before.sections.push(section)
            &&& next[header.subject].title == cat[header.subject].title
        },
{
}

/// Reads the section that a pair of rows gives: the header first, then the
/// body.
pub fn read_section(raw: &RawSection) -> (out: Result<(Header, Section), ScrapeError>)
    ensures
        outcome(out) == section_of(raw@),
        out matches Ok(found) ==> found.1@.wf(),
{
    let header = match &raw.header {
        Ok(Some(text)) => scrape_line(Some(text.as_str())),
        Ok(None) => scrape_line(None),
        Err(e) => Err(e.duplicate()),
    };
    let header = match header {
        Ok(header) => header,
        Err(e) => {
            return Err(e);
        },
    };
    let body = match &raw.body {
        Ok(Some(rows)) => scrape_body(Some(rows)),
        Ok(None) => scrape_body(None),
        Err(e) => Err(e.duplicate()),
    };
    match body {
        Ok((schedule, instructors)) => {
            let section = Section { crn: header.crn, instructors, schedule };
            assert forall|i: int| 0 <= i < section@.schedule.len() implies crate::clock::valid_days(
                #[trigger] section@.schedule[i].days,
            ) by {
                assert(section@.schedule[i] == section.schedule@[i]@);
            }
            Ok((header, section))
        },
        Err(e) => Err(e),
    }
}

} // verus!
