//! The run as a machine of steps: it works through the rows on its own and
//! stops where a course's detail page is needed.

use crate::assoc::views;
use crate::catalog::{locate, lookup_cached, previous_view, push_course, push_section};
use crate::dom::{RawSection, SectionTable};
use crate::entity::{decode, decoded};
use crate::error::{Failure, ScrapeError};
use crate::rows::{Header, HeaderView};
use crate::scrape::{
    cached, has_course, keeps_cached, lemma_placed_keeps_cached, placed, read_section, scraped,
    section_of, with_course, with_section, CatalogView, Oracle, RawSectionView,
};
use crate::structs::{Catalog, Credits, CreditsView, Section, SectionView};
use crate::titles::Titles;
use vstd::prelude::*;

verus! {

/// What the run asks of its caller.
#[derive(Debug)]
pub enum Step {
    /// The detail page of this course is needed; supply what it says.
    Fetch { subject: String, course: String },
    /// Every row is worked through.
    Done,
}

/// What the run has to report besides the catalog.
#[derive(Debug)]
pub struct Report {
    /// The pairs of rows that gave no section: position among the pairs, and
    /// why.
    pub skipped: Vec<(usize, ScrapeError)>,
    /// Whether the table had a last row without partner.
    pub unpaired: bool,
}

/// The run over one table of sections.
#[derive(Debug)]
pub struct Scrape {
    pub titles: Titles,
    pub previous: Option<Catalog>,
    pub rows: Vec<RawSection>,
    /// The first pair not yet worked through.
    pub next: usize,
    pub catalog: Catalog,
    /// The section that waits for its course's details.
    pub pending: Option<(Header, Section)>,
    pub report: Report,
}

/// A waiting section as contracts speak of it.
pub open spec fn pending_view(pending: Option<(Header, Section)>) -> Option<
    (HeaderView, SectionView),
> {
    match pending {
        Some((header, section)) => Some((header@, section@)),
        None => None,
    }
}

/// The skipped pairs as contracts speak of them.
pub open spec fn skipped_view(skipped: Seq<(usize, ScrapeError)>) -> Seq<(int, Failure)> {
    skipped.map_values(|s: (usize, ScrapeError)| (s.0 as int, s.1@))
}

/// The pairs among the first `upto` that give no section, each with its
/// position and its failure, in order.
pub open spec fn failed_rows(rows: Seq<RawSectionView>, upto: int) -> Seq<(int, Failure)>
    decreases upto,
{
    if upto <= 0 {
        Seq::empty()
    } else {
        match section_of(rows[upto - 1]) {
            Err(e) => failed_rows(rows, upto - 1).push((upto - 1, e)),
            Ok(_) => failed_rows(rows, upto - 1),
        }
    }
}

/// The catalog with the waiting section put into it, given what the detail
/// page says of its course.
pub open spec fn resumed(
    cat: CatalogView,
    titles: Map<Seq<char>, Seq<char>>,
    header: HeaderView,
    section: SectionView,
    description: Seq<char>,
    credits: CreditsView,
) -> CatalogView {
    with_section(
        with_course(cat, titles, header, decoded(description), credits),
        header.subject,
        header.course,
        section,
    )
}

impl Scrape {
    /// The pairs of rows as contracts speak of them.
    pub open spec fn table(&self) -> Seq<RawSectionView> {
        views(self.rows@)
    }

    /// The catalog that the run ends with from here on, given what the
    /// detail pages say.
    pub open spec fn rest(&self, oracle: Oracle) -> Result<CatalogView, Failure> {
        let later = self.table().skip(self.next as int);
        match pending_view(self.pending) {
            None => scraped(
                later,
                self.catalog@,
                self.titles@,
                previous_view(self.previous),
                oracle,
            ),
            Some((header, section)) => match oracle(header.subject, header.course) {
                Err(e) => Err(e),
                Ok((description, credits)) => scraped(
                    later,
                    resumed(self.catalog@, self.titles@, header, section, description, credits),
                    self.titles@,
                    previous_view(self.previous),
                    oracle,
                ),
            },
        }
    }

    /// The run is in order: its position lies in the table, the report
    /// lists exactly the failed pairs before that position, the catalog has
    /// no code twice and keeps what the earlier catalog says, and a section
    /// waits only for a course that neither catalog holds.
    pub open spec fn wf(&self) -> bool {
        &&& self.next <= self.rows@.len()
        &&& skipped_view(self.report.skipped@) == failed_rows(self.table(), self.next as int)
        &&& self.catalog.wf()
        &&& keeps_cached(self.catalog@, previous_view(self.previous))
        &&& match pending_view(self.pending) {
            Some((header, section)) => {
                &&& !has_course(self.catalog@, header.subject, header.course)
                &&& cached(previous_view(self.previous), header.subject, header.course) is None
            },
            None => true,
        }
    }

    /// Whether two runs are over the same table, titles and earlier catalog.
    pub open spec fn same_task(&self, other: &Scrape) -> bool {
        &&& self.table() == other.table()
        &&& self.titles@ == other.titles@
        &&& previous_view(self.previous) == previous_view(other.previous)
        &&& self.report.unpaired == other.report.unpaired
    }

    /// Begins the run over `table` with an empty catalog.
    pub fn new(table: SectionTable, titles: Titles, previous: Option<Catalog>) -> (out: Scrape)
        ensures
            out.wf(),
            out.table() == views(table.sections@),
            out.titles@ == titles@,
            previous_view(out.previous) == previous_view(previous),
            out.report.unpaired == table.unpaired,
            out.next == 0,
            out.pending is None,
            out.catalog@ == Map::<Seq<char>, crate::structs::SubjectView>::empty(),
            forall|oracle: Oracle| #[trigger]
                out.rest(oracle) == scraped(
                    views(table.sections@),
                    Map::empty(),
                    titles@,
                    previous_view(previous),
                    oracle,
                ),
    {
        let out = Scrape {
            titles,
            previous,
            rows: table.sections,
            next: 0,
            catalog: Catalog::new(),
            pending: None,
            report: Report { skipped: Vec::new(), unpaired: table.unpaired },
        };
        assert(out.table().skip(0) == out.table());
        assert(skipped_view(out.report.skipped@) == Seq::<(int, Failure)>::empty());
        out
    }
}

impl Scrape {
    /// Works through the one pair at the run's position, where no section
    /// waits and the table has not ended: the pair is noted as skipped, or
    /// its section is put in place, or its section is left waiting and its
    /// course's detail page is asked for.
    fn step(&mut self) -> (asked: Option<Step>)
        requires
            old(self).wf(),
            old(self).pending is None,
            old(self).next < old(self).rows@.len(),
        ensures
            final(self).wf(),
            final(self).same_task(old(self)),
            final(self).next == old(self).next + 1,
            final(self).rows@.len() == old(self).rows@.len(),
            forall|oracle: Oracle| #[trigger] final(self).rest(oracle) == old(self).rest(oracle),
            match asked {
                None => final(self).pending is None,
                Some(Step::Done) => false,
                Some(Step::Fetch { subject, course }) => {
                    &&& pending_view(final(self).pending) matches Some((header, _))
                    &&& header.subject == subject@
                    &&& header.course == course@
                    &&& cached(previous_view(final(self).previous), subject@, course@) is None
                    &&& !has_course(final(self).catalog@, subject@, course@)
                },
            },
    {
        let i = self.next;
        let count = self.rows.len();
        assert(i < count);
        let ghost table = self.table();
        let ghost titles = self.titles@;
        let ghost previous = previous_view(self.previous);
        let ghost before = self.catalog@;
        let ghost later = table.skip(i as int);
        assert(later[0] == self.rows@[i as int]@);
        assert(later.skip(1) == table.skip(i + 1));
        assert(failed_rows(table, i + 1) == match section_of(table[i as int]) {
            Err(e) => failed_rows(table, i as int).push((i as int, e)),
            Ok(_) => failed_rows(table, i as int),
        });
        match read_section(&self.rows[i]) {
            Err(e) => {
                let ghost noted = skipped_view(self.report.skipped@);
                self.report.skipped.push((i, e));
                assert(skipped_view(self.report.skipped@) == noted.push((i as int, e@)));
                self.next = i + 1;
                assert forall|oracle: Oracle| #[trigger]
                    self.rest(oracle) == old(self).rest(oracle) by {
                    lemma_run_passes_over(later, before, titles, previous, oracle);
                }
                None
            },
            Ok((header, section)) => {
                let ghost h = header@;
                let ghost s = section@;
                match locate(&self.catalog, &header.subject, &header.course) {
                    Some((si, ci)) => {
                        push_section(&mut self.catalog, si, ci, section);
                        self.next = i + 1;
                        proof {
                            lemma_placed_keeps_cached(
                                before,
                                h,
                                s,
                                titles,
                                previous,
                                |a: Seq<char>, b: Seq<char>| Err(Failure::Parse(a)),
                            );
                        }
                        assert forall|oracle: Oracle| #[trigger]
                            self.rest(oracle) == old(self).rest(oracle) by {
                            lemma_run_places(later, before, titles, previous, oracle);
                        }
                        None
                    },
                    None => match lookup_cached(&self.previous, &header.subject, &header.course) {
                        Some((description, credits)) => {
                            let (si, ci) = push_course(
                                &mut self.catalog,
                                &self.titles,
                                &header,
                                description,
                                credits,
                            );
                            push_section(&mut self.catalog, si, ci, section);
                            self.next = i + 1;
                            proof {
                                lemma_placed_keeps_cached(
                                    before,
                                    h,
                                    s,
                                    titles,
                                    previous,
                                    |a: Seq<char>, b: Seq<char>| Err(Failure::Parse(a)),
                                );
                            }
                            assert forall|oracle: Oracle| #[trigger]
                                self.rest(oracle) == old(self).rest(oracle) by {
                                lemma_run_places(later, before, titles, previous, oracle);
                            }
                            None
                        },
                        None => {
                            let step = Step::Fetch {
                                subject: header.subject.clone(),
                                course: header.course.clone(),
                            };
                            self.pending = Some((header, section));
                            self.next = i + 1;
                            assert forall|oracle: Oracle| #[trigger]
                                self.rest(oracle) == old(self).rest(oracle) by {
                                lemma_run_places(later, before, titles, previous, oracle);
                            }
                            Some(step)
                        },
                    },
                }
            },
        }
    }

    /// Works through the rows until a course's detail page is needed or the
    /// table ends. A pair that gives no section is noted in the report and
    /// passed over; a section whose course is in the catalog, or in the
    /// earlier catalog, is put in place. While a section waits, nothing
    /// moves and the same page is asked for again. What the run will end
    /// with is never changed by this step.
    pub fn advance(&mut self) -> (step: Step)
        requires
            old(self).wf(),
        ensures
            final(self).wf(),
            final(self).same_task(old(self)),
            forall|oracle: Oracle| #[trigger] final(self).rest(oracle) == old(self).rest(oracle),
            match step {
                Step::Done => {
                    &&& final(self).pending is None
                    &&& final(self).next == final(self).rows@.len()
                },
                Step::Fetch { subject, course } => {
                    &&& pending_view(final(self).pending) matches Some((header, _))
                    &&& header.subject == subject@
                    &&& header.course == course@
                    &&& cached(previous_view(final(self).previous), subject@, course@) is None
                    &&& !has_course(final(self).catalog@, subject@, course@)
                },
            },
    {
        match &self.pending {
            Some((header, _)) => {
                return Step::Fetch {
                    subject: header.subject.clone(),
                    course: header.course.clone(),
                };
            },
            None => {},
        }
        while self.next < self.rows.len()
            invariant
                self.wf(),
                self.pending is None,
                self.same_task(old(self)),
                forall|oracle: Oracle| #[trigger] self.rest(oracle) == old(self).rest(oracle),
            decreases self.rows@.len() - self.next,
        {
            let ghost here = *self;
            match self.step() {
                Some(step) => {
                    assert forall|oracle: Oracle| #[trigger]
                        self.rest(oracle) == old(self).rest(oracle) by {
                        assert(here.rest(oracle) == old(self).rest(oracle));
                    }
                    return step;
                },
                None => {
                    assert forall|oracle: Oracle| #[trigger]
                        self.rest(oracle) == old(self).rest(oracle) by {
                        assert(here.rest(oracle) == old(self).rest(oracle));
                    }
                },
            }
        }
        Step::Done
    }

    /// Hands the run what the detail page says of the course it asked for:
    /// the course is made with the description decoded, and the waiting
    /// section is put into it. Returns whether a section was waiting; where
    /// none was, nothing changes.
    pub fn supply(&mut self, description: String, credits: Credits) -> (taken: bool)
        requires
            old(self).wf(),
        ensures
            final(self).wf(),
            final(self).same_task(old(self)),
            final(self).next == old(self).next,
            final(self).pending is None,
            taken == old(self).pending is Some,
            match pending_view(old(self).pending) {
                Some((header, section)) => final(self).catalog@ == resumed(
                    old(self).catalog@,
                    old(self).titles@,
                    header,
                    section,
                    description@,
                    credits@,
                ),
                None => final(self).catalog@ == old(self).catalog@,
            },
            forall|oracle: Oracle|
                (pending_view(old(self).pending) matches Some((header, _)) ==> oracle(
                    header.subject,
                    header.course,
                ) == Ok::<(Seq<char>, CreditsView), Failure>((description@, credits@)))
                    ==> #[trigger] final(self).rest(oracle) == old(self).rest(oracle),
    {
        let ghost before = self.catalog@;
        let ghost previous = previous_view(self.previous);
        let ghost found = (description@, credits@);
        match self.pending.take() {
            Some((header, section)) => {
                proof {
                    lemma_placed_keeps_cached(
                        before,
                        header@,
                        section@,
                        self.titles@,
                        previous,
                        |a: Seq<char>, b: Seq<char>| Ok(found),
                    );
                }
                let plain = decode(description.as_str());
                let (si, ci) = push_course(&mut self.catalog, &self.titles, &header, plain, credits);
                push_section(&mut self.catalog, si, ci, section);
                true
            },
            None => false,
        }
    }

    /// Ends the run and hands out the catalog and the report. Once the run
    /// is done, the catalog is what the whole run gives.
    pub fn finish(self) -> (out: (Catalog, Report))
        requires
            self.wf(),
        ensures
            out.0@ == self.catalog@,
            out.0.wf(),
            keeps_cached(out.0@, previous_view(self.previous)),
            out.1.unpaired == self.report.unpaired,
            skipped_view(out.1.skipped@) == failed_rows(self.table(), self.next as int),
            self.pending is None && self.next == self.rows@.len() ==> forall|oracle: Oracle| #[trigger]
                self.rest(oracle) == Ok::<CatalogView, Failure>(out.0@),
    {
        assert(self.table().skip(self.rows@.len() as int).len() == 0);
        (self.catalog, self.report)
    }
}

/// Begins the run over the table of sections and works through its rows up
/// to the first course whose detail page is needed, or to the end.
pub fn scrape_doc(table: SectionTable, titles: Titles, previous: Option<Catalog>) -> (out: (
    Scrape,
    Step,
))
    ensures
        out.0.wf(),
        out.0.table() == views(table.sections@),
        out.0.titles@ == titles@,
        previous_view(out.0.previous) == previous_view(previous),
        out.0.report.unpaired == table.unpaired,
        forall|oracle: Oracle| #[trigger]
            out.0.rest(oracle) == scraped(
                views(table.sections@),
                Map::empty(),
                titles@,
                previous_view(previous),
                oracle,
            ),
        match out.1 {
            Step::Done => {
                &&& out.0.pending is None
                &&& out.0.next == out.0.rows@.len()
            },
            Step::Fetch { subject, course } => {
                &&& pending_view(out.0.pending) matches Some((header, _))
                &&& header.subject == subject@
                &&& header.course == course@
                &&& cached(previous_view(previous), subject@, course@) is None
            },
        },
{
    let mut run = Scrape::new(table, titles, previous);
    let ghost begun = run;
    let step = run.advance();
    assert forall|oracle: Oracle| #[trigger]
        run.rest(oracle) == scraped(
            views(table.sections@),
            Map::empty(),
            titles@,
            previous_view(previous),
            oracle,
        ) by {
        assert(begun.rest(oracle) == run.rest(oracle));
    }
    (run, step)
}

/// The run over rows whose first pair gives no section is the run over the
/// rows after it.
proof fn lemma_run_passes_over(
    rows: Seq<RawSectionView>,
    cat: CatalogView,
    titles: Map<Seq<char>, Seq<char>>,
    previous: Option<CatalogView>,
    oracle: Oracle,
)
    requires
        rows.len() > 0,
        section_of(rows[0]) is Err,
    ensures
        scraped(rows, cat, titles, previous, oracle) == scraped(
            rows.skip(1),
            cat,
            titles,
            previous,
            oracle,
        ),
{
}

/// The run over rows whose first pair gives a section puts that section in
/// place and goes on with the rows after it.
proof fn lemma_run_places(
    rows: Seq<RawSectionView>,
    cat: CatalogView,
    titles: Map<Seq<char>, Seq<char>>,
    previous: Option<CatalogView>,
    oracle: Oracle,
)
    requires
        rows.len() > 0,
        section_of(rows[0]) is Ok,
    ensures
        scraped(rows, cat, titles, previous, oracle) == match placed(
            cat,
            section_of(rows[0])->Ok_0.0,
            section_of(rows[0])->Ok_0.1,
            titles,
            previous,
            oracle,
        ) {
            Err(e) => Err(e),
            Ok(next) => scraped(rows.skip(1), next, titles, previous, oracle),
        },
{
}

} // verus!
