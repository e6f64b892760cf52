//! What is asked of the registration system: the parameters of each request,
//! and how fast requests may follow one another.

use crate::assoc::views;
use crate::error::{outcome, Failure, ScrapeError};
use vstd::prelude::*;

verus! {

/// How fast requests may follow one another.
#[derive(Debug, Clone, Copy, PartialEq, Eq, Structural)]
pub enum RateLimit {
    /// No limit at all.
    Unlimited,
    /// So many requests a minute, and never more than `burst` at once.
    PerMinute { requests: u32, burst: u32 },
}

impl View for RateLimit {
    type V = RateLimit;

    open spec fn view(&self) -> RateLimit {
        *self
    }
}

/// The name of the setting that holds the requests per minute.
pub const RATE_SETTING: &'static str = "per_min_ratelimit";

/// The limit that the setting asks for: none where the setting is absent,
/// zero or negative; else so many requests a minute, one at a time. A number
/// that the limiter cannot hold is a configuration failure.
pub open spec fn rate_policy(per_minute: Option<i64>) -> Result<RateLimit, Failure> {
    match per_minute {
        Some(n) => if n <= 0 {
            Ok(RateLimit::Unlimited)
        } else if n <= u32::MAX {
            Ok(RateLimit::PerMinute { requests: n as u32, burst: 1 })
        } else {
            Err(Failure::Config(RATE_SETTING@))
        },
        None => Ok(RateLimit::Unlimited),
    }
}

/// Decides the rate limit of a run from its setting.
pub fn rate_limit(per_minute: Option<i64>) -> (out: Result<RateLimit, ScrapeError>)
    ensures
        outcome(out) == rate_policy(per_minute),
        out matches Ok(RateLimit::PerMinute { requests, burst }) ==> requests > 0 && burst == 1,
{
    match per_minute {
        Some(n) => {
            if n <= 0 {
                Ok(RateLimit::Unlimited)
            } else if n <= 0xffff_ffff {
                Ok(RateLimit::PerMinute { requests: n as u32, burst: 1 })
            } else {
                Err(ScrapeError::Config(RATE_SETTING.to_owned()))
            }
        },
        None => Ok(RateLimit::Unlimited),
    }
}

/// The parameters of a request as contracts speak of them.
pub open spec fn pairs_view(pairs: Seq<(String, String)>) -> Seq<(Seq<char>, Seq<char>)> {
    pairs.map_values(|p: (String, String)| (p.0@, p.1@))
}

/// Appends one parameter.
fn push_pair(out: &mut Vec<(String, String)>, name: &str, value: &str)
    ensures
        pairs_view(final(out)@) == pairs_view(old(out)@).push((name@, value@)),
{
    out.push((name.to_owned(), value.to_owned()));
    assert(pairs_view(out@) == pairs_view(old(out)@).push((name@, value@)));
}

/// The parameters that open the request for all sections: the term, and a
/// placeholder for every filter.
pub open spec fn sections_query_head(term: Seq<char>) -> Seq<(Seq<char>, Seq<char>)> {
    seq![
        ("term_in"@, term),
        ("sel_subj"@, "dummy"@),
        ("sel_day"@, "dummy"@),
        ("sel_schd"@, "dummy"@),
        ("sel_insm"@, "dummy"@),
        ("sel_camp"@, "dummy"@),
        ("sel_levl"@, "dummy"@),
        ("sel_sess"@, "dummy"@),
        ("sel_instr"@, "dummy"@),
        ("sel_ptrm"@, "dummy"@),
        ("sel_attr"@, "dummy"@),
    ]
}

/// One `sel_subj` parameter for each subject, in order.
pub open spec fn subject_parameters(subjects: Seq<Seq<char>>) -> Seq<(Seq<char>, Seq<char>)> {
    subjects.map_values(|s: Seq<char>| ("sel_subj"@, s))
}

/// The parameters that close the request for all sections: every filter
/// matches everything, and the time range is blank.
pub open spec fn sections_query_tail() -> Seq<(Seq<char>, Seq<char>)> {
    seq![
        ("sel_crse"@, ""@),
        ("sel_title"@, ""@),
        ("sel_schd"@, "%"@),
        ("sel_from_cred"@, ""@),
        ("sel_to_cred"@, ""@),
        ("sel_camp"@, "%"@),
        ("sel_levl"@, "%"@),
        ("sel_ptrm"@, "%"@),
        ("sel_instr"@, "%"@),
        ("sel_attr"@, "%"@),
        ("begin_hh"@, "0"@),
        ("begin_mi"@, "0"@),
        ("begin_ap"@, "a"@),
        ("end_hh"@, "0"@),
        ("end_mi"@, "0"@),
        ("end_ap"@, "a"@),
    ]
}

/// The parameters of the request for all sections of a term.
pub open spec fn sections_query(term: Seq<char>, subjects: Seq<Seq<char>>) -> Seq<
    (Seq<char>, Seq<char>),
> {
    sections_query_head(term) + subject_parameters(subjects) + sections_query_tail()
}

/// The parameters of the one request that asks for every section of the
/// term: all the given subjects, and no other filter.
pub fn get_sections_doc(term: &str, subjects: &Vec<String>) -> (out: Vec<(String, String)>)
    ensures
        pairs_view(out@) == sections_query(term@, views(subjects@)),
{
    let mut out: Vec<(String, String)> = Vec::new();
    assert(pairs_view(out@) == Seq::<(Seq<char>, Seq<char>)>::empty());
    push_pair(&mut out, "term_in", term);
    push_pair(&mut out, "sel_subj", "dummy");
    push_pair(&mut out, "sel_day", "dummy");
    push_pair(&mut out, "sel_schd", "dummy");
    push_pair(&mut out, "sel_insm", "dummy");
    push_pair(&mut out, "sel_camp", "dummy");
    push_pair(&mut out, "sel_levl", "dummy");
    push_pair(&mut out, "sel_sess", "dummy");
    push_pair(&mut out, "sel_instr", "dummy");
    push_pair(&mut out, "sel_ptrm", "dummy");
    push_pair(&mut out, "sel_attr", "dummy");
    assert(pairs_view(out@) == sections_query_head(term@));
    let ghost head = pairs_view(out@);
    let ghost all = views(subjects@);
    let mut i: usize = 0;
    while i < subjects.len()
        invariant
            i <= subjects.len(),
            all == views(subjects@),
            pairs_view(out@) == head + subject_parameters(all.take(i as int)),
        decreases subjects.len() - i,
    {
        push_pair(&mut out, "sel_subj", subjects[i].as_str());
        assert(subject_parameters(all.take(i + 1)) == subject_parameters(
            all.take(i as int),
        ).push(("sel_subj"@, all[i as int])));
        i += 1;
    }
    assert(all.take(subjects.len() as int) == all);
    let ghost middle = pairs_view(out@);
    push_pair(&mut out, "sel_crse", "");
    push_pair(&mut out, "sel_title", "");
    push_pair(&mut out, "sel_schd", "%");
    push_pair(&mut out, "sel_from_cred", "");
    push_pair(&mut out, "sel_to_cred", "");
    push_pair(&mut out, "sel_camp", "%");
    push_pair(&mut out, "sel_levl", "%");
    push_pair(&mut out, "sel_ptrm", "%");
    push_pair(&mut out, "sel_instr", "%");
    push_pair(&mut out, "sel_attr", "%");
    push_pair(&mut out, "begin_hh", "0");
    push_pair(&mut out, "begin_mi", "0");
    push_pair(&mut out, "begin_ap", "a");
    push_pair(&mut out, "end_hh", "0");
    push_pair(&mut out, "end_mi", "0");
    push_pair(&mut out, "end_ap", "a");
    assert(pairs_view(out@) == middle + sections_query_tail());
    out
}

/// The parameters of the request for the course search page of a term.
pub open spec fn search_query(term: Seq<char>) -> Seq<(Seq<char>, Seq<char>)> {
    seq![("p_calling_proc"@, "bwckschd.p_disp_dyn_sched"@), ("p_term"@, term)]
}

/// The parameters of the request for the course search page, which lists
/// the subjects of the term.
pub fn subject_search_query(term: &str) -> (out: Vec<(String, String)>)
    ensures
        pairs_view(out@) == search_query(term@),
{
    let mut out: Vec<(String, String)> = Vec::new();
    assert(pairs_view(out@) == Seq::<(Seq<char>, Seq<char>)>::empty());
    push_pair(&mut out, "p_calling_proc", "bwckschd.p_disp_dyn_sched");
    push_pair(&mut out, "p_term", term);
    assert(pairs_view(out@) == search_query(term@));
    out
}

/// The parameters of the request for the detail page of a course.
pub open spec fn details_query(term: Seq<char>, subject: Seq<char>, course: Seq<char>) -> Seq<
    (Seq<char>, Seq<char>),
> {
    seq![("cat_term_in"@, term), ("subj_code_in"@, subject), ("crse_numb_in"@, course)]
}

/// The parameters of the request for the detail page of one course.
pub fn course_details_query(term: &str, subject: &str, course: &str) -> (out: Vec<
    (String, String),
>)
    ensures
        pairs_view(out@) == details_query(term@, subject@, course@),
{
    let mut out: Vec<(String, String)> = Vec::new();
    assert(pairs_view(out@) == Seq::<(Seq<char>, Seq<char>)>::empty());
    push_pair(&mut out, "cat_term_in", term);
    push_pair(&mut out, "subj_code_in", subject);
    push_pair(&mut out, "crse_numb_in", course);
    assert(pairs_view(out@) == details_query(term@, subject@, course@));
    out
}

} // verus!
