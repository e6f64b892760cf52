//! Putting courses and sections into the catalog, and looking courses up.

use crate::assoc::{
    is_first_index, lemma_assoc_get, lemma_assoc_push, lemma_assoc_update, views,
};
use crate::entity::decode;
use crate::rows::Header;
use crate::scrape::{cached, has_course, with_course, with_section, CatalogView};
use crate::structs::{
    find_key, keys_of, map_of, values_of, Catalog, Course, Credits, Section, Subject,
};
use crate::titles::Titles;
use vstd::prelude::*;

verus! {

/// An earlier catalog as contracts speak of it.
pub open spec fn previous_view(previous: Option<Catalog>) -> Option<CatalogView> {
    match previous {
        Some(cat) => Some(cat@),
        None => None,
    }
}

/// Where the catalog holds the course: the positions of the subject and of
/// the course in it.
pub fn locate(cat: &Catalog, subject: &String, course: &String) -> (out: Option<(usize, usize)>)
    ensures
        out is Some <==> has_course(cat@, subject@, course@),
        out matches Some((si, ci)) ==> {
            &&& is_first_index(keys_of(cat.subjects@), subject@, si as int)
            &&& is_first_index(keys_of(cat.subjects@[si as int].1.courses@), course@, ci as int)
        },
{
    match find_key(&cat.subjects, subject) {
        Some(si) => {
            proof {
                lemma_assoc_get(keys_of(cat.subjects@), values_of(cat.subjects@), si as int);
            }
            match find_key(&cat.subjects[si].1.courses, course) {
                Some(ci) => {
                    proof {
                        let courses = cat.subjects@[si as int].1.courses@;
                        lemma_assoc_get(keys_of(courses), values_of(courses), ci as int);
                    }
                    Some((si, ci))
                },
                None => None,
            }
        },
        None => None,
    }
}

/// Description and credit hours of a course in an earlier catalog, copied as
/// they stand there.
pub fn lookup_cached(previous: &Option<Catalog>, subject: &String, course: &String) -> (out:
    Option<(String, Credits)>)
    ensures
        match out {
            Some(found) => cached(previous_view(*previous), subject@, course@) == Some(found@),
            None => cached(previous_view(*previous), subject@, course@) is None,
        },
{
    let cat = match previous {
        Some(cat) => cat,
        None => {
            return None;
        },
    };
    match locate(cat, subject, course) {
        Some((si, ci)) => {
            proof {
                let courses = cat.subjects@[si as int].1.courses@;
                lemma_assoc_get(keys_of(cat.subjects@), values_of(cat.subjects@), si as int);
                lemma_assoc_get(keys_of(courses), values_of(courses), ci as int);
            }
            let found = &cat.subjects[si].1.courses[ci].1;
            Some((found.description.clone(), found.credits.duplicate()))
        },
        None => None,
    }
}

/// Adds `section` as the last section of the course at the given positions.
pub(crate) fn push_section(cat: &mut Catalog, si: usize, ci: usize, section: Section)
    requires
        si < old(cat).subjects@.len(),
        ci < old(cat).subjects@[si as int].1.courses@.len(),
        is_first_index(
            keys_of(old(cat).subjects@),
            old(cat).subjects@[si as int].0@,
            si as int,
        ),
        is_first_index(
            keys_of(old(cat).subjects@[si as int].1.courses@),
            old(cat).subjects@[si as int].1.courses@[ci as int].0@,
            ci as int,
        ),
    ensures
        final(cat)@ == with_section(
            old(cat)@,
            old(cat).subjects@[si as int].0@,
            old(cat).subjects@[si as int].1.courses@[ci as int].0@,
            section@,
        ),
        old(cat).wf() ==> final(cat).wf(),
{
    let ghost subjects = cat.subjects@;
    let ghost courses = subjects[si as int].1.courses@;
    proof {
        lemma_assoc_get(keys_of(subjects), values_of(subjects), si as int);
        lemma_assoc_get(keys_of(courses), values_of(courses), ci as int);
    }
    let (subject_code, mut subject) = cat.subjects.remove(si);
    let (course_code, mut course) = subject.courses.remove(ci);
    let ghost shown = views(course.sections@);
    course.sections.push(section);
    assert(views(course.sections@) == shown.push(section@));
    proof {
        lemma_assoc_update(keys_of(courses), values_of(courses), ci as int, course@);
    }
    subject.courses.insert(ci, (course_code, course));
    assert(subject.courses@ == courses.update(ci as int, (course_code, course)));
    assert(keys_of(subject.courses@) == keys_of(courses));
    assert(values_of(subject.courses@) == values_of(courses).update(ci as int, course@));
    proof {
        lemma_assoc_update(keys_of(subjects), values_of(subjects), si as int, subject@);
    }
    cat.subjects.insert(si, (subject_code, subject));
    assert(cat.subjects@ == subjects.update(si as int, (subject_code, subject)));
    assert(keys_of(cat.subjects@) == keys_of(subjects));
    assert(values_of(cat.subjects@) == values_of(subjects).update(si as int, subject@));
}

/// Adds a course that the catalog lacks, without sections, and its subject
/// where the catalog lacks that too. Hands out the positions of subject and
/// course.
pub(crate) fn push_course(
    cat: &mut Catalog,
    titles: &Titles,
    header: &Header,
    description: String,
    credits: Credits,
) -> (out: (usize, usize))
    requires
        !has_course(old(cat)@, header.subject@, header.course@),
    ensures
        final(cat)@ == with_course(old(cat)@, titles@, header@, description@, credits@),
        old(cat).wf() ==> final(cat).wf(),
        out.0 < final(cat).subjects@.len(),
        out.1 < final(cat).subjects@[out.0 as int].1.courses@.len(),
        final(cat).subjects@[out.0 as int].0@ == header.subject@,
        final(cat).subjects@[out.0 as int].1.courses@[out.1 as int].0@ == header.course@,
        is_first_index(keys_of(final(cat).subjects@), header.subject@, out.0 as int),
        is_first_index(
            keys_of(final(cat).subjects@[out.0 as int].1.courses@),
            header.course@,
            out.1 as int,
        ),
{
    let ghost subjects = cat.subjects@;
    let course = Course {
        title: decode(header.title.as_str()),
        description,
        credits,
        sections: Vec::new(),
    };
    assert(views(course.sections@) == Seq::<crate::structs::SectionView>::empty());
    match find_key(&cat.subjects, &header.subject) {
        Some(si) => {
            proof {
                lemma_assoc_get(keys_of(subjects), values_of(subjects), si as int);
            }
            let (subject_code, mut subject) = cat.subjects.remove(si);
            let ghost courses = subject.courses@;
            assert(!keys_of(courses).contains(header.course@));
            proof {
                lemma_assoc_push(keys_of(courses), values_of(courses), header.course@, course@);
            }
            let ci = subject.courses.len();
            subject.courses.push((header.course.clone(), course));
            assert(keys_of(subject.courses@) == keys_of(courses).push(header.course@));
            assert(values_of(subject.courses@) == values_of(courses).push(course@));
            proof {
                lemma_assoc_update(keys_of(subjects), values_of(subjects), si as int, subject@);
            }
            cat.subjects.insert(si, (subject_code, subject));
            assert(cat.subjects@ == subjects.update(si as int, (subject_code, subject)));
            assert(keys_of(cat.subjects@) == keys_of(subjects));
            assert(values_of(cat.subjects@) == values_of(subjects).update(si as int, subject@));
            assert(old(cat).wf() ==> final(cat).wf()) by {
                if old(cat).wf() {
                    assert(subjects[si as int].1.wf());
                    assert(keys_of(subject.courses@).no_duplicates());
                }
            }
            (si, ci)
        },
        None => {
            let title = match titles.title(&header.subject) {
                Some(t) => Some(t.clone()),
                None => None,
            };
            let mut subject = Subject { title, courses: Vec::new() };
            let ghost none = subject.courses@;
            proof {
                lemma_assoc_push(keys_of(none), values_of(none), header.course@, course@);
            }
            assert(map_of(none) =~= Map::<Seq<char>, crate::structs::CourseView>::empty());
            subject.courses.push((header.course.clone(), course));
            assert(keys_of(subject.courses@) == keys_of(none).push(header.course@));
            assert(values_of(subject.courses@) == values_of(none).push(course@));
            proof {
                lemma_assoc_push(
                    keys_of(subjects),
                    values_of(subjects),
                    header.subject@,
                    subject@,
                );
            }
            let si = cat.subjects.len();
            cat.subjects.push((header.subject.clone(), subject));
            assert(keys_of(cat.subjects@) == keys_of(subjects).push(header.subject@));
            assert(values_of(cat.subjects@) == values_of(subjects).push(subject@));
            (si, 0)
        },
    }
}

/// Adds `section` as the last section of a course that the catalog holds.
/// Where the catalog lacks the course, nothing changes and `false` comes
/// back.
pub fn add_section(cat: &mut Catalog, subject: &String, course: &String, section: Section) -> (added:
    bool)
    ensures
        added == has_course(old(cat)@, subject@, course@),
        final(cat)@ == if added {
            with_section(old(cat)@, subject@, course@, section@)
        } else {
            old(cat)@
        },
        old(cat).wf() ==> final(cat).wf(),
{
    match locate(cat, subject, course) {
        Some((si, ci)) => {
            push_section(cat, si, ci, section);
            true
        },
        None => false,
    }
}

/// Makes sure that the catalog holds the course named by `header`. A course
/// that is there stays as it is. A new course has no sections, the title of
/// `header` with its entities decoded, and description and credit hours as
/// given; its subject, where new as well, takes its title from `titles`.
/// Returns whether the course was new.
pub fn add_course(
    cat: &mut Catalog,
    titles: &Titles,
    header: &Header,
    description: String,
    credits: Credits,
) -> (added: bool)
    ensures
        added == !has_course(old(cat)@, header.subject@, header.course@),
        final(cat)@ == if added {
            with_course(old(cat)@, titles@, header@, description@, credits@)
        } else {
            old(cat)@
        },
        old(cat).wf() ==> final(cat).wf(),
        has_course(final(cat)@, header.subject@, header.course@),
{
    match locate(cat, &header.subject, &header.course) {
        Some(_) => false,
        None => {
            let at = push_course(cat, titles, header, description, credits);
            proof {
                let courses = cat.subjects@[at.0 as int].1.courses@;
                lemma_assoc_get(keys_of(cat.subjects@), values_of(cat.subjects@), at.0 as int);
                lemma_assoc_get(keys_of(courses), values_of(courses), at.1 as int);
            }
            true
        },
    }
}

/// The codes of the subjects without title among the first `upto` entries,
/// in order.
pub open spec fn untitled_among(entries: Seq<(String, Subject)>, upto: int) -> Seq<Seq<char>>
    decreases upto,
{
    if upto <= 0 {
        Seq::empty()
    } else if entries[upto - 1].1.title is None {
        untitled_among(entries, upto - 1).push(entries[upto - 1].0@)
    } else {
        untitled_among(entries, upto - 1)
    }
}

/// The codes of the subjects for which no title was known, in the order of
/// the catalog.
pub fn untitled_subjects(cat: &Catalog) -> (out: Vec<String>)
    ensures
        views(out@) == untitled_among(cat.subjects@, cat.subjects@.len() as int),
{
    let mut out: Vec<String> = Vec::new();
    let mut i: usize = 0;
    assert(views(out@) == Seq::<Seq<char>>::empty());
    while i < cat.subjects.len()
        invariant
            i <= cat.subjects.len(),
            views(out@) == untitled_among(cat.subjects@, i as int),
        decreases cat.subjects.len() - i,
    {
        if cat.subjects[i].1.title.is_none() {
            let ghost before = views(out@);
            out.push(cat.subjects[i].0.clone());
            assert(views(out@) == before.push(cat.subjects@[i as int].0@));
        }
        i += 1;
    }
    out
}

} // verus!
