//! The catalog tree: subjects hold courses, courses hold sections, sections
//! hold meeting times.

use crate::assoc::{
    assoc_map, is_first_index, lemma_assoc_get, lemma_assoc_push, lemma_assoc_update, views,
};
use crate::clock::valid_days;
use crate::numeral::all_digits;
use vstd::prelude::*;

verus! {

/// A decimal number as written: the digits before the point and the digits
/// after it.
#[derive(Debug)]
pub struct Decimal {
    pub whole: String,
    pub fraction: String,
}

/// A decimal number as contracts speak of it.
pub struct DecimalView {
    pub whole: Seq<char>,
    pub fraction: Seq<char>,
}

impl View for Decimal {
    type V = DecimalView;

    open spec fn view(&self) -> DecimalView {
        DecimalView { whole: self.whole@, fraction: self.fraction@ }
    }
}

impl DecimalView {
    /// Both parts are non-empty runs of ASCII digits.
    pub open spec fn wf(self) -> bool {
        &&& self.whole.len() > 0
        &&& self.fraction.len() > 0
        &&& all_digits(self.whole)
        &&& all_digits(self.fraction)
    }

    /// The number as text: the whole part, a point, the fraction.
    pub open spec fn text(self) -> Seq<char> {
        self.whole + seq!['.'] + self.fraction
    }
}

impl Decimal {
    /// A copy of this number.
    pub fn duplicate(&self) -> (out: Decimal)
        ensures
            out@ == self@,
    {
        Decimal { whole: self.whole.clone(), fraction: self.fraction.clone() }
    }

    /// The number as text: the whole part, a point, the fraction.
    pub fn to_text(&self) -> (out: String)
        ensures
            out@ == self@.text(),
    {
        let mut out = self.whole.clone();
        out.append(".");
        out.append(self.fraction.as_str());
        proof {
            reveal_strlit(".");
            assert("."@ == seq!['.']);
        }
        out
    }
}

/// The credit hours of a course: a range, both ends equal where the course
/// has one value.
#[derive(Debug)]
pub struct Credits {
    pub low: Decimal,
    pub high: Decimal,
}

/// Credit hours as contracts speak of them.
pub struct CreditsView {
    pub low: DecimalView,
    pub high: DecimalView,
}

impl View for Credits {
    type V = CreditsView;

    open spec fn view(&self) -> CreditsView {
        CreditsView { low: self.low@, high: self.high@ }
    }
}

impl Credits {
    /// A copy of these credit hours.
    pub fn duplicate(&self) -> (out: Credits)
        ensures
            out@ == self@,
    {
        Credits { low: self.low.duplicate(), high: self.high.duplicate() }
    }
}

/// One recurring meeting of a section.
#[derive(Debug)]
pub struct ScheduleItem {
    /// Start and end as `HH:MM`; absent where the time is to be announced.
    pub time: Option<(String, String)>,
    /// Ordinals of the days, Monday 1 to Sunday 7.
    pub days: Vec<u8>,
    /// Absent where the place is to be announced.
    pub location: Option<String>,
}

/// A meeting as contracts speak of it.
pub struct ScheduleItemView {
    pub time: Option<(Seq<char>, Seq<char>)>,
    pub days: Seq<u8>,
    pub location: Option<Seq<char>>,
}

impl View for ScheduleItem {
    type V = ScheduleItemView;

    open spec fn view(&self) -> ScheduleItemView {
        ScheduleItemView {
            time: match self.time {
                Some((start, end)) => Some((start@, end@)),
                None => None,
            },
            days: self.days@,
            location: match self.location {
                Some(place) => Some(place@),
                None => None,
            },
        }
    }
}

/// One scheduled offering of a course.
#[derive(Debug)]
pub struct Section {
    pub crn: usize,
    /// The instructors, each once, in the order first seen.
    pub instructors: Vec<String>,
    pub schedule: Vec<ScheduleItem>,
}

/// A section as contracts speak of it.
pub struct SectionView {
    pub crn: usize,
    pub instructors: Seq<Seq<char>>,
    pub schedule: Seq<ScheduleItemView>,
}

impl View for Section {
    type V = SectionView;

    open spec fn view(&self) -> SectionView {
        SectionView {
            crn: self.crn,
            instructors: views(self.instructors@),
            schedule: views(self.schedule@),
        }
    }
}

impl SectionView {
    /// No instructor is listed twice, and every day is an ordinal from 1 to 7.
    pub open spec fn wf(self) -> bool {
        &&& self.instructors.no_duplicates()
        &&& forall|i: int| 0 <= i < self.schedule.len() ==> valid_days(#[trigger] self.schedule[i].days)
    }
}

/// A course: what the catalog says of it, and its sections in the order met.
#[derive(Debug)]
pub struct Course {
    pub title: String,
    pub description: String,
    pub credits: Credits,
    pub sections: Vec<Section>,
}

/// A course as contracts speak of it.
pub struct CourseView {
    pub title: Seq<char>,
    pub description: Seq<char>,
    pub credits: CreditsView,
    pub sections: Seq<SectionView>,
}

impl View for Course {
    type V = CourseView;

    open spec fn view(&self) -> CourseView {
        CourseView {
            title: self.title@,
            description: self.description@,
            credits: self.credits@,
            sections: views(self.sections@),
        }
    }
}

/// A subject: its long title, where one is known, and its courses by course
/// code. Of two entries with one code the first counts.
#[derive(Debug)]
pub struct Subject {
    pub title: Option<String>,
    pub courses: Vec<(String, Course)>,
}

/// A subject as contracts speak of it.
pub struct SubjectView {
    pub title: Option<Seq<char>>,
    pub courses: Map<Seq<char>, CourseView>,
}

/// The keys of a keyed list.
pub open spec fn keys_of<V>(entries: Seq<(String, V)>) -> Seq<Seq<char>> {
    entries.map_values(|e: (String, V)| e.0@)
}

/// The values of a keyed list, as contracts speak of them.
pub open spec fn values_of<V: View>(entries: Seq<(String, V)>) -> Seq<V::V> {
    entries.map_values(|e: (String, V)| e.1@)
}

impl View for Subject {
    type V = SubjectView;

    open spec fn view(&self) -> SubjectView {
        SubjectView {
            title: match self.title {
                Some(t) => Some(t@),
                None => None,
            },
            courses: assoc_map(keys_of(self.courses@), values_of(self.courses@)),
        }
    }
}

impl Subject {
    /// No course code stands twice.
    pub open spec fn wf(&self) -> bool {
        keys_of(self.courses@).no_duplicates()
    }
}

/// The whole tree: subjects by subject code. Of two entries with one code
/// the first counts.
#[derive(Debug)]
pub struct Catalog {
    pub subjects: Vec<(String, Subject)>,
}

impl View for Catalog {
    type V = Map<Seq<char>, SubjectView>;

    open spec fn view(&self) -> Map<Seq<char>, SubjectView> {
        assoc_map(keys_of(self.subjects@), values_of(self.subjects@))
    }
}

impl Catalog {
    /// No subject code stands twice, and no course code twice in a subject.
    pub open spec fn wf(&self) -> bool {
        &&& keys_of(self.subjects@).no_duplicates()
        &&& forall|i: int| 0 <= i < self.subjects.len() ==> (#[trigger] self.subjects[i]).1.wf()
    }

    /// A catalog without subjects.
    pub fn new() -> (out: Catalog)
        ensures
            out@ == Map::<Seq<char>, SubjectView>::empty(),
            out.wf(),
            out.subjects@.len() == 0,
    {
        let out = Catalog { subjects: Vec::new() };
        assert(out@ =~= Map::<Seq<char>, SubjectView>::empty());
        out
    }
}

/// The position of the first entry with the key `key`, where there is one.
pub fn find_key<V>(entries: &Vec<(String, V)>, key: &String) -> (at: Option<usize>)
    ensures
        match at {
            Some(i) => is_first_index(keys_of(entries@), key@, i as int),
            None => !keys_of(entries@).contains(key@),
        },
{
    let mut i: usize = 0;
    while i < entries.len()
        invariant
            i <= entries.len(),
            forall|j: int| 0 <= j < i ==> keys_of(entries@)[j] != key@,
        decreases entries.len() - i,
    {
        if entries[i].0 == *key {
            return Some(i);
        }
        i += 1;
    }
    None
}

/// The map that a keyed list stands for.
pub open spec fn map_of<V: View>(entries: Seq<(String, V)>) -> Map<Seq<char>, V::V> {
    assoc_map(keys_of(entries), values_of(entries))
}

/// Puts `value` under `key`: in place of the value of the key's first entry,
/// or as a new last entry where the key is new.
pub fn put<V: View>(entries: &mut Vec<(String, V)>, key: String, value: V)
    ensures
        map_of(final(entries)@) == map_of(old(entries)@).insert(key@, value@),
        keys_of(final(entries)@) == if keys_of(old(entries)@).contains(key@) {
            keys_of(old(entries)@)
        } else {
            keys_of(old(entries)@).push(key@)
        },
{
    let ghost keys = keys_of(entries@);
    let ghost vals = values_of(entries@);
    match find_key(entries, &key) {
        Some(i) => {
            proof {
                lemma_assoc_update(keys, vals, i as int, value@);
            }
            entries.set(i, (key, value));
            assert(keys_of(entries@) == keys);
            assert(values_of(entries@) == vals.update(i as int, value@));
        },
        None => {
            proof {
                lemma_assoc_push(keys, vals, key@, value@);
            }
            entries.push((key, value));
            assert(keys_of(entries@) == keys.push(key@));
            assert(values_of(entries@) == vals.push(value@));
        },
    }
}

/// The value under `key`, where the list has the key.
pub fn get<'a, V: View>(entries: &'a Vec<(String, V)>, key: &String) -> (out: Option<&'a V>)
    ensures
        match out {
            Some(value) => map_of(entries@).dom().contains(key@) && map_of(entries@)[key@]
                == value@,
            None => !map_of(entries@).dom().contains(key@),
        },
{
    match find_key(entries, key) {
        Some(i) => {
            proof {
                lemma_assoc_get(keys_of(entries@), values_of(entries@), i as int);
            }
            Some(&entries[i].1)
        },
        None => None,
    }
}

} // verus!
