//! The rules for one section: its header line and its meeting-time rows.

use crate::assoc::views;
use crate::clock::{day_ordinals, days_of, fix_time, fixed_time, valid_days};
use crate::entity::{decode, decoded};
use crate::error::{outcome, Failure, ScrapeError};
use crate::numeral::{parse_usize, usize_value};
use crate::pattern::{
    captures, found_view, group, group_text, groups_view, pattern_captures, pattern_compiles,
};
use crate::structs::{ScheduleItem, ScheduleItemView};
use crate::text::{chars_of, same_text};
use vstd::prelude::*;

verus! {

/// The shape of a header line: title, five-digit reference number, subject
/// code and course code, set apart by dashes, then anything.
pub const LINE_PATTERN: &'static str = "(.*) - (\\d{5}) - ([A-Z]{4}) (\\d{4}[A-Z]?) - .*";

/// The shape of a meeting time: start and end on the 12-hour clock.
pub const TIME_PATTERN: &'static str = "(\\d?\\d):(\\d\\d) (am|pm) - (\\d?\\d):(\\d\\d) (am|pm)";

/// What a header line says of its section.
#[derive(Debug)]
pub struct Header {
    /// The course title as written, entities not yet decoded.
    pub title: String,
    pub crn: usize,
    pub subject: String,
    pub course: String,
}

/// A header as contracts speak of it.
pub struct HeaderView {
    pub title: Seq<char>,
    pub crn: usize,
    pub subject: Seq<char>,
    pub course: Seq<char>,
}

impl View for Header {
    type V = HeaderView;

    open spec fn view(&self) -> HeaderView {
        HeaderView {
            title: self.title@,
            crn: self.crn,
            subject: self.subject@,
            course: self.course@,
        }
    }
}

/// The header that the groups of a matched header line give: groups 1 to 4
/// are title, reference number, subject and course. A line that did not
/// match, a missing group, or a reference number that is no numeral, is a
/// parse failure.
pub open spec fn header_from_groups(found: Option<Seq<Option<Seq<char>>>>) -> Result<
    HeaderView,
    Failure,
> {
    match found {
        None => Err(Failure::Parse("line parse"@)),
        Some(groups) => match (
            group_text(groups, 1),
            group_text(groups, 2),
            group_text(groups, 3),
            group_text(groups, 4),
        ) {
            (Some(title), Some(crn), Some(subject), Some(course)) => match usize_value(crn) {
                Some(n) => Ok(HeaderView { title, crn: n, subject, course }),
                None => Err(Failure::Parse("line parse"@)),
            },
            _ => Err(Failure::Parse("line parse"@)),
        },
    }
}

/// The header that a row's link text gives: a row without a link is a
/// not-found failure, and the text is read by the header pattern.
pub open spec fn header_of(link: Option<Seq<char>>) -> Result<HeaderView, Failure> {
    match link {
        None => Err(Failure::NotFound("line find"@)),
        Some(text) => if pattern_compiles(LINE_PATTERN@) {
            header_from_groups(pattern_captures(LINE_PATTERN@, text))
        } else {
            Err(Failure::Pattern(LINE_PATTERN@))
        },
    }
}

/// Reads the header out of the groups of a matched header line.
pub fn header_from_captures(found: &Option<Vec<Option<String>>>) -> (out: Result<
    Header,
    ScrapeError,
>)
    ensures
        outcome(out) == header_from_groups(found_view(*found)),
{
    let groups = match found {
        Some(groups) => groups,
        None => {
            return Err(ScrapeError::Parse("line parse".to_owned()));
        },
    };
    match (group(groups, 1), group(groups, 2), group(groups, 3), group(groups, 4)) {
        (Some(title), Some(crn), Some(subject), Some(course)) => {
            let digits = chars_of(crn.as_str());
            match parse_usize(&digits) {
                Some(n) => Ok(
                    Header {
                        title: title.clone(),
                        crn: n,
                        subject: subject.clone(),
                        course: course.clone(),
                    },
                ),
                None => Err(ScrapeError::Parse("line parse".to_owned())),
            }
        },
        _ => Err(ScrapeError::Parse("line parse".to_owned())),
    }
}

/// Reads a section's header from the text of the header row's link: title,
/// reference number, subject code and course code.
pub fn scrape_line(link: Option<&str>) -> (out: Result<Header, ScrapeError>)
    ensures
        outcome(out) == header_of(
            match link {
                Some(text) => Some(text@),
                None => None,
            },
        ),
{
    let text = match link {
        Some(text) => text,
        None => {
            return Err(ScrapeError::NotFound("line find".to_owned()));
        },
    };
    match captures(LINE_PATTERN, text) {
        Ok(found) => header_from_captures(&found),
        Err(_) => Err(ScrapeError::Pattern(LINE_PATTERN.to_owned())),
    }
}

/// The word for a time or place still to be announced.
pub const TO_BE_ANNOUNCED: &'static str = "TBA";

/// The start and end that the groups of a matched meeting time give: groups
/// 1 to 3 are the start's hours, minutes and meridiem, groups 4 to 6 the
/// end's.
pub open spec fn time_from_groups(found: Option<Seq<Option<Seq<char>>>>) -> Result<
    Option<(Seq<char>, Seq<char>)>,
    Failure,
> {
    match found {
        None => Err(Failure::Parse("time parse"@)),
        Some(groups) => match (
            group_text(groups, 1),
            group_text(groups, 2),
            group_text(groups, 3),
            group_text(groups, 4),
            group_text(groups, 5),
            group_text(groups, 6),
        ) {
            (Some(from_hrs), Some(from_mins), Some(from_half), Some(to_hrs), Some(to_mins), Some(to_half)) => match fixed_time(
                from_hrs,
                from_mins,
                from_half,
            ) {
                None => Err(Failure::Format(from_hrs)),
                Some(start) => match fixed_time(to_hrs, to_mins, to_half) {
                    None => Err(Failure::Format(to_hrs)),
                    Some(end) => Ok(Some((start, end))),
                },
            },
            _ => Err(Failure::Parse("time parse"@)),
        },
    }
}

/// The meeting time that the text of a time column gives: absent where the
/// time is to be announced, else start and end on the 24-hour dial.
pub open spec fn meeting_time(text: Seq<char>) -> Result<Option<(Seq<char>, Seq<char>)>, Failure> {
    if text == TO_BE_ANNOUNCED@ {
        Ok(None)
    } else if pattern_compiles(TIME_PATTERN@) {
        time_from_groups(pattern_captures(TIME_PATTERN@, text))
    } else {
        Err(Failure::Pattern(TIME_PATTERN@))
    }
}

/// A meeting time as contracts speak of it.
pub open spec fn time_view(time: Option<(String, String)>) -> Option<(Seq<char>, Seq<char>)> {
    match time {
        Some((start, end)) => Some((start@, end@)),
        None => None,
    }
}

/// The outcome of reading a meeting time, as contracts speak of it.
pub open spec fn time_outcome(r: Result<Option<(String, String)>, ScrapeError>) -> Result<
    Option<(Seq<char>, Seq<char>)>,
    Failure,
> {
    match r {
        Ok(time) => Ok(time_view(time)),
        Err(e) => Err(e@),
    }
}

/// Reads start and end out of the groups of a matched meeting time.
pub fn time_from_captures(found: &Option<Vec<Option<String>>>) -> (out: Result<
    Option<(String, String)>,
    ScrapeError,
>)
    ensures
        time_outcome(out) == time_from_groups(found_view(*found)),
{
    let groups = match found {
        Some(groups) => groups,
        None => {
            return Err(ScrapeError::Parse("time parse".to_owned()));
        },
    };
    match (
        group(groups, 1),
        group(groups, 2),
        group(groups, 3),
        group(groups, 4),
        group(groups, 5),
        group(groups, 6),
    ) {
        (Some(from_hrs), Some(from_mins), Some(from_half), Some(to_hrs), Some(to_mins), Some(to_half)) => {
            let start = match fix_time(from_hrs.as_str(), from_mins.as_str(), from_half.as_str()) {
                Ok(t) => t,
                Err(e) => {
                    return Err(e);
                },
            };
            let end = match fix_time(to_hrs.as_str(), to_mins.as_str(), to_half.as_str()) {
                Ok(t) => t,
                Err(e) => {
                    return Err(e);
                },
            };
            Ok(Some((start, end)))
        },
        _ => Err(ScrapeError::Parse("time parse".to_owned())),
    }
}

/// Reads the time column of a meeting row.
pub fn parse_time(text: &str) -> (out: Result<Option<(String, String)>, ScrapeError>)
    ensures
        time_outcome(out) == meeting_time(text@),
{
    if same_text(text, TO_BE_ANNOUNCED) {
        return Ok(None);
    }
    match captures(TIME_PATTERN, text) {
        Ok(found) => time_from_captures(&found),
        Err(_) => Err(ScrapeError::Pattern(TIME_PATTERN.to_owned())),
    }
}

/// What the rules read of one cell of a meeting row.
#[derive(Debug)]
pub struct Cell {
    /// The first piece of text inside the cell, if it holds any.
    pub text: Option<String>,
    /// The cell's content as markup.
    pub markup: String,
    /// For each link inside the cell, in order, its `target` attribute.
    pub link_targets: Vec<Option<String>>,
}

/// A cell as contracts speak of it.
pub struct CellView {
    pub text: Option<Seq<char>>,
    pub markup: Seq<char>,
    pub link_targets: Seq<Option<Seq<char>>>,
}

impl View for Cell {
    type V = CellView;

    open spec fn view(&self) -> CellView {
        CellView {
            text: match self.text {
                Some(t) => Some(t@),
                None => None,
            },
            markup: self.markup@,
            link_targets: groups_view(self.link_targets@),
        }
    }
}

/// The rows of a table as contracts speak of them.
pub open spec fn rows_view(rows: Seq<Vec<Cell>>) -> Seq<Seq<CellView>> {
    rows.map_values(|r: Vec<Cell>| views(r@))
}

/// The cell of column `i` of a meeting row. The row's first cell is not a
/// column: column 0 is the time, 1 the days, 2 the place, 3 the date range,
/// 4 the schedule type and 5 the instructors.
pub open spec fn column(cells: Seq<CellView>, i: int) -> Option<CellView> {
    if 0 <= i && i + 1 < cells.len() {
        Some(cells[i + 1])
    } else {
        None
    }
}

/// The place that the text of a place column gives: absent where it is to be
/// announced, else the text with its entities decoded.
pub open spec fn meeting_place(text: Seq<char>) -> Option<Seq<char>> {
    if decoded(text) == TO_BE_ANNOUNCED@ {
        None
    } else {
        Some(decoded(text))
    }
}

/// The meeting that a row gives: time, days and place from columns 0 to 2.
/// A missing column, or a time or place column without text, is a not-found
/// failure named after the column.
pub open spec fn row_meeting(cells: Seq<CellView>) -> Result<ScheduleItemView, Failure> {
    match column(cells, 0) {
        None => Err(Failure::NotFound("time"@)),
        Some(time_cell) => match time_cell.text {
            None => Err(Failure::NotFound("time"@)),
            Some(time_text) => match meeting_time(time_text) {
                Err(e) => Err(e),
                Ok(time) => match column(cells, 1) {
                    None => Err(Failure::NotFound("days"@)),
                    Some(days_cell) => match column(cells, 2) {
                        None => Err(Failure::NotFound("location"@)),
                        Some(place_cell) => match place_cell.text {
                            None => Err(Failure::NotFound("location text"@)),
                            Some(place_text) => Ok(
                                ScheduleItemView {
                                    time,
                                    days: day_ordinals(days_cell.markup),
                                    location: meeting_place(place_text),
                                },
                            ),
                        },
                    },
                },
            },
        },
    }
}

/// The `target` attributes of the links in a row's instructors column. The
/// date range and the schedule type are not read, but a row without them, or
/// without the instructors column, is a not-found failure.
pub open spec fn row_targets(cells: Seq<CellView>) -> Result<Seq<Option<Seq<char>>>, Failure> {
    if column(cells, 3) is None {
        Err(Failure::NotFound("date range"@))
    } else if column(cells, 4) is None {
        Err(Failure::NotFound("sched type"@))
    } else {
        match column(cells, 5) {
            None => Err(Failure::NotFound("instructors"@)),
            Some(cell) => Ok(cell.link_targets),
        }
    }
}

/// `names` with `name` added at the end, unless it is there already.
pub open spec fn with_member(names: Seq<Seq<char>>, name: Seq<char>) -> Seq<Seq<char>> {
    if names.contains(name) {
        names
    } else {
        names.push(name)
    }
}

/// `names` with each target added in order; a link without target is a
/// not-found failure.
pub open spec fn with_targets(names: Seq<Seq<char>>, targets: Seq<Option<Seq<char>>>) -> Result<
    Seq<Seq<char>>,
    Failure,
>
    decreases targets.len(),
{
    if targets.len() == 0 {
        Ok(names)
    } else {
        match targets[0] {
            None => Err(Failure::NotFound("instructor name"@)),
            Some(name) => with_targets(with_member(names, name), targets.skip(1)),
        }
    }
}

/// The meetings and instructors that `rows` add to those gathered so far.
/// The first failure of any row is the failure of the whole.
pub open spec fn schedule_rows(
    rows: Seq<Seq<CellView>>,
    items: Seq<ScheduleItemView>,
    names: Seq<Seq<char>>,
) -> Result<(Seq<ScheduleItemView>, Seq<Seq<char>>), Failure>
    decreases rows.len(),
{
    if rows.len() == 0 {
        Ok((items, names))
    } else {
        match row_meeting(rows[0]) {
            Err(e) => Err(e),
            Ok(item) => match row_targets(rows[0]) {
                Err(e) => Err(e),
                Ok(targets) => match with_targets(names, targets) {
                    Err(e) => Err(e),
                    Ok(more) => schedule_rows(rows.skip(1), items.push(item), more),
                },
            },
        }
    }
}

/// The schedule and the instructors of a section. A section without a
/// meeting table has neither; otherwise the table's first row is its
/// heading, and every further row is one meeting.
pub open spec fn section_schedule(body: Option<Seq<Seq<CellView>>>) -> Result<
    (Seq<ScheduleItemView>, Seq<Seq<char>>),
    Failure,
> {
    match body {
        None => Ok((Seq::empty(), Seq::empty())),
        Some(rows) => if rows.len() == 0 {
            Ok((Seq::empty(), Seq::empty()))
        } else {
            schedule_rows(rows.skip(1), Seq::empty(), Seq::empty())
        },
    }
}

/// The outcome of reading a section's body, as contracts speak of it.
pub open spec fn schedule_outcome(r: Result<(Vec<ScheduleItem>, Vec<String>), ScrapeError>) -> Result<
    (Seq<ScheduleItemView>, Seq<Seq<char>>),
    Failure,
> {
    match r {
        Ok((items, names)) => Ok((views(items@), views(names@))),
        Err(e) => Err(e@),
    }
}

/// The cell of column `i` of a meeting row.
fn column_of(cells: &Vec<Cell>, i: usize) -> (out: Option<&Cell>)
    requires
        i < 8,
    ensures
        match out {
            Some(cell) => column(views(cells@), i as int) == Some(cell@),
            None => column(views(cells@), i as int) is None,
        },
{
    if i + 1 < cells.len() {
        Some(&cells[i + 1])
    } else {
        None
    }
}

/// Reads time, days and place of one meeting row.
pub fn meeting_of_row(cells: &Vec<Cell>) -> (out: Result<ScheduleItem, ScrapeError>)
    ensures
        outcome(out) == row_meeting(views(cells@)),
        out matches Ok(item) ==> valid_days(item.days@),
{
    let time_cell = match column_of(cells, 0) {
        Some(cell) => cell,
        None => {
            return Err(ScrapeError::NotFound("time".to_owned()));
        },
    };
    let time_text = match &time_cell.text {
        Some(text) => text,
        None => {
            return Err(ScrapeError::NotFound("time".to_owned()));
        },
    };
    let time = match parse_time(time_text.as_str()) {
        Ok(time) => time,
        Err(e) => {
            return Err(e);
        },
    };
    let days_cell = match column_of(cells, 1) {
        Some(cell) => cell,
        None => {
            return Err(ScrapeError::NotFound("days".to_owned()));
        },
    };
    let place_cell = match column_of(cells, 2) {
        Some(cell) => cell,
        None => {
            return Err(ScrapeError::NotFound("location".to_owned()));
        },
    };
    let place_text = match &place_cell.text {
        Some(text) => text,
        None => {
            return Err(ScrapeError::NotFound("location text".to_owned()));
        },
    };
    let place = decode(place_text.as_str());
    let location = if same_text(place.as_str(), TO_BE_ANNOUNCED) {
        None
    } else {
        Some(place)
    };
    Ok(ScheduleItem { time, days: days_of(days_cell.markup.as_str()), location })
}

/// Adds `name` to `names` unless it is there already.
pub fn add_member(names: &mut Vec<String>, name: String)
    ensures
        views(final(names)@) == with_member(views(old(names)@), name@),
{
    let mut i: usize = 0;
    while i < names.len()
        invariant
            i <= names.len(),
            *names == *old(names),
            forall|j: int| 0 <= j < i ==> views(names@)[j] != name@,
        decreases names.len() - i,
    {
        if names[i] == name {
            assert(views(names@)[i as int] == name@);
            return ;
        }
        i += 1;
    }
    names.push(name);
    assert(views(names@) == views(old(names)@).push(name@));
}

/// Adds the targets of a row's instructor links to `names`.
pub fn add_targets(names: &mut Vec<String>, targets: &Vec<Option<String>>) -> (out: Result<
    (),
    ScrapeError,
>)
    ensures
        match out {
            Ok(_) => with_targets(views(old(names)@), groups_view(targets@)) == Ok::<
                Seq<Seq<char>>,
                Failure,
            >(views(final(names)@)),
            Err(e) => with_targets(views(old(names)@), groups_view(targets@)) == Err::<
                Seq<Seq<char>>,
                Failure,
            >(e@),
        },
{
    let ghost all = groups_view(targets@);
    let mut i: usize = 0;
    assert(all.skip(0) == all);
    while i < targets.len()
        invariant
            i <= targets.len(),
            all == groups_view(targets@),
            with_targets(views(names@), all.skip(i as int)) == with_targets(
                views(old(names)@),
                all,
            ),
        decreases targets.len() - i,
    {
        assert(all.skip(i as int)[0] == all[i as int]);
        assert(all.skip(i as int).skip(1) == all.skip(i + 1));
        match &targets[i] {
            Some(name) => {
                add_member(names, name.clone());
            },
            None => {
                return Err(ScrapeError::NotFound("instructor name".to_owned()));
            },
        }
        i += 1;
    }
    assert(all.skip(targets.len() as int).len() == 0);
    Ok(())
}

/// The targets of the links in a row's instructors column.
pub fn targets_of_row(cells: &Vec<Cell>) -> (out: Result<&Vec<Option<String>>, ScrapeError>)
    ensures
        match out {
            Ok(targets) => row_targets(views(cells@)) == Ok::<Seq<Option<Seq<char>>>, Failure>(
                groups_view(targets@),
            ),
            Err(e) => row_targets(views(cells@)) == Err::<Seq<Option<Seq<char>>>, Failure>(e@),
        },
{
    if column_of(cells, 3).is_none() {
        return Err(ScrapeError::NotFound("date range".to_owned()));
    }
    if column_of(cells, 4).is_none() {
        return Err(ScrapeError::NotFound("sched type".to_owned()));
    }
    match column_of(cells, 5) {
        Some(cell) => Ok(&cell.link_targets),
        None => Err(ScrapeError::NotFound("instructors".to_owned())),
    }
}

/// Reads the meeting table of a section's body row: its schedule, one entry
/// per meeting row, and the set of its instructors. Any failure discards the
/// whole section.
pub fn scrape_body(body: Option<&Vec<Vec<Cell>>>) -> (out: Result<
    (Vec<ScheduleItem>, Vec<String>),
    ScrapeError,
>)
    ensures
        schedule_outcome(out) == section_schedule(
            match body {
                Some(rows) => Some(rows_view(rows@)),
                None => None,
            },
        ),
        out matches Ok((items, names)) ==> {
            &&& views(names@).no_duplicates()
            &&& forall|i: int| 0 <= i < items.len() ==> valid_days(#[trigger] items[i].days@)
        },
{
    let mut items: Vec<ScheduleItem> = Vec::new();
    let mut names: Vec<String> = Vec::new();
    assert(views(items@) == Seq::<ScheduleItemView>::empty());
    assert(views(names@) == Seq::<Seq<char>>::empty());
    let rows = match body {
        Some(rows) => rows,
        None => {
            return Ok((items, names));
        },
    };
    if rows.len() == 0 {
        return Ok((items, names));
    }
    let ghost all = rows_view(rows@);
    let mut i: usize = 1;
    while i < rows.len()
        invariant
            1 <= i <= rows.len(),
            body == Some(rows),
            all == rows_view(rows@),
            schedule_rows(all.skip(i as int), views(items@), views(names@)) == schedule_rows(
                all.skip(1),
                Seq::empty(),
                Seq::empty(),
            ),
            views(names@).no_duplicates(),
            forall|j: int| 0 <= j < items.len() ==> valid_days(#[trigger] items[j].days@),
        decreases rows.len() - i,
    {
        assert(all.skip(i as int)[0] == views(rows[i as int]@));
        assert(all.skip(i as int).skip(1) == all.skip(i + 1));
        let ghost rest = all.skip(i as int);
        let ghost shown = views(items@);
        let ghost before = views(names@);
        assert(rest.len() > 0);
        let item = match meeting_of_row(&rows[i]) {
            Ok(item) => item,
            Err(e) => {
                assert(schedule_rows(rest, shown, before) == Err::<
                    (Seq<ScheduleItemView>, Seq<Seq<char>>),
                    Failure,
                >(e@));
                return Err(e);
            },
        };
        let targets = match targets_of_row(&rows[i]) {
            Ok(targets) => targets,
            Err(e) => {
                assert(schedule_rows(rest, shown, before) == Err::<
                    (Seq<ScheduleItemView>, Seq<Seq<char>>),
                    Failure,
                >(e@));
                return Err(e);
            },
        };
        match add_targets(&mut names, targets) {
            Ok(_) => {},
            Err(e) => {
                assert(schedule_rows(rest, shown, before) == Err::<
                    (Seq<ScheduleItemView>, Seq<Seq<char>>),
                    Failure,
                >(e@));
                return Err(e);
            },
        }
        assert(schedule_rows(rest, shown, before) == schedule_rows(
            rest.skip(1),
            shown.push(item@),
            views(names@),
        ));
        proof {
            lemma_with_targets_distinct(before, groups_view(targets@));
        }
        items.push(item);
        assert(views(items@) == shown.push(item@));
        i += 1;
    }
    assert(all.skip(rows.len() as int).len() == 0);
    Ok((items, names))
}

/// Adding targets to names that are distinct leaves them distinct.
pub proof fn lemma_with_targets_distinct(names: Seq<Seq<char>>, targets: Seq<Option<Seq<char>>>)
    requires
        names.no_duplicates(),
    ensures
        with_targets(names, targets) matches Ok(more) ==> more.no_duplicates(),
    decreases targets.len(),
{
    if targets.len() > 0 {
        match targets[0] {
            None => {},
            Some(name) => {
                lemma_with_targets_distinct(with_member(names, name), targets.skip(1));
            },
        }
    }
}

/// Whether `name` is the target of a link in the instructors column of one
/// of the rows.
pub open spec fn is_row_target(rows: Seq<Seq<CellView>>, name: Seq<char>) -> bool {
    exists|i: int, k: int|
        0 <= i < rows.len() && 0 <= k < (#[trigger] row_targets(rows[i]))->Ok_0.len()
            && row_targets(rows[i]) is Ok && #[trigger] row_targets(rows[i])->Ok_0[k] == Some(
            name,
        )
}

/// The names after targets were added are the names before and the targets,
/// and nothing else; and every target was there to add.
pub proof fn lemma_with_targets_members(names: Seq<Seq<char>>, targets: Seq<Option<Seq<char>>>)
    ensures
        with_targets(names, targets) matches Ok(more) ==> {
            &&& forall|k: int| 0 <= k < targets.len() ==> (#[trigger] targets[k]) is Some
            &&& forall|n: Seq<char>|
                more.contains(n) <==> names.contains(n) || targets.contains(Some(n))
        },
    decreases targets.len(),
{
    if targets.len() > 0 {
        match targets[0] {
            None => {},
            Some(first) => {
                let next = with_member(names, first);
                let rest = targets.skip(1);
                lemma_with_targets_members(next, rest);
                match with_targets(next, rest) {
                    Err(_) => {},
                    Ok(more) => {
                        assert forall|k: int| 0 <= k < targets.len() implies (
                        #[trigger] targets[k]) is Some by {
                            if k > 0 {
                                assert(rest[k - 1] == targets[k]);
                            }
                        }
                        assert forall|n: Seq<char>|
                            more.contains(n) <==> names.contains(n) || targets.contains(
                                Some(n),
                            ) by {
                            if names.contains(n) {
                                let i = choose|i: int| 0 <= i < names.len() && names[i] == n;
                                assert(next.contains(n)) by {
                                    if !names.contains(first) {
                                        assert(names.push(first)[i] == n);
                                    }
                                }
                            }
                            if next.contains(n) && !names.contains(n) {
                                let i = choose|i: int| 0 <= i < next.len() && next[i] == n;
                                assert(n == first);
                                assert(targets[0] == Some(n));
                            }
                            if n == first {
                                assert(next.contains(n)) by {
                                    if !names.contains(first) {
                                        assert(names.push(first)[names.len() as int] == first);
                                    }
                                }
                                assert(targets[0] == Some(n));
                            }
                            if rest.contains(Some(n)) {
                                let k = choose|k: int| 0 <= k < rest.len() && rest[k] == Some(n);
                                assert(targets[k + 1] == Some(n));
                            }
                            if targets.contains(Some(n)) {
                                let k = choose|k: int|
                                    0 <= k < targets.len() && targets[k] == Some(n);
                                if k > 0 {
                                    assert(rest[k - 1] == Some(n));
                                }
                            }
                        }
                    },
                }
            },
        }
    }
}

/// Every data row gives one meeting: the schedule after the rows is the
/// schedule before them and then, row by row and in order, the meeting of
/// each row.
pub proof fn law_one_meeting_per_row(
    rows: Seq<Seq<CellView>>,
    items: Seq<ScheduleItemView>,
    names: Seq<Seq<char>>,
)
    ensures
        schedule_rows(rows, items, names) matches Ok((all, _)) ==> {
            &&& all.len() == items.len() + rows.len()
            &&& forall|i: int| 0 <= i < items.len() ==> all[i] == items[i]
            &&& forall|i: int|
                0 <= i < rows.len() ==> row_meeting(#[trigger] rows[i]) == Ok::<
                    ScheduleItemView,
                    Failure,
                >(all[items.len() + i])
        },
    decreases rows.len(),
{
    if rows.len() > 0 {
        match (row_meeting(rows[0]), row_targets(rows[0])) {
            (Ok(item), Ok(targets)) => {
                match with_targets(names, targets) {
                    Ok(more) => {
                        law_one_meeting_per_row(rows.skip(1), items.push(item), more);
                        match schedule_rows(rows.skip(1), items.push(item), more) {
                            Ok((all, _)) => {
                                assert forall|i: int| 0 <= i < items.len() implies all[i]
                                    == items[i] by {
                                    assert(items.push(item)[i] == items[i]);
                                }
                                assert forall|i: int| 0 <= i < rows.len() implies row_meeting(
                                    #[trigger] rows[i],
                                ) == Ok::<ScheduleItemView, Failure>(all[items.len() + i]) by {
                                    if i == 0 {
                                        assert(items.push(item)[items.len() as int] == item);
                                    } else {
                                        assert(rows.skip(1)[i - 1] == rows[i]);
                                    }
                                }
                            },
                            Err(_) => {},
                        }
                    },
                    Err(_) => {},
                }
            },
            _ => {},
        }
    }
}

/// The instructors after the rows are those before them and the targets of
/// the links in the rows' instructors columns, and no one else.
pub proof fn law_instructors_are_the_link_targets(
    rows: Seq<Seq<CellView>>,
    items: Seq<ScheduleItemView>,
    names: Seq<Seq<char>>,
)
    ensures
        schedule_rows(rows, items, names) matches Ok((_, all)) ==> forall|n: Seq<char>|
            all.contains(n) <==> names.contains(n) || is_row_target(rows, n),
    decreases rows.len(),
{
    match schedule_rows(rows, items, names) {
        Err(_) => {},
        Ok((_, all)) => {
            if rows.len() == 0 {
                assert forall|n: Seq<char>| !is_row_target(rows, n) by {}
            } else {
                let item = row_meeting(rows[0])->Ok_0;
                let targets = row_targets(rows[0])->Ok_0;
                let more = with_targets(names, targets)->Ok_0;
                let rest = rows.skip(1);
                lemma_with_targets_members(names, targets);
                law_instructors_are_the_link_targets(rest, items.push(item), more);
                assert forall|n: Seq<char>|
                    all.contains(n) <==> names.contains(n) || is_row_target(rows, n) by {
                    if targets.contains(Some(n)) {
                        let k = choose|k: int| 0 <= k < targets.len() && targets[k] == Some(n);
                        assert(row_targets(rows[0])->Ok_0[k] == Some(n));
                        assert(is_row_target(rows, n));
                    }
                    if is_row_target(rest, n) {
                        let (i, k) = choose|i: int, k: int|
                            0 <= i < rest.len() && 0 <= k < (#[trigger] row_targets(
                                rest[i],
                            ))->Ok_0.len() && row_targets(rest[i]) is Ok && #[trigger] row_targets(
                                rest[i],
                            )->Ok_0[k] == Some(n);
                        assert(rest[i] == rows[i + 1]);
                        assert(row_targets(rows[i + 1])->Ok_0[k] == Some(n));
                        assert(is_row_target(rows, n));
                    }
                    if is_row_target(rows, n) {
                        let (i, k) = choose|i: int, k: int|
                            0 <= i < rows.len() && 0 <= k < (#[trigger] row_targets(
                                rows[i],
                            ))->Ok_0.len() && row_targets(rows[i]) is Ok && #[trigger] row_targets(
                                rows[i],
                            )->Ok_0[k] == Some(n);
                        if i == 0 {
                            assert(targets[k] == Some(n));
                        } else {
                            assert(rest[i - 1] == rows[i]);
                            assert(row_targets(rest[i - 1])->Ok_0[k] == Some(n));
                            assert(is_row_target(rest, n));
                        }
                    }
                }
            }
        },
    }
}

} // verus!
