//! Subject titles: the long name of each subject code, from the course
//! search page and the bulletin home page.

use crate::assoc::views;
use crate::entity::{decode, decoded};
use crate::error::{outcome, Failure, ScrapeError};
use crate::pattern::{
    captures, found_view, group, group_text, pattern_captures, pattern_compiles,
};
use crate::structs::{get, keys_of, map_of, put};
use vstd::prelude::*;

verus! {

/// The shape of a subject option: four capital letters, a dash, the title.
pub const SUBJECT_PATTERN: &'static str = "([A-Z]{4})\\s*[-\u{2013}]\\s*(.*)";

/// What stands before the fragment in the failure for an option that is no
/// subject.
pub const NO_SUBJECT: &'static str = "Could not parse subject: ";

/// Subject titles by subject code. Of two entries with one code the first
/// counts.
#[derive(Debug)]
pub struct Titles {
    pub entries: Vec<(String, String)>,
}

impl View for Titles {
    type V = Map<Seq<char>, Seq<char>>;

    open spec fn view(&self) -> Map<Seq<char>, Seq<char>> {
        map_of(self.entries@)
    }
}

impl Titles {
    /// No titles at all.
    pub fn new() -> (out: Titles)
        ensures
            out@ == Map::<Seq<char>, Seq<char>>::empty(),
    {
        let out = Titles { entries: Vec::new() };
        assert(out@ =~= Map::<Seq<char>, Seq<char>>::empty());
        out
    }

    /// The title of the subject `code`, where one is known.
    pub fn title(&self, code: &String) -> (out: Option<&String>)
        ensures
            match out {
                Some(title) => self@.dom().contains(code@) && self@[code@] == title@,
                None => !self@.dom().contains(code@),
            },
    {
        get(&self.entries, code)
    }

    /// Sets the title of the subject `code`.
    pub fn set(&mut self, code: String, title: String)
        ensures
            final(self)@ == old(self)@.insert(code@, title@),
    {
        put(&mut self.entries, code, title);
    }

    /// The subject codes, each as often as it was entered.
    pub fn codes(&self) -> (out: Vec<String>)
        ensures
            views(out@) == keys_of(self.entries@),
    {
        let mut out: Vec<String> = Vec::new();
        let mut i: usize = 0;
        while i < self.entries.len()
            invariant
                i <= self.entries.len(),
                views(out@) == keys_of(self.entries@).take(i as int),
            decreases self.entries.len() - i,
        {
            let ghost before = views(out@);
            out.push(self.entries[i].0.clone());
            assert(views(out@) == before.push(self.entries@[i as int].0@));
            assert(keys_of(self.entries@).take(i + 1) == keys_of(self.entries@).take(
                i as int,
            ).push(keys_of(self.entries@)[i as int]));
            i += 1;
        }
        assert(keys_of(self.entries@).take(self.entries.len() as int) == keys_of(
            self.entries@,
        ));
        out
    }
}

/// Code and title that the groups of a matched subject option give: group 1
/// is the code, group 2 the title, whose entities are decoded. An option
/// that did not match is a parse failure that carries the option.
pub open spec fn subject_from_groups(
    inner: Seq<char>,
    found: Option<Seq<Option<Seq<char>>>>,
) -> Result<(Seq<char>, Seq<char>), Failure> {
    match found {
        None => Err(Failure::Parse(NO_SUBJECT@ + inner)),
        Some(groups) => match (group_text(groups, 1), group_text(groups, 2)) {
            (Some(code), Some(title)) => Ok((code, decoded(title))),
            _ => Err(Failure::Parse(NO_SUBJECT@ + inner)),
        },
    }
}

/// Code and title that the markup of a subject option gives.
pub open spec fn subject_option(inner: Seq<char>) -> Result<(Seq<char>, Seq<char>), Failure> {
    if pattern_compiles(SUBJECT_PATTERN@) {
        subject_from_groups(inner, pattern_captures(SUBJECT_PATTERN@, inner))
    } else {
        Err(Failure::Pattern(SUBJECT_PATTERN@))
    }
}

/// The titles after the options of the course search page: every option
/// enters its code, a later option for a code replacing an earlier one.
pub open spec fn search_titles(options: Seq<Seq<char>>, known: Map<Seq<char>, Seq<char>>) -> Result<
    Map<Seq<char>, Seq<char>>,
    Failure,
>
    decreases options.len(),
{
    if options.len() == 0 {
        Ok(known)
    } else {
        match subject_option(options[0]) {
            Err(e) => Err(e),
            Ok((code, title)) => search_titles(options.skip(1), known.insert(code, title)),
        }
    }
}

/// The titles after the given options of the bulletin page: an option
/// replaces the title of a code that is known, and adds no code.
pub open spec fn overlaid_titles(options: Seq<Seq<char>>, known: Map<Seq<char>, Seq<char>>) -> Result<
    Map<Seq<char>, Seq<char>>,
    Failure,
>
    decreases options.len(),
{
    if options.len() == 0 {
        Ok(known)
    } else {
        match subject_option(options[0]) {
            Err(e) => Err(e),
            Ok((code, title)) => overlaid_titles(
                options.skip(1),
                if known.dom().contains(code) {
                    known.insert(code, title)
                } else {
                    known
                },
            ),
        }
    }
}

/// The titles after the bulletin page, whose first option is a placeholder
/// and is not read.
pub open spec fn bulletin_titles(options: Seq<Seq<char>>, known: Map<Seq<char>, Seq<char>>) -> Result<
    Map<Seq<char>, Seq<char>>,
    Failure,
> {
    if options.len() == 0 {
        Ok(known)
    } else {
        overlaid_titles(options.skip(1), known)
    }
}

/// The titles that both pages give: the search page decides which codes
/// there are, the bulletin page only replaces titles.
pub open spec fn subject_titles(search: Seq<Seq<char>>, bulletin: Seq<Seq<char>>) -> Result<
    Map<Seq<char>, Seq<char>>,
    Failure,
> {
    match search_titles(search, Map::empty()) {
        Err(e) => Err(e),
        Ok(known) => bulletin_titles(bulletin, known),
    }
}

/// Reads code and title out of the groups of a matched subject option.
pub fn subject_from_captures(inner: &str, found: &Option<Vec<Option<String>>>) -> (out: Result<
    (String, String),
    ScrapeError,
>)
    ensures
        outcome(out) == subject_from_groups(inner@, found_view(*found)),
{
    let parts = match found {
        Some(groups) => (group(groups, 1), group(groups, 2)),
        None => (None, None),
    };
    match parts {
        (Some(code), Some(title)) => Ok((code.clone(), decode(title.as_str()))),
        _ => {
            let mut text = NO_SUBJECT.to_owned();
            text.append(inner);
            Err(ScrapeError::Parse(text))
        },
    }
}

/// Reads code and title from the markup of one subject option.
pub fn parse_subject_option(inner: &str) -> (out: Result<(String, String), ScrapeError>)
    ensures
        outcome(out) == subject_option(inner@),
{
    match captures(SUBJECT_PATTERN, inner) {
        Ok(found) => subject_from_captures(inner, &found),
        Err(_) => Err(ScrapeError::Pattern(SUBJECT_PATTERN.to_owned())),
    }
}

/// Enters the subjects of the course search page, given the markup of each
/// of its subject options.
pub fn titles_from_search(options: &Vec<String>) -> (out: Result<Titles, ScrapeError>)
    ensures
        outcome(out) == search_titles(views(options@), Map::empty()),
{
    let mut titles = Titles::new();
    let ghost all = views(options@);
    let mut i: usize = 0;
    assert(all.skip(0) == all);
    while i < options.len()
        invariant
            i <= options.len(),
            all == views(options@),
            search_titles(all.skip(i as int), titles@) == search_titles(all, Map::empty()),
        decreases options.len() - i,
    {
        assert(all.skip(i as int)[0] == options@[i as int]@);
        assert(all.skip(i as int).skip(1) == all.skip(i + 1));
        match parse_subject_option(options[i].as_str()) {
            Ok((code, title)) => {
                titles.set(code, title);
            },
            Err(e) => {
                return Err(e);
            },
        }
        i += 1;
    }
    Ok(titles)
}

/// Lets the bulletin page replace titles, given the markup of each of its
/// subject options; the first option is a placeholder.
pub fn overlay_bulletin(known: Titles, options: &Vec<String>) -> (out: Result<
    Titles,
    ScrapeError,
>)
    ensures
        outcome(out) == bulletin_titles(views(options@), known@),
{
    let ghost start = known@;
    let mut titles = known;
    if options.len() == 0 {
        return Ok(titles);
    }
    let ghost all = views(options@);
    let mut i: usize = 1;
    while i < options.len()
        invariant
            1 <= i <= options.len(),
            all == views(options@),
            start == known@,
            overlaid_titles(all.skip(i as int), titles@) == overlaid_titles(all.skip(1), start),
        decreases options.len() - i,
    {
        assert(all.skip(i as int)[0] == options@[i as int]@);
        assert(all.skip(i as int).skip(1) == all.skip(i + 1));
        match parse_subject_option(options[i].as_str()) {
            Ok((code, title)) => {
                if titles.title(&code).is_some() {
                    titles.set(code, title);
                }
            },
            Err(e) => {
                return Err(e);
            },
        }
        i += 1;
    }
    Ok(titles)
}

/// Resolves the subject titles from the subject options of the course search
/// page and of the bulletin home page, in that order.
pub fn get_subject_titles(search: &Vec<String>, bulletin: &Vec<String>) -> (out: Result<
    Titles,
    ScrapeError,
>)
    ensures
        outcome(out) == subject_titles(views(search@), views(bulletin@)),
{
    match titles_from_search(search) {
        Ok(known) => overlay_bulletin(known, bulletin),
        Err(e) => Err(e),
    }
}

/// Whether one of the options is a subject option with the code `code`.
pub open spec fn has_code(options: Seq<Seq<char>>, code: Seq<char>) -> bool {
    exists|i: int|
        0 <= i < options.len() && (#[trigger] subject_option(options[i])) is Ok && subject_option(
            options[i],
        )->Ok_0.0 == code
}

/// The title of the last of the options that has the code `code`, where one
/// has it.
pub open spec fn last_title(options: Seq<Seq<char>>, code: Seq<char>) -> Option<Seq<char>>
    decreases options.len(),
{
    if options.len() == 0 {
        None
    } else {
        match subject_option(options.last()) {
            Ok((c, title)) => if c == code {
                Some(title)
            } else {
                last_title(options.drop_last(), code)
            },
            Err(_) => last_title(options.drop_last(), code),
        }
    }
}

/// The title that the options leave a code with: that of the last option
/// with the code, or the one known before where no option has the code.
pub open spec fn title_after(
    options: Seq<Seq<char>>,
    known: Map<Seq<char>, Seq<char>>,
    code: Seq<char>,
) -> Seq<char> {
    match last_title(options, code) {
        Some(title) => title,
        None => known[code],
    }
}

/// The last title for a code among options is that among the options after
/// the first, or else that of the first option where it has the code.
proof fn lemma_last_title_front(options: Seq<Seq<char>>, code: Seq<char>)
    requires
        options.len() > 0,
    ensures
        last_title(options, code) == match last_title(options.skip(1), code) {
            Some(title) => Some(title),
            None => match subject_option(options[0]) {
                Ok((c, title)) => if c == code {
                    Some(title)
                } else {
                    None
                },
                Err(_) => None,
            },
        },
        has_code(options, code) <==> last_title(options, code) is Some,
    decreases options.len(),
{
    if options.len() == 1 {
        assert(options.skip(1).len() == 0);
        assert(options.drop_last().len() == 0);
        assert(options.last() == options[0]);
        if has_code(options, code) {
            let i = choose|i: int|
                0 <= i < options.len() && (#[trigger] subject_option(options[i])) is Ok
                    && subject_option(options[i])->Ok_0.0 == code;
            assert(i == 0);
        }
        if last_title(options, code) is Some {
            assert(subject_option(options[0]) is Ok);
        }
    } else {
        let shorter = options.drop_last();
        assert(shorter.skip(1) == options.skip(1).drop_last());
        assert(options.skip(1).last() == options.last());
        assert(shorter[0] == options[0]);
        lemma_last_title_front(shorter, code);
        lemma_last_title_front(options.skip(1), code);
        if has_code(options, code) {
            let i = choose|i: int|
                0 <= i < options.len() && (#[trigger] subject_option(options[i])) is Ok
                    && subject_option(options[i])->Ok_0.0 == code;
            if i < shorter.len() {
                assert(shorter[i] == options[i]);
                assert(has_code(shorter, code));
            }
        }
        if has_code(shorter, code) {
            let i = choose|i: int|
                0 <= i < shorter.len() && (#[trigger] subject_option(shorter[i])) is Ok
                    && subject_option(shorter[i])->Ok_0.0 == code;
            assert(shorter[i] == options[i]);
            assert(has_code(options, code));
        }
        if subject_option(options.last()) is Ok && subject_option(options.last())->Ok_0.0 == code {
            assert(options[options.len() - 1] == options.last());
            assert(has_code(options, code));
        }
    }
}

/// The codes after the search page are those known before and those of its
/// options, and each code has the title of the last option with it.
pub proof fn law_search_page_decides_codes(
    options: Seq<Seq<char>>,
    known: Map<Seq<char>, Seq<char>>,
)
    ensures
        search_titles(options, known) matches Ok(titles) ==> forall|code: Seq<char>|
            {
                &&& #[trigger] titles.dom().contains(code) <==> known.dom().contains(code)
                    || has_code(options, code)
                &&& titles.dom().contains(code) ==> titles[code] == title_after(
                    options,
                    known,
                    code,
                )
            },
    decreases options.len(),
{
    match search_titles(options, known) {
        Err(_) => {},
        Ok(titles) => {
            if options.len() == 0 {
                assert forall|code: Seq<char>| !has_code(options, code) by {}
            } else {
                let (c, title) = subject_option(options[0])->Ok_0;
                let next = known.insert(c, title);
                law_search_page_decides_codes(options.skip(1), next);
                assert forall|code: Seq<char>|
                    {
                        &&& #[trigger] titles.dom().contains(code) <==> known.dom().contains(code)
                            || has_code(options, code)
                        &&& titles.dom().contains(code) ==> titles[code] == title_after(
                            options,
                            known,
                            code,
                        )
                    } by {
                    lemma_last_title_front(options, code);
                    if options.len() > 1 {
                        lemma_last_title_front(options.skip(1), code);
                    } else {
                        assert(options.skip(1).len() == 0);
                        assert forall|x: Seq<char>| !has_code(options.skip(1), x) by {}
                    }
                    assert(titles.dom().contains(code) <==> next.dom().contains(code) || has_code(
                        options.skip(1),
                        code,
                    ));
                }
            }
        },
    }
}

/// The bulletin page adds no code and takes none away, and each code has the
/// title of the last bulletin option with it, or else the title it had.
pub proof fn law_bulletin_only_replaces_titles(
    options: Seq<Seq<char>>,
    known: Map<Seq<char>, Seq<char>>,
)
    ensures
        overlaid_titles(options, known) matches Ok(titles) ==> {
            &&& titles.dom() == known.dom()
            &&& forall|code: Seq<char>| #[trigger]
                known.dom().contains(code) ==> titles[code] == title_after(options, known, code)
        },
    decreases options.len(),
{
    match overlaid_titles(options, known) {
        Err(_) => {},
        Ok(titles) => {
            if options.len() > 0 {
                let (c, title) = subject_option(options[0])->Ok_0;
                let next = if known.dom().contains(c) {
                    known.insert(c, title)
                } else {
                    known
                };
                law_bulletin_only_replaces_titles(options.skip(1), next);
                assert(next.dom() =~= known.dom());
                assert(titles.dom() == known.dom());
                assert forall|code: Seq<char>| #[trigger]
                    known.dom().contains(code) implies titles[code] == title_after(
                    options,
                    known,
                    code,
                ) by {
                    lemma_last_title_front(options, code);
                    assert(next.dom().contains(code));
                }
            }
        },
    }
}

/// The titles that both pages give: the codes are exactly those of the
/// search page's options, and the title of a code is that of the last
/// bulletin option with the code, the placeholder aside, or else that of
/// the last search option with it.
pub proof fn law_titles_of_both_pages(search: Seq<Seq<char>>, bulletin: Seq<Seq<char>>)
    ensures
        subject_titles(search, bulletin) matches Ok(titles) ==> forall|code: Seq<char>|
            {
                &&& #[trigger] titles.dom().contains(code) <==> has_code(search, code)
                &&& titles.dom().contains(code) ==> Some(titles[code]) == (match last_title(
                    if bulletin.len() == 0 {
                        bulletin
                    } else {
                        bulletin.skip(1)
                    },
                    code,
                ) {
                    Some(title) => Some(title),
                    None => last_title(search, code),
                })
            },
{
    let none = Map::<Seq<char>, Seq<char>>::empty();
    law_search_page_decides_codes(search, none);
    match search_titles(search, none) {
        Err(_) => {},
        Ok(known) => {
            let later = if bulletin.len() == 0 {
                bulletin
            } else {
                bulletin.skip(1)
            };
            law_bulletin_only_replaces_titles(later, known);
            match subject_titles(search, bulletin) {
                Err(_) => {},
                Ok(titles) => {
                    assert(overlaid_titles(later, known) == Ok::<
                        Map<Seq<char>, Seq<char>>,
                        Failure,
                    >(titles)) by {
                        if bulletin.len() == 0 {
                            assert(overlaid_titles(bulletin, known) == Ok::<
                                Map<Seq<char>, Seq<char>>,
                                Failure,
                            >(known));
                        }
                    }
                    assert forall|code: Seq<char>|
                        {
                            &&& #[trigger] titles.dom().contains(code) <==> has_code(search, code)
                            &&& titles.dom().contains(code) ==> Some(titles[code]) == (
                            match last_title(later, code) {
                                Some(title) => Some(title),
                                None => last_title(search, code),
                            })
                        } by {
                        assert(known.dom().contains(code) <==> has_code(search, code));
                        if search.len() > 0 {
                            lemma_last_title_front(search, code);
                        } else {
                            assert(!has_code(search, code));
                        }
                    }
                },
            }
        },
    }
}

} // verus!
