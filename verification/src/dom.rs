//! Reading pages: the calls into the HTML parser, and what the row rules
//! need of a page as plain values.

use crate::error::{Failure, ScrapeError};
use crate::assoc::views;
use crate::pattern::groups_view;
use crate::rows::{rows_view, Cell, CellView};
use crate::scrape::RawSectionView;
use scraper::error::SelectorErrorKind;
use scraper::{ElementRef, Html, Selector};
use vstd::prelude::*;

verus! {

/// `scraper::Html`, the tree of a page; carried through unread.
#[verifier::external_type_specification]
#[verifier::external_body]
pub struct ExHtml(Html);

/// `scraper::Selector`, a compiled selector; carried through unread.
#[verifier::external_type_specification]
#[verifier::external_body]
pub struct ExSelector(Selector);

/// `scraper::ElementRef`, an element of a tree; carried through unread.
#[verifier::external_type_specification]
#[verifier::external_body]
pub struct ExElementRef<'a>(ElementRef<'a>);

/// `scraper::error::SelectorErrorKind`, why a text is no selector; dropped
/// unread.
#[verifier::external_type_specification]
#[verifier::external_body]
pub struct ExSelectorErrorKind(SelectorErrorKind);

/// The tree that `scraper::Html::parse_document` makes of a page.
pub uninterp spec fn document_of(page: Seq<char>) -> Html;

/// Whether `text` is a selector that `scraper::Selector::parse` accepts.
pub uninterp spec fn selector_parses(text: Seq<char>) -> bool;

/// The selector that `scraper::Selector::parse` makes of `text`, where it
/// accepts `text`.
pub uninterp spec fn selector_of(text: Seq<char>) -> Selector;

/// The elements of `page` that `selector` selects, as
/// `scraper::Html::select` hands them out: in the order in which the parser
/// made them.
pub uninterp spec fn selected_in_page(page: Html, selector: Selector) -> Seq<ElementRef<'static>>;

/// The descendants of `element` that `selector` selects with `element` as
/// scope, as `scraper::ElementRef::select` hands them out: in document
/// order.
pub uninterp spec fn selected_in(element: ElementRef<'_>, selector: Selector) -> Seq<
    ElementRef<'_>,
>;

/// The content of `element` written as markup, as
/// `scraper::ElementRef::inner_html` gives it.
pub uninterp spec fn element_markup(element: ElementRef<'_>) -> Seq<char>;

/// The pieces of text inside `element`, in document order, as
/// `scraper::ElementRef::text` hands them out one by one.
pub uninterp spec fn element_texts(element: ElementRef<'_>) -> Seq<Seq<char>>;

/// The attributes of `element` by name, as `scraper::ElementRef::attr` finds
/// them.
pub uninterp spec fn element_attributes(element: ElementRef<'_>) -> Map<Seq<char>, Seq<char>>;

/// `scraper::Html::parse_document`: the tree of a page. Parsing does not
/// fail, and the tree depends on the page alone.
#[verifier::external_body]
pub(crate) fn parse_document(page: &str) -> (out: Html)
    ensures
        out == document_of(page@),
{
    Html::parse_document(page)
}

/// `scraper::Selector::parse`: the selector that `text` writes, or the
/// parser's error where `text` writes none. The selector depends on the
/// text alone.
#[verifier::external_body]
pub(crate) fn parse_selector(text: &str) -> (out: Result<Selector, SelectorErrorKind>)
    ensures
        out is Ok <==> selector_parses(text@),
        out matches Ok(s) ==> s == selector_of(text@),
{
    Selector::parse(text)
}

/// `scraper::Html::select`: the elements of the page that match, in the
/// order in which the parser made them.
#[verifier::external_body]
pub(crate) fn select_in_page<'a>(page: &'a Html, selector: &Selector) -> (out: Vec<ElementRef<'a>>)
    ensures
        out@ == selected_in_page(*page, *selector),
{
    page.select(selector).collect()
}

/// `scraper::ElementRef::select`: the descendants of `element` that match
/// with `element` as scope, in document order.
#[verifier::external_body]
pub(crate) fn select_in_element<'a>(element: ElementRef<'a>, selector: &Selector) -> (out: Vec<
    ElementRef<'a>,
>)
    ensures
        out@ == selected_in(element, *selector),
{
    element.select(selector).collect()
}

/// `scraper::ElementRef::inner_html`: the content of `element` as markup.
#[verifier::external_body]
pub(crate) fn inner_html(element: ElementRef<'_>) -> (out: String)
    ensures
        out@ == element_markup(element),
{
    element.inner_html()
}

/// `scraper::ElementRef::text`: the first piece of text inside `element`, if
/// it holds any.
#[verifier::external_body]
pub(crate) fn first_text(element: ElementRef<'_>) -> (out: Option<String>)
    ensures
        text_view(out) == first_piece(element_texts(element)),
{
    element.text().next().map(|t| t.to_owned())
}

/// `scraper::ElementRef::attr`: the value of the attribute `name` of
/// `element`, if it has that attribute.
#[verifier::external_body]
pub(crate) fn attribute(element: ElementRef<'_>, name: &str) -> (out: Option<String>)
    ensures
        text_view(out) == named(element_attributes(element), name@),
{
    element.attr(name).map(|v| v.to_owned())
}

/// A text that may be absent, as contracts speak of it.
pub open spec fn text_view(text: Option<String>) -> Option<Seq<char>> {
    match text {
        Some(t) => Some(t@),
        None => None,
    }
}

/// The first of the pieces, where there is one.
pub open spec fn first_piece(pieces: Seq<Seq<char>>) -> Option<Seq<char>> {
    if pieces.len() > 0 {
        Some(pieces[0])
    } else {
        None
    }
}

/// The value under `name`, where the attributes have that name.
pub open spec fn named(attributes: Map<Seq<char>, Seq<char>>, name: Seq<char>) -> Option<
    Seq<char>,
> {
    if attributes.dom().contains(name) {
        Some(attributes[name])
    } else {
        None
    }
}

/// The markup of each of the elements, in order.
pub open spec fn markups(elements: Seq<ElementRef<'_>>) -> Seq<Seq<char>> {
    elements.map_values(|e: ElementRef<'_>| element_markup(e))
}

/// Builds a selector; a text that is none is a selector failure that carries
/// the text.
fn selector(text: &str) -> (out: Result<Selector, ScrapeError>)
    ensures
        out is Ok <==> selector_parses(text@),
        out matches Ok(s) ==> s == selector_of(text@),
        out matches Err(e) ==> e@ == Failure::Selector(text@),
{
    match parse_selector(text) {
        Ok(s) => Ok(s),
        Err(_) => Err(ScrapeError::Selector(text.to_owned())),
    }
}

/// The rows of the table of sections.
pub const SECTIONS_SELECTOR: &'static str =
    "table[summary='This layout table is used to present the sections found'] > tbody > tr";

/// The link of a header row, which holds the header line.
pub const LINK_SELECTOR: &'static str = ":scope > th > a";

/// The body of the meeting table inside a body row.
pub const MEETINGS_SELECTOR: &'static str =
    ":scope table[summary='This table lists the scheduled meeting times and assigned instructors for this class..'] > tbody";

/// The rows of a meeting table.
pub const MEETING_ROW_SELECTOR: &'static str = ":scope tr";

/// The cells of a meeting row.
pub const CELL_SELECTOR: &'static str = ":scope .dddefault";

/// The links inside a cell.
pub const ANCHOR_SELECTOR: &'static str = ":scope a";

/// The attribute of an instructor link that holds the instructor.
pub const TARGET_ATTRIBUTE: &'static str = "target";

/// The subject options of the course search page.
pub const SEARCH_OPTIONS_SELECTOR: &'static str = "#subj_id > option";

/// The subject options of the bulletin home page.
pub const BULLETIN_OPTIONS_SELECTOR: &'static str = "#ddlAllPrefixes > option";

/// The detail cell of a course detail page.
pub const DETAIL_SELECTOR: &'static str =
    "table[summary='This table lists the course detail for the selected term.'] td.ntdefault";

/// Whether the three selectors can be built that a body row needs whether
/// or not it holds a meeting table.
pub open spec fn table_selectors_parse() -> bool {
    &&& selector_parses(MEETINGS_SELECTOR@)
    &&& selector_parses(CELL_SELECTOR@)
    &&& selector_parses(ANCHOR_SELECTOR@)
}

/// The failure of reading a body row whose three first selectors cannot all
/// be built: that of the first that cannot, in the order in which they are
/// built.
pub open spec fn body_failure() -> Failure {
    if !selector_parses(MEETINGS_SELECTOR@) {
        Failure::Selector(MEETINGS_SELECTOR@)
    } else if !selector_parses(CELL_SELECTOR@) {
        Failure::Selector(CELL_SELECTOR@)
    } else {
        Failure::Selector(ANCHOR_SELECTOR@)
    }
}

/// What the page gives for one section: the text of the header row's link,
/// and the cells of the body row's meeting table, row by row. Either may be
/// a failure of its own.
#[derive(Debug)]
pub struct RawSection {
    /// The markup inside the header link; `None` where the row has no link.
    pub header: Result<Option<String>, ScrapeError>,
    /// The rows of the meeting table, heading row included; `None` where the
    /// body has no meeting table.
    pub body: Result<Option<Vec<Vec<Cell>>>, ScrapeError>,
}

/// The sections of a page in the order of its rows.
#[derive(Debug)]
pub struct SectionTable {
    pub sections: Vec<RawSection>,
    /// Whether a last row was left without partner.
    pub unpaired: bool,
}

/// What was read of a header row, as contracts speak of it.
pub open spec fn header_view(header: Result<Option<String>, ScrapeError>) -> Result<
    Option<Seq<char>>,
    Failure,
> {
    match header {
        Ok(link) => Ok(text_view(link)),
        Err(e) => Err(e@),
    }
}

/// What was read of a body row, as contracts speak of it.
pub open spec fn body_view(body: Result<Option<Vec<Vec<Cell>>>, ScrapeError>) -> Result<
    Option<Seq<Seq<CellView>>>,
    Failure,
> {
    match body {
        Ok(Some(rows)) => Ok(Some(rows_view(rows@))),
        Ok(None) => Ok(None),
        Err(e) => Err(e@),
    }
}

/// The `target` attribute of each of the links, in order.
pub open spec fn link_targets(links: Seq<ElementRef<'_>>) -> Seq<Option<Seq<char>>> {
    links.map_values(|link: ElementRef<'_>| named(element_attributes(link), TARGET_ATTRIBUTE@))
}

/// What the rules read of one cell: the element's first piece of text, its
/// content as markup, and the `target` attribute of each link that
/// `anchors` finds in it.
pub open spec fn cell_of(element: ElementRef<'_>, anchors: Selector) -> CellView {
    CellView {
        text: first_piece(element_texts(element)),
        markup: element_markup(element),
        link_targets: link_targets(selected_in(element, anchors)),
    }
}

/// What the rules read of each of the elements, in order.
pub open spec fn cells_of(elements: Seq<ElementRef<'_>>, anchors: Selector) -> Seq<CellView> {
    elements.map_values(|e: ElementRef<'_>| cell_of(e, anchors))
}

/// The cells of a meeting row: what the rules read of each element that
/// `cells` finds in the row, in order.
pub open spec fn cells_in(row: ElementRef<'_>, cells: Selector, anchors: Selector) -> Seq<
    CellView,
> {
    cells_of(selected_in(row, cells), anchors)
}

/// The cells of each of the rows, in order.
pub open spec fn cells_of_rows(rows: Seq<ElementRef<'_>>, cells: Selector, anchors: Selector) -> Seq<
    Seq<CellView>,
> {
    rows.map_values(|r: ElementRef<'_>| cells_in(r, cells, anchors))
}

/// What a header row holds: the markup of the first link that the link
/// selector finds in it, or nothing where it finds none. Where that
/// selector cannot be built, its failure.
pub open spec fn header_of_row(row: ElementRef<'_>) -> Result<Option<Seq<char>>, Failure> {
    if selector_parses(LINK_SELECTOR@) {
        Ok(first_piece(markups(selected_in(row, selector_of(LINK_SELECTOR@)))))
    } else {
        Err(Failure::Selector(LINK_SELECTOR@))
    }
}

/// What a body row holds: nothing where it has no meeting table; else, of
/// the first meeting table in it, the cells of every row, heading row
/// included. A selector that cannot be built is a failure: the first of the
/// three that are built at once, or the row selector where a table is there.
pub open spec fn body_of_row(row: ElementRef<'_>) -> Result<Option<Seq<Seq<CellView>>>, Failure> {
    if !table_selectors_parse() {
        Err(body_failure())
    } else {
        let tables = selected_in(row, selector_of(MEETINGS_SELECTOR@));
        if tables.len() == 0 {
            Ok(None)
        } else if !selector_parses(MEETING_ROW_SELECTOR@) {
            Err(Failure::Selector(MEETING_ROW_SELECTOR@))
        } else {
            Ok(
                Some(
                    cells_of_rows(
                        selected_in(tables[0], selector_of(MEETING_ROW_SELECTOR@)),
                        selector_of(CELL_SELECTOR@),
                        selector_of(ANCHOR_SELECTOR@),
                    ),
                ),
            )
        }
    }
}

/// The rows of the table of sections on a page.
pub open spec fn section_rows(page: Seq<char>) -> Seq<ElementRef<'static>> {
    selected_in_page(document_of(page), selector_of(SECTIONS_SELECTOR@))
}

/// What the page holds for the section at position `i`: rows `2 * i` and
/// `2 * i + 1` of the table are its header row and its body row.
pub open spec fn section_at(page: Seq<char>, i: int) -> RawSectionView {
    RawSectionView {
        header: header_of_row(section_rows(page)[2 * i]),
        body: body_of_row(section_rows(page)[2 * i + 1]),
    }
}

/// The sections of a page: one for every two rows of the table.
pub open spec fn sections_of(page: Seq<char>) -> Seq<RawSectionView> {
    Seq::new((section_rows(page).len() / 2) as nat, |i: int| section_at(page, i))
}

/// Whether the table of a page has a last row without partner.
pub open spec fn has_unpaired_row(page: Seq<char>) -> bool {
    section_rows(page).len() % 2 == 1
}

/// Pairs the rows two by two: header row, then body row. A last row without
/// partner is in no pair, and is reported.
pub fn pair_rows<T: Copy>(rows: &Vec<T>) -> (out: (Vec<(T, T)>, bool))
    ensures
        out.0@.len() == rows@.len() / 2,
        forall|i: int|
            0 <= i < out.0@.len() ==> (#[trigger] out.0@[i]) == (rows@[2 * i], rows@[2 * i + 1]),
        out.1 == (rows@.len() % 2 == 1),
{
    let mut pairs: Vec<(T, T)> = Vec::new();
    let mut i: usize = 0;
    while i + 1 < rows.len()
        invariant
            i <= rows.len(),
            i % 2 == 0,
            pairs@.len() == i / 2,
            forall|k: int|
                0 <= k < pairs@.len() ==> (#[trigger] pairs@[k]) == (rows@[2 * k], rows@[2 * k
                    + 1]),
        decreases rows.len() - i,
    {
        pairs.push((rows[i], rows[i + 1]));
        i += 2;
    }
    (pairs, i < rows.len())
}

/// What the rules read of the cells of one meeting row: one cell for each
/// element that the cell selector finds in the row, in order, holding the
/// element's first piece of text, its markup, and the `target` attribute of
/// each link that the anchor selector finds in it.
fn cells_of_row(row: ElementRef<'_>, cells: &Selector, anchors: &Selector) -> (out: Vec<Cell>)
    ensures
        views(out@) == cells_in(row, *cells, *anchors),
{
    let found = select_in_element(row, cells);
    let mut out: Vec<Cell> = Vec::new();
    let mut i: usize = 0;
    assert(views(out@) == cells_of(found@.take(0), *anchors));
    while i < found.len()
        invariant
            i <= found.len(),
            views(out@) == cells_of(found@.take(i as int), *anchors),
        decreases found.len() - i,
    {
        let links = select_in_element(found[i], anchors);
        let mut targets: Vec<Option<String>> = Vec::new();
        let mut k: usize = 0;
        assert(groups_view(targets@) == link_targets(links@.take(0)));
        while k < links.len()
            invariant
                k <= links.len(),
                groups_view(targets@) == link_targets(links@.take(k as int)),
            decreases links.len() - k,
        {
            let ghost before = groups_view(targets@);
            let target = attribute(links[k], TARGET_ATTRIBUTE);
            targets.push(target);
            assert(groups_view(targets@) == before.push(text_view(target)));
            assert(link_targets(links@.take(k + 1)) == link_targets(links@.take(k as int)).push(
                named(element_attributes(links@[k as int]), TARGET_ATTRIBUTE@),
            ));
            k += 1;
        }
        assert(links@.take(links.len() as int) == links@);
        let cell = Cell {
            text: first_text(found[i]),
            markup: inner_html(found[i]),
            link_targets: targets,
        };
        assert(cell@ == cell_of(found@[i as int], *anchors));
        let ghost shown = views(out@);
        out.push(cell);
        assert(views(out@) == shown.push(cell@));
        assert(cells_of(found@.take(i + 1), *anchors) == cells_of(
            found@.take(i as int),
            *anchors,
        ).push(cell_of(found@[i as int], *anchors)));
        i += 1;
    }
    assert(found@.take(found.len() as int) == found@);
    out
}

/// The text of the link of a header row.
fn header_link(row: ElementRef<'_>) -> (out: Result<Option<String>, ScrapeError>)
    ensures
        header_view(out) == header_of_row(row),
{
    let link = selector(LINK_SELECTOR)?;
    let found = select_in_element(row, &link);
    if found.len() > 0 {
        assert(markups(found@)[0] == element_markup(found@[0]));
        Ok(Some(inner_html(found[0])))
    } else {
        Ok(None)
    }
}

/// The cells of the meeting table of a body row.
fn body_cells(row: ElementRef<'_>) -> (out: Result<Option<Vec<Vec<Cell>>>, ScrapeError>)
    ensures
        body_view(out) == body_of_row(row),
{
    let meetings = selector(MEETINGS_SELECTOR)?;
    let cells = selector(CELL_SELECTOR)?;
    let anchors = selector(ANCHOR_SELECTOR)?;
    let tables = select_in_element(row, &meetings);
    if tables.len() == 0 {
        return Ok(None);
    }
    let meeting_rows = selector(MEETING_ROW_SELECTOR)?;
    let found = select_in_element(tables[0], &meeting_rows);
    let mut out: Vec<Vec<Cell>> = Vec::new();
    let mut i: usize = 0;
    assert(rows_view(out@) == cells_of_rows(found@.take(0), cells, anchors));
    while i < found.len()
        invariant
            i <= found.len(),
            rows_view(out@) == cells_of_rows(found@.take(i as int), cells, anchors),
        decreases found.len() - i,
    {
        let row_cells = cells_of_row(found[i], &cells, &anchors);
        let ghost shown = rows_view(out@);
        out.push(row_cells);
        assert(rows_view(out@) == shown.push(views(row_cells@)));
        assert(cells_of_rows(found@.take(i + 1), cells, anchors) == cells_of_rows(
            found@.take(i as int),
            cells,
            anchors,
        ).push(cells_in(found@[i as int], cells, anchors)));
        i += 1;
    }
    assert(found@.take(found.len() as int) == found@);
    Ok(Some(out))
}

/// Reads the table of sections out of the page of all sections: its rows
/// two by two, for each pair what the header row and the body row hold, and
/// whether a last row was left without partner. Fails exactly where the
/// selector of the table's rows cannot be built.
pub fn section_table(page: &str) -> (out: Result<SectionTable, ScrapeError>)
    ensures
        out is Ok <==> selector_parses(SECTIONS_SELECTOR@),
        out matches Err(e) ==> e@ == Failure::Selector(SECTIONS_SELECTOR@),
        out matches Ok(table) ==> {
            &&& views(table.sections@) == sections_of(page@)
            &&& table.unpaired == has_unpaired_row(page@)
        },
{
    let rows_selector = selector(SECTIONS_SELECTOR)?;
    let tree = parse_document(page);
    let rows = select_in_page(&tree, &rows_selector);
    assert(rows@ == section_rows(page@));
    let (pairs, unpaired) = pair_rows(&rows);
    let mut sections: Vec<RawSection> = Vec::new();
    let mut i: usize = 0;
    while i < pairs.len()
        invariant
            i <= pairs.len(),
            sections@.len() == i,
            pairs@.len() == rows@.len() / 2,
            rows@ == section_rows(page@),
            forall|k: int|
                0 <= k < pairs@.len() ==> (#[trigger] pairs@[k]) == (rows@[2 * k], rows@[2 * k
                    + 1]),
            forall|k: int| 0 <= k < i ==> (#[trigger] sections@[k])@ == section_at(page@, k),
        decreases pairs.len() - i,
    {
        let pair = pairs[i];
        let raw = RawSection { header: header_link(pair.0), body: body_cells(pair.1) };
        assert(raw@ == section_at(page@, i as int));
        sections.push(raw);
        i += 1;
    }
    assert(views(sections@) == sections_of(page@));
    Ok(SectionTable { sections, unpaired })
}

/// The markup of the elements that a selector finds on a page.
pub open spec fn markup_on_page(page: Seq<char>, selector_text: Seq<char>) -> Seq<Seq<char>> {
    markups(selected_in_page(document_of(page), selector_of(selector_text)))
}

/// The markup inside each element of the page that `selector_text` selects,
/// in the order in which the parser made the elements. Fails exactly where
/// the selector cannot be built.
pub fn selected_markup(page: &str, selector_text: &str) -> (out: Result<Vec<String>, ScrapeError>)
    ensures
        out is Ok <==> selector_parses(selector_text@),
        out matches Err(e) ==> e@ == Failure::Selector(selector_text@),
        out matches Ok(found) ==> views(found@) == markup_on_page(page@, selector_text@),
{
    let chosen = selector(selector_text)?;
    let tree = parse_document(page);
    let found = select_in_page(&tree, &chosen);
    let mut out: Vec<String> = Vec::new();
    let mut i: usize = 0;
    assert(views(out@) == markups(found@.take(0)));
    while i < found.len()
        invariant
            i <= found.len(),
            views(out@) == markups(found@.take(i as int)),
        decreases found.len() - i,
    {
        let ghost shown = views(out@);
        let markup = inner_html(found[i]);
        out.push(markup);
        assert(views(out@) == shown.push(markup@));
        assert(markups(found@.take(i + 1)) == markups(found@.take(i as int)).push(
            element_markup(found@[i as int]),
        ));
        i += 1;
    }
    assert(found@.take(found.len() as int) == found@);
    Ok(out)
}

/// The markup inside the first detail cell of a course detail page; `None`
/// where the page has no such cell. Fails exactly where the selector of the
/// detail cell cannot be built.
pub fn detail_body(page: &str) -> (out: Result<Option<String>, ScrapeError>)
    ensures
        out is Ok <==> selector_parses(DETAIL_SELECTOR@),
        out matches Err(e) ==> e@ == Failure::Selector(DETAIL_SELECTOR@),
        out matches Ok(body) ==> text_view(body) == first_piece(
            markup_on_page(page@, DETAIL_SELECTOR@),
        ),
{
    let chosen = selector(DETAIL_SELECTOR)?;
    let tree = parse_document(page);
    let found = select_in_page(&tree, &chosen);
    if found.len() > 0 {
        assert(markups(found@)[0] == element_markup(found@[0]));
        Ok(Some(inner_html(found[0])))
    } else {
        Ok(None)
    }
}

} // verus!
