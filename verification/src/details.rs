//! The course detail page: a course's description and its credit hours.

use crate::assoc::{first_index, is_first_index, lemma_first_index_is, views};
use crate::error::{outcome, Failure, ScrapeError};
use crate::numeral::{all_digits, digit_of, digit_value, digits_value, is_digit};
use crate::pattern::{
    captures, found_view, group, group_text, pattern_captures, pattern_compiles, pattern_split,
    split,
};
use crate::structs::{Credits, CreditsView, Decimal, DecimalView};
use crate::text::{chars_of, text_of, trim, trimmed};
use vstd::prelude::*;

verus! {

/// A line that gives a range of credit hours.
pub const CREDIT_RANGE_PATTERN: &'static str = "(\\d+\\.\\d+)\\s+TO\\s+(\\d+\\.\\d+) Credit hours";

/// A line that gives one value of credit hours.
pub const CREDIT_SINGLE_PATTERN: &'static str = "(\\d+\\.\\d+)\\s+Credit hours";

/// A line break in markup, with or without a backslash before the closing
/// bracket.
pub const BREAK_PATTERN: &'static str = "<\\s*br\\s*\\\\?\\s*>";

/// The decimal number that `s` writes: ASCII digits, a point, ASCII digits,
/// with a digit at least on each side.
pub open spec fn decimal_value(s: Seq<char>) -> Option<DecimalView> {
    if s.contains('.') {
        let p = first_index(s, '.');
        let d = DecimalView { whole: s.take(p), fraction: s.skip(p + 1) };
        if d.wf() {
            Some(d)
        } else {
            None
        }
    } else {
        None
    }
}

/// Whether `s[from..to]` is a non-empty run of digits.
fn digits_between(s: &Vec<char>, from: usize, to: usize) -> (ok: bool)
    requires
        from <= to <= s.len(),
    ensures
        ok == (from < to && all_digits(s@.subrange(from as int, to as int))),
{
    if from == to {
        return false;
    }
    let mut i: usize = from;
    while i < to
        invariant
            from <= i <= to <= s.len(),
            all_digits(s@.subrange(from as int, i as int)),
        decreases to - i,
    {
        if digit_value(s[i]).is_none() {
            assert(s@.subrange(from as int, to as int)[i - from] == s@[i as int]);
            return false;
        }
        assert forall|j: int| 0 <= j < i + 1 - from implies is_digit(
            #[trigger] s@.subrange(from as int, i + 1)[j],
        ) by {
            if j < i - from {
                assert(s@.subrange(from as int, i as int)[j] == s@.subrange(from as int, i + 1)[j]);
            }
        }
        i += 1;
    }
    true
}

/// A copy of `s[from..to]`.
fn copy_between(s: &Vec<char>, from: usize, to: usize) -> (out: Vec<char>)
    requires
        from <= to <= s.len(),
    ensures
        out@ == s@.subrange(from as int, to as int),
{
    let mut out: Vec<char> = Vec::new();
    let mut i: usize = from;
    while i < to
        invariant
            from <= i <= to <= s.len(),
            out@ == s@.subrange(from as int, i as int),
        decreases to - i,
    {
        out.push(s[i]);
        i += 1;
    }
    out
}

/// Reads a decimal number written with a point.
pub fn parse_decimal(text: &str) -> (out: Option<Decimal>)
    ensures
        match out {
            Some(d) => decimal_value(text@) == Some(d@),
            None => decimal_value(text@) is None,
        },
{
    let s = chars_of(text);
    let mut p: usize = 0;
    while p < s.len() && s[p] != '.'
        invariant
            p <= s.len(),
            forall|j: int| 0 <= j < p ==> s@[j] != '.',
        decreases s.len() - p,
    {
        p += 1;
    }
    if p == s.len() {
        return None;
    }
    proof {
        assert(is_first_index(s@, '.', p as int));
        lemma_first_index_is(s@, '.', p as int);
        assert(s@.take(p as int) == s@.subrange(0, p as int));
        assert(s@.skip(p + 1) == s@.subrange(p + 1, s.len() as int));
    }
    if digits_between(&s, 0, p) && digits_between(&s, p + 1, s.len()) {
        let whole = copy_between(&s, 0, p);
        let fraction = copy_between(&s, p + 1, s.len());
        Some(Decimal { whole: text_of(whole), fraction: text_of(fraction) })
    } else {
        None
    }
}

/// A well-formed decimal number is read back from its text.
pub proof fn law_decimal_text_reads_back(d: DecimalView)
    requires
        d.wf(),
    ensures
        decimal_value(d.text()) == Some(d),
{
    let s = d.text();
    let p = d.whole.len() as int;
    assert(s[p] == '.');
    assert forall|j: int| 0 <= j < p implies s[j] != '.' by {
        assert(s[j] == d.whole[j]);
        assert(is_digit(d.whole[j]));
    }
    assert(is_first_index(s, '.', p));
    lemma_first_index_is(s, '.', p);
    assert(s.take(p) == d.whole);
    assert(s.skip(p + 1) == d.fraction);
}

/// The digit at position `i` of `s`; zero beyond its end.
pub open spec fn digit_at(s: Seq<char>, i: int) -> nat {
    if 0 <= i < s.len() {
        digit_of(s[i])
    } else {
        0
    }
}

/// The longer of two lengths.
pub open spec fn longer(a: nat, b: nat) -> nat {
    if a >= b {
        a
    } else {
        b
    }
}

/// The order of two runs of digits read from position `i` on, the shorter
/// run continued with zeros: -1 where `a` comes first, 1 where `b` does, 0
/// where neither does.
pub open spec fn order_from(a: Seq<char>, b: Seq<char>, i: int) -> int
    decreases longer(a.len(), b.len()) - i,
{
    if i >= a.len() && i >= b.len() {
        0
    } else if digit_at(a, i) < digit_at(b, i) {
        -1
    } else if digit_at(a, i) > digit_at(b, i) {
        1
    } else {
        order_from(a, b, i + 1)
    }
}

/// `s` with zeros before it up to the length `n`.
pub open spec fn aligned(s: Seq<char>, n: nat) -> Seq<char> {
    Seq::new((n - s.len()) as nat, |i: int| '0') + s
}

/// The order of two whole parts as numbers: both are brought to one length
/// by zeros in front and then read from the left.
pub open spec fn whole_order(a: Seq<char>, b: Seq<char>) -> int {
    let n = longer(a.len(), b.len());
    order_from(aligned(a, n), aligned(b, n), 0)
}

/// The order of two decimal numbers: that of their whole parts and, where
/// these are equal, that of their fractions read from the point on.
pub open spec fn decimal_order(a: DecimalView, b: DecimalView) -> int {
    let whole = whole_order(a.whole, b.whole);
    if whole != 0 {
        whole
    } else {
        order_from(a.fraction, b.fraction, 0)
    }
}

/// Whether the low end of the credit hours is no more than the high end.
pub open spec fn in_order(credits: CreditsView) -> bool {
    decimal_order(credits.low, credits.high) <= 0
}

/// A run of digits comes neither before nor after itself.
pub proof fn lemma_order_with_itself(a: Seq<char>, i: int)
    ensures
        order_from(a, a, i) == 0,
    decreases longer(a.len(), a.len()) - i,
{
    if i < a.len() {
        lemma_order_with_itself(a, i + 1);
    }
}

/// -1, 0 or 1 as `i` is below, at or above zero.
pub open spec fn sign(i: int) -> int {
    if i < 0 {
        -1
    } else if i > 0 {
        1
    } else {
        0
    }
}

/// The order of two runs of one length, each with one more digit at its end,
/// is the order of the runs and, where that is none, the order of the two
/// digits.
proof fn lemma_order_with_last(a: Seq<char>, b: Seq<char>, x: char, y: char, i: int)
    requires
        a.len() == b.len(),
        0 <= i <= a.len(),
    ensures
        order_from(a.push(x), b.push(y), i) == if order_from(a, b, i) != 0 {
            order_from(a, b, i)
        } else {
            sign(digit_of(x) - digit_of(y))
        },
    decreases a.len() - i,
{
    if i < a.len() {
        assert(digit_at(a.push(x), i) == digit_at(a, i));
        assert(digit_at(b.push(y), i) == digit_at(b, i));
        lemma_order_with_last(a, b, x, y, i + 1);
    } else {
        assert(digit_at(a.push(x), i) == digit_of(x));
        assert(digit_at(b.push(y), i) == digit_of(y));
        assert(order_from(a.push(x), b.push(y), i + 1) == 0);
    }
}

/// Two runs of digits of one length stand in the order of the numbers that
/// they denote.
pub proof fn law_order_of_equal_lengths(a: Seq<char>, b: Seq<char>)
    requires
        a.len() == b.len(),
    ensures
        order_from(a, b, 0) == sign(digits_value(a) - digits_value(b)),
    decreases a.len(),
{
    if a.len() > 0 {
        let x = a.last();
        let y = b.last();
        law_order_of_equal_lengths(a.drop_last(), b.drop_last());
        lemma_order_with_last(a.drop_last(), b.drop_last(), x, y, 0);
        assert(a.drop_last().push(x) == a);
        assert(b.drop_last().push(y) == b);
        assert(digit_of(x) <= 9 && digit_of(y) <= 9);
    }
}

/// Zeros in front of a run of digits do not change the number it denotes.
proof fn lemma_aligned_value(s: Seq<char>, n: nat)
    requires
        s.len() <= n,
    ensures
        digits_value(aligned(s, n)) == digits_value(s),
        aligned(s, n).len() == n,
    decreases s.len(),
{
    let zeros = Seq::new((n - s.len()) as nat, |i: int| '0');
    if s.len() == 0 {
        assert(aligned(s, n) == zeros);
        lemma_zeros_value(n);
    } else {
        assert(aligned(s, n).drop_last() == aligned(s.drop_last(), (n - 1) as nat));
        assert(aligned(s, n).last() == s.last());
        lemma_aligned_value(s.drop_last(), (n - 1) as nat);
    }
}

/// A run of zeros denotes zero.
proof fn lemma_zeros_value(n: nat)
    ensures
        digits_value(Seq::new(n, |i: int| '0')) == 0,
    decreases n,
{
    if n > 0 {
        assert(Seq::new(n, |i: int| '0').drop_last() == Seq::new((n - 1) as nat, |i: int| '0'));
        lemma_zeros_value((n - 1) as nat);
    }
}

/// Two whole parts stand in the order of the numbers that they denote.
pub proof fn law_whole_order_is_of_numbers(a: Seq<char>, b: Seq<char>)
    ensures
        whole_order(a, b) == sign(digits_value(a) - digits_value(b)),
{
    let n = longer(a.len(), b.len());
    lemma_aligned_value(a, n);
    lemma_aligned_value(b, n);
    law_order_of_equal_lengths(aligned(a, n), aligned(b, n));
}

/// `s` with zeros after it up to the length `n`.
pub open spec fn continued(s: Seq<char>, n: nat) -> Seq<char> {
    s + Seq::new((n - s.len()) as nat, |i: int| '0')
}

/// Continuing both runs with zeros to the longer length changes nothing of
/// their order.
proof fn lemma_order_of_continued(a: Seq<char>, b: Seq<char>, i: int)
    requires
        0 <= i,
    ensures
        order_from(a, b, i) == order_from(
            continued(a, longer(a.len(), b.len())),
            continued(b, longer(a.len(), b.len())),
            i,
        ),
    decreases longer(a.len(), b.len()) - i,
{
    let n = longer(a.len(), b.len());
    let x = continued(a, n);
    let y = continued(b, n);
    assert(x.len() == n && y.len() == n);
    if i < n {
        assert(digit_at(x, i) == digit_at(a, i));
        assert(digit_at(y, i) == digit_at(b, i));
        lemma_order_of_continued(a, b, i + 1);
    }
}

/// Two fractions stand in the order of the numbers that they denote once
/// both are written with as many digits as the longer has.
pub proof fn law_fraction_order_is_of_numbers(a: Seq<char>, b: Seq<char>)
    ensures
        order_from(a, b, 0) == sign(
            digits_value(continued(a, longer(a.len(), b.len()))) - digits_value(
                continued(b, longer(a.len(), b.len())),
            ),
        ),
{
    let n = longer(a.len(), b.len());
    lemma_order_of_continued(a, b, 0);
    law_order_of_equal_lengths(continued(a, n), continued(b, n));
}

/// The order of two runs of digits, the shorter continued with zeros.
fn order_of_digits(a: &Vec<char>, b: &Vec<char>) -> (out: i8)
    ensures
        out == order_from(a@, b@, 0),
{
    let mut i: usize = 0;
    while i < a.len() || i < b.len()
        invariant
            order_from(a@, b@, i as int) == order_from(a@, b@, 0),
        decreases longer(a@.len(), b@.len()) - i,
    {
        let x: usize = if i < a.len() {
            match digit_value(a[i]) {
                Some(d) => d,
                None => 0,
            }
        } else {
            0
        };
        let y: usize = if i < b.len() {
            match digit_value(b[i]) {
                Some(d) => d,
                None => 0,
            }
        } else {
            0
        };
        assert(x == digit_at(a@, i as int));
        assert(y == digit_at(b@, i as int));
        if x < y {
            return -1;
        }
        if x > y {
            return 1;
        }
        i += 1;
    }
    0
}

/// `s` with zeros before it up to the length `n`.
fn align(s: &Vec<char>, n: usize) -> (out: Vec<char>)
    requires
        s.len() <= n,
    ensures
        out@ == aligned(s@, n as nat),
{
    let mut out: Vec<char> = Vec::new();
    let fill = n - s.len();
    let mut i: usize = 0;
    while i < fill
        invariant
            i <= fill,
            out@ == Seq::new(i as nat, |k: int| '0'),
        decreases fill - i,
    {
        out.push('0');
        i += 1;
    }
    let ghost front = out@;
    let mut k: usize = 0;
    while k < s.len()
        invariant
            k <= s.len(),
            out@ == front + s@.take(k as int),
        decreases s.len() - k,
    {
        out.push(s[k]);
        assert(s@.take(k + 1) == s@.take(k as int).push(s@[k as int]));
        k += 1;
    }
    assert(s@.take(s.len() as int) == s@);
    out
}

/// The order of two decimal numbers: -1 where `a` is less, 1 where it is
/// more, 0 where they are the same number.
pub fn compare_decimals(a: &Decimal, b: &Decimal) -> (out: i8)
    ensures
        out == decimal_order(a@, b@),
{
    let x = chars_of(a.whole.as_str());
    let y = chars_of(b.whole.as_str());
    let n = if x.len() >= y.len() {
        x.len()
    } else {
        y.len()
    };
    let whole = order_of_digits(&align(&x, n), &align(&y, n));
    if whole != 0 {
        return whole;
    }
    let p = chars_of(a.fraction.as_str());
    let q = chars_of(b.fraction.as_str());
    order_of_digits(&p, &q)
}

/// The credit hours that the two searches of a credit line give. Where the
/// range pattern matched, its groups 1 and 2 are the ends; else, where the
/// single pattern matched, its group 1 is both ends; else the line is no
/// credit line. A matched number that is not written in ASCII digits is a
/// parse failure too, and so is a range whose low end is more than its high
/// end.
pub open spec fn credits_from_groups(
    range: Option<Seq<Option<Seq<char>>>>,
    single: Option<Seq<Option<Seq<char>>>>,
) -> Result<CreditsView, Failure> {
    match range {
        Some(groups) => match (group_text(groups, 1), group_text(groups, 2)) {
            (Some(a), Some(b)) => match (decimal_value(a), decimal_value(b)) {
                (Some(low), Some(high)) => if decimal_order(low, high) <= 0 {
                    Ok(CreditsView { low, high })
                } else {
                    Err(Failure::Parse("credits: order"@))
                },
                _ => Err(Failure::Parse("credits: number"@)),
            },
            _ => Err(Failure::Parse("credits: no match"@)),
        },
        None => match single {
            Some(groups) => match group_text(groups, 1) {
                Some(a) => match decimal_value(a) {
                    Some(both) => Ok(CreditsView { low: both, high: both }),
                    None => Err(Failure::Parse("credits: number"@)),
                },
                None => Err(Failure::Parse("credits: no match"@)),
            },
            None => Err(Failure::Parse("credits: no match"@)),
        },
    }
}

/// The credit hours that a credit line gives.
pub open spec fn credit_range(line: Seq<char>) -> Result<CreditsView, Failure> {
    if !pattern_compiles(CREDIT_RANGE_PATTERN@) {
        Err(Failure::Pattern(CREDIT_RANGE_PATTERN@))
    } else if !pattern_compiles(CREDIT_SINGLE_PATTERN@) {
        Err(Failure::Pattern(CREDIT_SINGLE_PATTERN@))
    } else {
        credits_from_groups(
            pattern_captures(CREDIT_RANGE_PATTERN@, line),
            pattern_captures(CREDIT_SINGLE_PATTERN@, line),
        )
    }
}

/// Reads credit hours out of the two searches of a credit line.
pub fn credits_from_captures(
    range: &Option<Vec<Option<String>>>,
    single: &Option<Vec<Option<String>>>,
) -> (out: Result<Credits, ScrapeError>)
    ensures
        outcome(out) == credits_from_groups(found_view(*range), found_view(*single)),
        out matches Ok(c) ==> c@.low.wf() && c@.high.wf() && in_order(c@),
{
    match range {
        Some(groups) => match (group(groups, 1), group(groups, 2)) {
            (Some(a), Some(b)) => match (parse_decimal(a.as_str()), parse_decimal(b.as_str())) {
                (Some(low), Some(high)) => if compare_decimals(&low, &high) <= 0 {
                    Ok(Credits { low, high })
                } else {
                    Err(ScrapeError::Parse("credits: order".to_owned()))
                },
                _ => Err(ScrapeError::Parse("credits: number".to_owned())),
            },
            _ => Err(ScrapeError::Parse("credits: no match".to_owned())),
        },
        None => match single {
            Some(groups) => match group(groups, 1) {
                Some(a) => match parse_decimal(a.as_str()) {
                    Some(both) => {
                        let high = both.duplicate();
                        proof {
                            lemma_order_with_itself(
                                aligned(both@.whole, both@.whole.len()),
                                0,
                            );
                            lemma_order_with_itself(both@.fraction, 0);
                        }
                        Ok(Credits { low: both, high })
                    },
                    None => Err(ScrapeError::Parse("credits: number".to_owned())),
                },
                None => Err(ScrapeError::Parse("credits: no match".to_owned())),
            },
            None => Err(ScrapeError::Parse("credits: no match".to_owned())),
        },
    }
}

/// Reads the credit hours of a course from its credit line: a range written
/// with `TO`, or one value that is both ends. Text around the numbers is
/// allowed; a line without credit hours is a parse failure, and so is a
/// range written high end first. The low end is never more than the high
/// end.
pub fn parse_credit_range(line: &str) -> (out: Result<Credits, ScrapeError>)
    ensures
        outcome(out) == credit_range(line@),
        out matches Ok(c) ==> c@.low.wf() && c@.high.wf() && in_order(c@),
{
    let range = match captures(CREDIT_RANGE_PATTERN, line) {
        Ok(found) => found,
        Err(_) => {
            return Err(ScrapeError::Pattern(CREDIT_RANGE_PATTERN.to_owned()));
        },
    };
    let single = match captures(CREDIT_SINGLE_PATTERN, line) {
        Ok(found) => found,
        Err(_) => {
            return Err(ScrapeError::Pattern(CREDIT_SINGLE_PATTERN.to_owned()));
        },
    };
    credits_from_captures(&range, &single)
}

/// The description and credit hours that the pieces of a detail body give:
/// the first piece, trimmed, is the description, and the second is the
/// credit line.
pub open spec fn details_from_chunks(chunks: Seq<Seq<char>>) -> Result<
    (Seq<char>, CreditsView),
    Failure,
> {
    if chunks.len() < 1 {
        Err(Failure::NotFound("desc"@))
    } else if chunks.len() < 2 {
        Err(Failure::NotFound("credits"@))
    } else {
        match credit_range(chunks[1]) {
            Ok(credits) => Ok((trimmed(chunks[0]), credits)),
            Err(e) => Err(e),
        }
    }
}

/// What the detail page says of a course, given the markup inside its detail
/// cell: the markup is cut at line breaks and read piece by piece. A page
/// without detail cell is a not-found failure.
pub open spec fn course_details(body: Option<Seq<char>>) -> Result<
    (Seq<char>, CreditsView),
    Failure,
> {
    match body {
        None => Err(Failure::NotFound("body"@)),
        Some(markup) => if pattern_compiles(BREAK_PATTERN@) {
            details_from_chunks(pattern_split(BREAK_PATTERN@, markup))
        } else {
            Err(Failure::Pattern(BREAK_PATTERN@))
        },
    }
}

/// Reads description and credit hours out of the pieces of a detail body.
pub fn details_from_pieces(chunks: &Vec<String>) -> (out: Result<(String, Credits), ScrapeError>)
    ensures
        outcome(out) == details_from_chunks(views(chunks@)),
        out matches Ok(found) ==> found.1@.low.wf() && found.1@.high.wf() && in_order(found.1@),
{
    if chunks.len() < 1 {
        return Err(ScrapeError::NotFound("desc".to_owned()));
    }
    if chunks.len() < 2 {
        return Err(ScrapeError::NotFound("credits".to_owned()));
    }
    let description = trim(chunks[0].as_str());
    assert(views(chunks@)[0] == chunks@[0]@);
    assert(views(chunks@)[1] == chunks@[1]@);
    match parse_credit_range(chunks[1].as_str()) {
        Ok(credits) => Ok((description, credits)),
        Err(e) => Err(e),
    }
}

/// Reads a course's description and credit hours from the markup inside the
/// detail cell of its page; `None` stands for a page without that cell.
pub fn get_course_catalog(body: Option<&str>) -> (out: Result<(String, Credits), ScrapeError>)
    ensures
        outcome(out) == course_details(
            match body {
                Some(markup) => Some(markup@),
                None => None,
            },
        ),
        out matches Ok(found) ==> found.1@.low.wf() && found.1@.high.wf() && in_order(found.1@),
{
    let markup = match body {
        Some(markup) => markup,
        None => {
            return Err(ScrapeError::NotFound("body".to_owned()));
        },
    };
    match split(BREAK_PATTERN, markup) {
        Ok(chunks) => details_from_pieces(&chunks),
        Err(_) => Err(ScrapeError::Pattern(BREAK_PATTERN.to_owned())),
    }
}

} // verus!
