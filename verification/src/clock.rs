//! Clock times on the 24-hour dial, and day letters.

use crate::error::{Failure, ScrapeError};
use crate::numeral::{decimal_of, parse_usize, push_decimal, usize_value};
use crate::entity::{amp_entity, decoded, nbsp_entity, replaced};
use crate::text::{chars_of, same_chars, text_of, trimmed, trimmed_end, trimmed_start, white_space};
use vstd::prelude::*;

verus! {

/// `s` padded on the left with zeros to a width of two characters.
pub open spec fn padded2(s: Seq<char>) -> Seq<char> {
    if s.len() >= 2 {
        s
    } else if s.len() == 1 {
        seq!['0'] + s
    } else {
        seq!['0', '0']
    }
}

/// Whether twelve is added to the hours: in the afternoon, except for the
/// hour written `12`.
pub open spec fn adds_twelve(hrs: Seq<char>, period: Seq<char>) -> bool {
    period == "pm"@ && hrs != "12"@
}

/// The 24-hour time `HH:MM` for hours, minutes and meridiem as written, or
/// `None` where the hours are no numeral, or denote a number to which twelve
/// cannot be added in a `usize`.
pub open spec fn fixed_time(hrs: Seq<char>, mins: Seq<char>, period: Seq<char>) -> Option<
    Seq<char>,
> {
    match usize_value(hrs) {
        None => None,
        Some(h) => if adds_twelve(hrs, period) {
            if h + 12 <= usize::MAX {
                Some(decimal_of((h + 12) as nat) + seq![':'] + mins)
            } else {
                None
            }
        } else {
            Some(padded2(hrs) + seq![':'] + mins)
        },
    }
}

/// Appends every character of `src` to `out`.
pub fn push_all(out: &mut Vec<char>, src: &Vec<char>)
    ensures
        final(out)@ == old(out)@ + src@,
{
    let mut k: usize = 0;
    while k < src.len()
        invariant
            k <= src.len(),
            out@ == old(out)@ + src@.take(k as int),
        decreases src.len() - k,
    {
        out.push(src[k]);
        assert(src@.take(k + 1) == src@.take(k as int).push(src@[k as int]));
        k += 1;
    }
    assert(src@.take(src.len() as int) == src@);
}

/// Converts a 12-hour clock reading to `HH:MM` on the 24-hour dial. With the
/// meridiem `pm` and hours other than `12`, twelve is added to the hours;
/// otherwise the hours stand as written, padded with zeros to two
/// characters. Hours that are no numeral are a format error, and so are
/// hours too large for the addition.
pub fn fix_time(hrs: &str, mins: &str, period: &str) -> (out: Result<String, ScrapeError>)
    ensures
        match out {
            Ok(t) => fixed_time(hrs@, mins@, period@) == Some(t@),
            Err(e) => fixed_time(hrs@, mins@, period@) is None && e@ == Failure::Format(hrs@),
        },
{
    let h = chars_of(hrs);
    let m = chars_of(mins);
    let p = chars_of(period);
    let value = match parse_usize(&h) {
        Some(v) => v,
        None => {
            return Err(ScrapeError::Format(hrs.to_owned()));
        },
    };
    let pm = chars_of("pm");
    let twelve = chars_of("12");
    let mut out: Vec<char> = Vec::new();
    if same_chars(&p, &pm) && !same_chars(&h, &twelve) {
        let sum = match value.checked_add(12) {
            Some(s) => s,
            None => {
                return Err(ScrapeError::Format(hrs.to_owned()));
            },
        };
        push_decimal(sum, &mut out);
    } else {
        if h.len() < 2 {
            out.push('0');
        }
        if h.len() < 1 {
            out.push('0');
        }
        push_all(&mut out, &h);
        assert(out@ == padded2(hrs@));
    }
    out.push(':');
    push_all(&mut out, &m);
    Ok(text_of(out))
}

/// The ordinal of a day letter: Monday is 1 and Sunday is 7.
pub open spec fn day_ordinal(c: char) -> Option<u8> {
    if c == 'M' {
        Some(1u8)
    } else if c == 'T' {
        Some(2u8)
    } else if c == 'W' {
        Some(3u8)
    } else if c == 'R' {
        Some(4u8)
    } else if c == 'F' {
        Some(5u8)
    } else if c == 'S' {
        Some(6u8)
    } else if c == 'U' {
        Some(7u8)
    } else {
        None
    }
}

/// The ordinals of the day letters in `s`, in the order written; every other
/// character is dropped.
pub open spec fn day_ordinals(s: Seq<char>) -> Seq<u8>
    decreases s.len(),
{
    if s.len() == 0 {
        Seq::empty()
    } else {
        match day_ordinal(s.last()) {
            Some(d) => day_ordinals(s.drop_last()).push(d),
            None => day_ordinals(s.drop_last()),
        }
    }
}

/// Whether every entry of `days` is an ordinal from 1 to 7.
pub open spec fn valid_days(days: Seq<u8>) -> bool {
    forall|i: int| 0 <= i < days.len() ==> 1 <= #[trigger] days[i] <= 7
}

/// Maps a day letter to its ordinal: M, T, W, R, F, S, U give 1 to 7, and
/// every other character has no mapping.
pub fn day_letter_to_ordinal(c: char) -> (day: Option<u8>)
    ensures
        day == day_ordinal(c),
        day is Some <==> (c == 'M' || c == 'T' || c == 'W' || c == 'R' || c == 'F' || c == 'S'
            || c == 'U'),
        day matches Some(d) ==> 1 <= d <= 7,
{
    match c {
        'M' => Some(1),
        'T' => Some(2),
        'W' => Some(3),
        'R' => Some(4),
        'F' => Some(5),
        'S' => Some(6),
        'U' => Some(7),
        _ => None,
    }
}

/// The days that a run of day letters names.
pub fn days_of(s: &str) -> (days: Vec<u8>)
    ensures
        days@ == day_ordinals(s@),
        valid_days(days@),
{
    let text = chars_of(s);
    let mut days: Vec<u8> = Vec::new();
    let mut i: usize = 0;
    assert(text@.take(0) == Seq::<char>::empty());
    while i < text.len()
        invariant
            i <= text.len(),
            days@ == day_ordinals(text@.take(i as int)),
            valid_days(days@),
        decreases text.len() - i,
    {
        assert(text@.take(i + 1).drop_last() == text@.take(i as int));
        match day_letter_to_ordinal(text[i]) {
            Some(d) => {
                days.push(d);
            },
            None => {},
        }
        i += 1;
    }
    assert(text@.take(text.len() as int) == text@);
    days
}

/// Every ordinal that day letters give lies between 1 and 7.
pub proof fn law_day_ordinals_in_week(s: Seq<char>)
    ensures
        valid_days(day_ordinals(s)),
        day_ordinals(s).len() <= s.len(),
    decreases s.len(),
{
    if s.len() > 0 {
        law_day_ordinals_in_week(s.drop_last());
    }
}

/// The days of two texts, one after the other, are the days of the first
/// and then those of the second.
pub proof fn lemma_days_of_both(a: Seq<char>, b: Seq<char>)
    ensures
        day_ordinals(a + b) == day_ordinals(a) + day_ordinals(b),
    decreases b.len(),
{
    if b.len() == 0 {
        assert(a + b == a);
        assert(day_ordinals(a) + Seq::<u8>::empty() == day_ordinals(a));
    } else {
        assert((a + b).drop_last() == a + b.drop_last());
        assert((a + b).last() == b.last());
        lemma_days_of_both(a, b.drop_last());
        match day_ordinal(b.last()) {
            Some(d) => {
                assert((day_ordinals(a) + day_ordinals(b.drop_last())).push(d) == day_ordinals(
                    a,
                ) + day_ordinals(b.drop_last()).push(d));
            },
            None => {},
        }
    }
}

/// A text without day letters names no day.
pub proof fn lemma_no_letters_no_days(s: Seq<char>)
    requires
        forall|i: int| 0 <= i < s.len() ==> day_ordinal(#[trigger] s[i]) is None,
    ensures
        day_ordinals(s) == Seq::<u8>::empty(),
    decreases s.len(),
{
    if s.len() > 0 {
        assert forall|i: int| 0 <= i < s.drop_last().len() implies day_ordinal(
            #[trigger] s.drop_last()[i],
        ) is None by {
            assert(s.drop_last()[i] == s[i]);
        }
        lemma_no_letters_no_days(s.drop_last());
    }
}

/// Replacing a text without day letters by another such text changes no day.
pub proof fn lemma_days_after_replacing(s: Seq<char>, pat: Seq<char>, with: Seq<char>)
    requires
        day_ordinals(pat) == Seq::<u8>::empty(),
        day_ordinals(with) == Seq::<u8>::empty(),
    ensures
        day_ordinals(replaced(s, pat, with)) == day_ordinals(s),
    decreases s.len(),
{
    if s.len() == 0 || pat.len() == 0 {
    } else if pat.is_prefix_of(s) {
        let rest = s.skip(pat.len() as int);
        assert(s == pat + rest);
        lemma_days_after_replacing(rest, pat, with);
        lemma_days_of_both(pat, rest);
        lemma_days_of_both(with, replaced(rest, pat, with));
        assert(Seq::<u8>::empty() + day_ordinals(rest) == day_ordinals(rest));
    } else {
        let rest = s.skip(1);
        assert(s == seq![s[0]] + rest);
        lemma_days_after_replacing(rest, pat, with);
        lemma_days_of_both(seq![s[0]], rest);
        lemma_days_of_both(seq![s[0]], replaced(rest, pat, with));
    }
}

/// White space at the beginning of a text names no day.
proof fn lemma_days_after_trimming_start(s: Seq<char>)
    ensures
        day_ordinals(trimmed_start(s)) == day_ordinals(s),
    decreases s.len(),
{
    if s.len() > 0 && white_space(s[0]) {
        let rest = s.skip(1);
        assert(s == seq![s[0]] + rest);
        lemma_days_of_both(seq![s[0]], rest);
        lemma_no_letters_no_days(seq![s[0]]);
        assert(Seq::<u8>::empty() + day_ordinals(rest) == day_ordinals(rest));
        lemma_days_after_trimming_start(rest);
    }
}

/// White space at the end of a text names no day.
proof fn lemma_days_after_trimming_end(s: Seq<char>)
    ensures
        day_ordinals(trimmed_end(s)) == day_ordinals(s),
    decreases s.len(),
{
    if s.len() > 0 && white_space(s.last()) {
        lemma_days_after_trimming_end(s.drop_last());
    }
}

/// The days that a text names are the days that it names after its entities
/// were decoded and the white space at its ends was removed: neither step
/// adds, drops or moves a day letter.
pub proof fn law_days_ignore_decoding_and_trimming(s: Seq<char>)
    ensures
        day_ordinals(trimmed(decoded(s))) == day_ordinals(s),
{
    lemma_no_letters_no_days(amp_entity());
    lemma_no_letters_no_days(nbsp_entity());
    lemma_no_letters_no_days(seq!['&']);
    lemma_no_letters_no_days(seq![' ']);
    let first = replaced(s, amp_entity(), seq!['&']);
    lemma_days_after_replacing(s, amp_entity(), seq!['&']);
    lemma_days_after_replacing(first, nbsp_entity(), seq![' ']);
    lemma_days_after_trimming_start(decoded(s));
    lemma_days_after_trimming_end(trimmed_start(decoded(s)));
}

} // verus!
