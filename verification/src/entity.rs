//! Entity decoding, and when decoding twice changes nothing.

use crate::text::{chars_of, text_of};
use vstd::prelude::*;

verus! {

/// `s` with every occurrence of `pat` replaced by `with`, scanning from the
/// left and never matching inside text already replaced. An empty `pat`
/// replaces nothing.
pub open spec fn replaced(s: Seq<char>, pat: Seq<char>, with: Seq<char>) -> Seq<char>
    decreases s.len(),
{
    if s.len() == 0 || pat.len() == 0 {
        s
    } else if pat.is_prefix_of(s) {
        with + replaced(s.skip(pat.len() as int), pat, with)
    } else {
        seq![s[0]] + replaced(s.skip(1), pat, with)
    }
}

/// `pat` stands in `s` at position `i`.
pub open spec fn occurs_at(s: Seq<char>, pat: Seq<char>, i: int) -> bool {
    0 <= i && i + pat.len() <= s.len() && s.subrange(i, i + pat.len()) == pat
}

/// `pat` stands somewhere in `s`.
pub open spec fn occurs(s: Seq<char>, pat: Seq<char>) -> bool {
    exists|i: int| occurs_at(s, pat, i)
}

/// The text of the ampersand entity.
pub open spec fn amp_entity() -> Seq<char> {
    seq!['&', 'a', 'm', 'p', ';']
}

/// The text of the non-breaking-space entity.
pub open spec fn nbsp_entity() -> Seq<char> {
    seq!['&', 'n', 'b', 's', 'p', ';']
}

/// An ampersand entity followed at once by the tail of another: the one shape
/// that decoding leaves entity-shaped.
pub open spec fn nested_amp_entity() -> Seq<char> {
    seq!['&', 'a', 'm', 'p', ';', 'a', 'm', 'p', ';']
}

/// `s` after entity decoding: first every ampersand entity becomes `&`, then
/// every non-breaking-space entity becomes a space.
pub open spec fn decoded(s: Seq<char>) -> Seq<char> {
    replaced(replaced(s, amp_entity(), seq!['&']), nbsp_entity(), seq![' '])
}

/// Whether `pat` stands in `s` at position `i`.
fn matches_at(s: &Vec<char>, i: usize, pat: &Vec<char>) -> (hit: bool)
    requires
        i <= s.len(),
    ensures
        hit == pat@.is_prefix_of(s@.skip(i as int)),
{
    if pat.len() > s.len() - i {
        return false;
    }
    let mut k: usize = 0;
    while k < pat.len()
        invariant
            i + pat.len() <= s.len(),
            k <= pat.len(),
            s@.subrange(i as int, i + k) == pat@.take(k as int),
        decreases pat.len() - k,
    {
        if s[i + k] != pat[k] {
            assert(s@.skip(i as int).subrange(0, pat@.len() as int)[k as int] != pat@[k as int]);
            return false;
        }
        assert(s@.subrange(i as int, i + k + 1) == s@.subrange(i as int, i + k).push(
            s@[i + k],
        ));
        assert(pat@.take(k + 1) == pat@.take(k as int).push(pat@[k as int]));
        k += 1;
    }
    assert(pat@.take(pat.len() as int) == pat@);
    assert(s@.skip(i as int).subrange(0, pat@.len() as int) == s@.subrange(
        i as int,
        i + pat.len(),
    ));
    true
}

/// Replaces every occurrence of `pat` in `s` by `with`.
fn replace_all(s: &Vec<char>, pat: &Vec<char>, with: &Vec<char>) -> (out: Vec<char>)
    requires
        pat.len() > 0,
    ensures
        out@ == replaced(s@, pat@, with@),
{
    let mut out: Vec<char> = Vec::new();
    let mut i: usize = 0;
    assert(s@.skip(0) == s@);
    assert(out@ + replaced(s@, pat@, with@) == replaced(s@, pat@, with@));
    while i < s.len()
        invariant
            pat.len() > 0,
            i <= s.len(),
            out@ + replaced(s@.skip(i as int), pat@, with@) == replaced(s@, pat@, with@),
        decreases s.len() - i,
    {
        let ghost rest = s@.skip(i as int);
        if matches_at(s, i, pat) {
            let mut k: usize = 0;
            let ghost before = out@;
            while k < with.len()
                invariant
                    k <= with.len(),
                    out@ == before + with@.take(k as int),
                decreases with.len() - k,
            {
                out.push(with[k]);
                assert(with@.take(k + 1) == with@.take(k as int).push(with@[k as int]));
                k += 1;
            }
            assert(with@.take(with.len() as int) == with@);
            assert(rest.skip(pat.len() as int) == s@.skip(i + pat.len()));
            assert(out@ + replaced(s@.skip(i + pat.len()), pat@, with@) == before + (with@
                + replaced(rest.skip(pat.len() as int), pat@, with@)));
            i += pat.len();
        } else {
            out.push(s[i]);
            assert(rest.skip(1) == s@.skip(i + 1));
            assert(out@ + replaced(s@.skip(i + 1), pat@, with@) == out@.drop_last() + (seq![
                rest[0],
            ] + replaced(rest.skip(1), pat@, with@)));
            i += 1;
        }
    }
    assert(s@.skip(s.len() as int).len() == 0);
    assert(out@ + Seq::<char>::empty() == out@);
    out
}

/// Decodes the two entities that the pages use: the ampersand entity becomes
/// `&` and the non-breaking-space entity becomes a space. Nothing else is
/// touched.
pub fn decode(s: &str) -> (out: String)
    ensures
        out@ == decoded(s@),
{
    let text = chars_of(s);
    let amp: Vec<char> = vec!['&', 'a', 'm', 'p', ';'];
    let nbsp: Vec<char> = vec!['&', 'n', 'b', 's', 'p', ';'];
    let to_amp: Vec<char> = vec!['&'];
    let to_space: Vec<char> = vec![' '];
    assert(amp@ == amp_entity());
    assert(nbsp@ == nbsp_entity());
    assert(to_amp@ == seq!['&']);
    assert(to_space@ == seq![' ']);
    let first = replace_all(&text, &amp, &to_amp);
    let second = replace_all(&first, &nbsp, &to_space);
    text_of(second)
}


/// Text that holds no occurrence of `pat` is left as it is.
pub proof fn lemma_replaced_without_occurrence(s: Seq<char>, pat: Seq<char>, with: Seq<char>)
    requires
        !occurs(s, pat),
    ensures
        replaced(s, pat, with) == s,
    decreases s.len(),
{
    if s.len() == 0 || pat.len() == 0 {
    } else {
        if pat.is_prefix_of(s) {
            assert(occurs_at(s, pat, 0));
        }
        let rest = s.skip(1);
        if occurs(rest, pat) {
            let i = choose|i: int| occurs_at(rest, pat, i);
            assert(s.subrange(i + 1, i + 1 + pat.len()) == rest.subrange(i, i + pat.len()));
            assert(occurs_at(s, pat, i + 1));
        }
        lemma_replaced_without_occurrence(rest, pat, with);
        assert(seq![s[0]] + rest == s);
    }
}

/// What stands in the tail of a text stands in the text.
proof fn lemma_occurs_in_tail(s: Seq<char>, pat: Seq<char>, n: int)
    requires
        0 <= n <= s.len(),
        occurs(s.skip(n), pat),
    ensures
        occurs(s, pat),
{
    let i = choose|i: int| occurs_at(s.skip(n), pat, i);
    assert(s.subrange(i + n, i + n + pat.len()) == s.skip(n).subrange(i, i + pat.len()));
    assert(occurs_at(s, pat, i + n));
}

/// Where the result of replacing `pat` by the single character `w` begins with
/// `k` characters other than `w`, the text itself begins with those
/// characters.
proof fn lemma_untouched_prefix(s: Seq<char>, pat: Seq<char>, w: char, k: int)
    requires
        pat.len() > 0,
        0 <= k <= replaced(s, pat, seq![w]).len(),
        forall|i: int| 0 <= i < k ==> replaced(s, pat, seq![w])[i] != w,
    ensures
        k <= s.len(),
        s.take(k) == replaced(s, pat, seq![w]).take(k),
    decreases k,
{
    let r = replaced(s, pat, seq![w]);
    if k == 0 {
        assert(s.take(0) == r.take(0));
    } else {
        if s.len() == 0 {
        } else if pat.is_prefix_of(s) {
            assert(r[0] == w);
        } else {
            let tail = replaced(s.skip(1), pat, seq![w]);
            assert(r == seq![s[0]] + tail);
            assert forall|i: int| 0 <= i < k - 1 implies tail[i] != w by {
                assert(r[i + 1] == tail[i]);
            }
            lemma_untouched_prefix(s.skip(1), pat, w, k - 1);
            assert(s.skip(1).take(k - 1) == tail.take(k - 1));
            assert forall|i: int| 0 <= i < k implies s.take(k)[i] == r.take(k)[i] by {
                if i > 0 {
                    assert(s.take(k)[i] == s.skip(1).take(k - 1)[i - 1]);
                    assert(r.take(k)[i] == tail.take(k - 1)[i - 1]);
                }
            }
            assert(s.take(k) == r.take(k));
        }
    }
}

/// Replacing `pat` by the single character `w` leaves no occurrence of `q`,
/// where `q` has no `w` after its first character, the text holds no `q`
/// unless `q` is `pat` itself, and a replacement cannot complete a `q`.
proof fn lemma_replaced_free_of(s: Seq<char>, pat: Seq<char>, w: char, q: Seq<char>)
    requires
        pat.len() > 0,
        q.len() > 0,
        forall|i: int| 1 <= i < q.len() ==> q[i] != w,
        q == pat || !occurs(s, q),
        q[0] != w || !occurs(s, pat + q.skip(1)),
    ensures
        !occurs(replaced(s, pat, seq![w]), q),
    decreases s.len(),
{
    let r = replaced(s, pat, seq![w]);
    if occurs(r, q) {
        let j = choose|j: int| occurs_at(r, q, j);
        assert(s.len() > 0);
        let n: int = if pat.is_prefix_of(s) {
            pat.len() as int
        } else {
            1
        };
        let tail = s.skip(n);
        let rec = replaced(tail, pat, seq![w]);
        assert(r.len() == 1 + rec.len());
        assert(r.skip(1) == rec);
        if occurs(tail, q) {
            lemma_occurs_in_tail(s, q, n);
        }
        if occurs(tail, pat + q.skip(1)) {
            lemma_occurs_in_tail(s, pat + q.skip(1), n);
        }
        lemma_replaced_free_of(tail, pat, w, q);
        if j >= 1 {
            assert(rec.subrange(j - 1, j - 1 + q.len()) == r.subrange(j, j + q.len()));
            assert(occurs_at(rec, q, j - 1));
        } else {
            let m = q.len() - 1;
            assert(r.subrange(0, q.len() as int) == q);
            assert(r[0] == q[0]);
            assert forall|i: int| 0 <= i < m implies rec[i] != w by {
                assert(rec[i] == r.subrange(0, q.len() as int)[i + 1]);
            }
            lemma_untouched_prefix(tail, pat, w, m);
            assert(tail.take(m) == q.skip(1)) by {
                assert forall|i: int| 0 <= i < m implies tail.take(m)[i] == q.skip(1)[i] by {
                    assert(rec.take(m)[i] == r.subrange(0, q.len() as int)[i + 1]);
                }
            }
            if pat.is_prefix_of(s) {
                let nested = pat + q.skip(1);
                assert(s.subrange(0, nested.len() as int) == nested) by {
                    assert forall|i: int| 0 <= i < nested.len() implies s[i] == nested[i] by {
                        if i >= pat.len() {
                            assert(tail.take(m)[i - pat.len()] == s[i]);
                        } else {
                            assert(s.subrange(0, pat.len() as int)[i] == pat[i]);
                        }
                    }
                }
                assert(occurs_at(s, nested, 0));
            } else {
                assert(s.subrange(0, q.len() as int) == q) by {
                    assert forall|i: int| 0 <= i < q.len() implies s[i] == q[i] by {
                        if i >= 1 {
                            assert(tail.take(m)[i - 1] == s[i]);
                        }
                    }
                }
                assert(occurs_at(s, q, 0));
                assert(q.is_prefix_of(s));
            }
        }
    }
}

/// Decoding twice gives what decoding once gives, for every text that holds
/// no ampersand entity followed at once by `amp;`. (Such a text decodes to
/// one that still holds an ampersand entity, which a second decoding
/// shortens.)
pub proof fn law_decode_idempotent(s: Seq<char>)
    requires
        !occurs(s, nested_amp_entity()),
    ensures
        decoded(decoded(s)) == decoded(s),
{
    let amp = amp_entity();
    let nbsp = nbsp_entity();
    let t = replaced(s, amp, seq!['&']);
    let u = replaced(t, nbsp, seq![' ']);
    assert(amp + amp.skip(1) == nested_amp_entity());
    lemma_replaced_free_of(s, amp, '&', amp);
    lemma_replaced_free_of(t, nbsp, ' ', amp);
    lemma_replaced_free_of(t, nbsp, ' ', nbsp);
    lemma_replaced_without_occurrence(u, amp, seq!['&']);
    lemma_replaced_without_occurrence(u, nbsp, seq![' ']);
}

} // verus!
