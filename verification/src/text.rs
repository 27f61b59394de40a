//! Text primitives that the rest of the library builds on.
use itertools::Itertools;
use vstd::prelude::*;

verus! {

/// The upper-case form of a text under the Unicode case mapping.
pub uninterp spec fn uppercase_of(s: Seq<char>) -> Seq<char>;

/// Whether a character is white space under the Unicode property of that
/// name.
pub uninterp spec fn is_white_space(c: char) -> bool;

/// A text without the white space at its start.
pub open spec fn without_leading_space(s: Seq<char>) -> Seq<char>
    decreases s.len(),
{
    if s.len() > 0 && is_white_space(s.first()) {
        without_leading_space(s.drop_first())
    } else {
        s
    }
}

/// A text without the white space at its end.
pub open spec fn without_trailing_space(s: Seq<char>) -> Seq<char>
    decreases s.len(),
{
    if s.len() > 0 && is_white_space(s.last()) {
        without_trailing_space(s.drop_last())
    } else {
        s
    }
}

/// A text without the white space at its start and at its end.
pub open spec fn trimmed_of(s: Seq<char>) -> Seq<char> {
    without_trailing_space(without_leading_space(s))
}

/// The parts put one after another with `sep` between neighbours.
pub open spec fn joined(parts: Seq<Seq<char>>, sep: Seq<char>) -> Seq<char>
    decreases parts.len(),
{
    if parts.len() == 0 {
        Seq::empty()
    } else if parts.len() == 1 {
        parts[0]
    } else {
        joined(parts.drop_last(), sep) + sep + parts.last()
    }
}

/// The items without repetitions: each stands where it first occurred.
pub open spec fn first_occurrences(items: Seq<Seq<char>>) -> Seq<Seq<char>>
    decreases items.len(),
{
    if items.len() == 0 {
        items
    } else {
        let seen = first_occurrences(items.drop_last());
        if seen.contains(items.last()) {
            seen
        } else {
            seen.push(items.last())
        }
    }
}

/// The pieces of a text between occurrences of `sep`. A text without `sep`
/// is one piece, and so is the empty text.
pub open spec fn split_on(s: Seq<char>, sep: char) -> Seq<Seq<char>>
    decreases s.len(),
{
    if s.len() == 0 {
        seq![Seq::empty()]
    } else {
        let before = split_on(s.drop_last(), sep);
        if s.last() == sep {
            before.push(Seq::empty())
        } else {
            before.drop_last().push(before.last().push(s.last()))
        }
    }
}

/// Splitting loses nothing and leaves no separator behind: there is at least
/// one piece, no piece holds `sep`, and the pieces joined by `sep` are the
/// text again.
pub proof fn lemma_split_rejoins(s: Seq<char>, sep: char)
    ensures
        split_on(s, sep).len() >= 1,
        forall|i: int|
            0 <= i < split_on(s, sep).len() ==> !(#[trigger] split_on(s, sep)[i]).contains(sep),
        joined(split_on(s, sep), seq![sep]) == s,
    decreases s.len(),
{
    let pieces = split_on(s, sep);
    if s.len() == 0 {
        assert(pieces[0] =~= Seq::<char>::empty());
        assert(joined(pieces, seq![sep]) =~= s);
    } else {
        let front = s.drop_last();
        let before = split_on(front, sep);
        lemma_split_rejoins(front, sep);
        assert(front.push(s.last()) =~= s);
        if s.last() == sep {
            assert(pieces.drop_last() =~= before);
            assert(joined(pieces, seq![sep]) =~= s);
        } else {
            let grown = before.last().push(s.last());
            assert forall|i: int| 0 <= i < pieces.len() implies !(#[trigger] pieces[i]).contains(
                sep,
            ) by {
                if i < pieces.len() - 1 {
                    assert(pieces[i] == before[i]);
                } else {
                    if grown.contains(sep) {
                        let k = choose|k: int| 0 <= k < grown.len() && grown[k] == sep;
                        assert(before.last()[k] == sep);
                        assert(before[before.len() - 1].contains(sep));
                    }
                }
            }
            if before.len() == 1 {
                assert(before.last() == before[0]);
                assert(joined(pieces, seq![sep]) =~= s);
            } else {
                assert(pieces.drop_last() =~= before.drop_last());
                assert(joined(pieces, seq![sep]) =~= (joined(before.drop_last(), seq![sep])
                    + seq![sep] + before.last()).push(s.last()));
            }
        }
    }
}

/// Calls `str::eq`: two string slices are equal exactly when they hold the
/// same characters.
#[verifier::external_body]
pub(crate) fn same_text(a: &str, b: &str) -> (same: bool)
    ensures
        same == (a@ == b@),
{
    a == b
}

/// Calls `str::to_uppercase`; what it returns is named `uppercase_of`.
#[verifier::external_body]
pub(crate) fn to_upper(s: &str) -> (upper: String)
    ensures
        upper@ == uppercase_of(s@),
{
    s.to_uppercase()
}

/// Calls `char::is_whitespace`; what it returns is named `is_white_space`.
#[verifier::external_body]
pub(crate) fn is_space(c: char) -> (space: bool)
    ensures
        space == is_white_space(c),
{
    c.is_whitespace()
}

/// Calls `Itertools::join` on the parts in order. It writes the first part,
/// then for every further part the separator and the part.
#[verifier::external_body]
pub(crate) fn join_with(parts: &Vec<String>, sep: &str) -> (text: String)
    ensures
        text@ == joined(parts.deep_view(), sep@),
{
    parts.iter().join(sep)
}

/// Calls `Itertools::unique` on the items in order. It keeps the first of
/// equal items and leaves the order of what it keeps unchanged.
#[verifier::external_body]
pub(crate) fn unique_in_order(items: Vec<String>) -> (kept: Vec<String>)
    ensures
        kept.deep_view() == first_occurrences(items.deep_view()),
{
    items.into_iter().unique().collect()
}

/// The part of `s` between the white space at its start and at its end.
pub fn trim_text(s: &str) -> (trimmed: &str)
    ensures
        trimmed@ == trimmed_of(s@),
{
    let n = s.unicode_len();
    let mut from: usize = 0;
    proof {
        assert(s@.subrange(0, n as int) =~= s@);
    }
    while from < n && is_space(s.get_char(from))
        invariant
            n == s@.len(),
            from <= n,
            without_leading_space(s@) == without_leading_space(s@.subrange(from as int, n as int)),
        decreases n - from,
    {
        proof {
            let rest = s@.subrange(from as int, n as int);
            assert(rest.first() == s@[from as int]);
            assert(rest.drop_first() =~= s@.subrange(from + 1, n as int));
        }
        from += 1;
    }
    let ghost body = s@.subrange(from as int, n as int);
    assert(without_leading_space(s@) == body);
    let mut to: usize = n;
    while to > from && is_space(s.get_char(to - 1))
        invariant
            n == s@.len(),
            from <= to <= n,
            without_trailing_space(body) == without_trailing_space(
                s@.subrange(from as int, to as int),
            ),
        decreases to - from,
    {
        proof {
            let rest = s@.subrange(from as int, to as int);
            assert(rest.last() == s@[to - 1]);
            assert(rest.drop_last() =~= s@.subrange(from as int, to - 1));
        }
        to -= 1;
    }
    proof {
        let rest = s@.subrange(from as int, to as int);
        if to > from {
            assert(rest.last() == s@[to - 1]);
        }
    }
    s.substring_char(from, to)
}

/// The pieces of `s` between occurrences of `sep`, in order.
pub fn split_text(s: &str, sep: char) -> (pieces: Vec<String>)
    ensures
        pieces.deep_view() == split_on(s@, sep),
{
    let n = s.unicode_len();
    let mut pieces: Vec<String> = Vec::new();
    let mut start: usize = 0;
    let mut i: usize = 0;
    proof {
        assert(s@.take(0) =~= Seq::<char>::empty());
        assert(s@.subrange(0, 0) =~= Seq::<char>::empty());
        assert(pieces.deep_view() =~= Seq::<Seq<char>>::empty());
        assert(split_on(s@.take(0), sep) =~= pieces.deep_view().push(s@.subrange(0, 0)));
    }
    while i < n
        invariant
            n == s@.len(),
            start <= i <= n,
            split_on(s@.take(i as int), sep) == pieces.deep_view().push(
                s@.subrange(start as int, i as int),
            ),
        decreases n - i,
    {
        let c = s.get_char(i);
        let ghost done = pieces.deep_view();
        let ghost current = s@.subrange(start as int, i as int);
        proof {
            let upto = s@.take(i + 1);
            assert(upto.drop_last() =~= s@.take(i as int));
            assert(upto.last() == c);
            assert(done.push(current).drop_last() =~= done);
        }
        if c == sep {
            pieces.push(s.substring_char(start, i).to_owned());
            start = i + 1;
            proof {
                assert(pieces.deep_view() =~= done.push(current));
                assert(s@.subrange(start as int, i + 1) =~= Seq::<char>::empty());
            }
        } else {
            proof {
                assert(s@.subrange(start as int, i + 1) =~= current.push(c));
            }
        }
        i += 1;
    }
    let ghost done = pieces.deep_view();
    pieces.push(s.substring_char(start, n).to_owned());
    proof {
        assert(s@.take(n as int) =~= s@);
        assert(pieces.deep_view() =~= done.push(s@.subrange(start as int, n as int)));
    }
    pieces
}

} // verus!
