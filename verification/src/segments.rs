//! Splitting a byte string into the pieces between occurrences of a separator.
//!
//! A byte string with `n` separators has `n + 1` pieces, some of which may be
//! empty. Joining the pieces with the separator gives the string back.

use vstd::prelude::*;

verus! {

/// Index of the first occurrence of `sep` in `s`, or `s.len()` when there is none.
pub open spec fn first_index_of(s: Seq<u8>, sep: u8) -> int
    decreases s.len(),
{
    if s.len() == 0 || s[0] == sep {
        0
    } else {
        1 + first_index_of(s.drop_first(), sep)
    }
}

/// The pieces of `s` between occurrences of `sep`, in order.
pub open spec fn split(s: Seq<u8>, sep: u8) -> Seq<Seq<u8>>
    decreases s.len(),
{
    let k = first_index_of(s, sep);
    if 0 <= k < s.len() {
        seq![s.take(k)] + split(s.skip(k + 1), sep)
    } else {
        seq![s]
    }
}

/// The pieces put together again, with `sep` between neighbours.
pub open spec fn join(pieces: Seq<Seq<u8>>, sep: u8) -> Seq<u8>
    decreases pieces.len(),
{
    if pieces.len() == 0 {
        Seq::empty()
    } else if pieces.len() == 1 {
        pieces[0]
    } else {
        pieces[0] + seq![sep] + join(pieces.drop_first(), sep)
    }
}

/// True when `sep` occurs nowhere in `s`.
pub open spec fn free_of(s: Seq<u8>, sep: u8) -> bool {
    forall|i: int| 0 <= i < s.len() ==> s[i] != sep
}

/// The byte strings that half-open index ranges cut out of `s`.
pub open spec fn pieces_at(s: Seq<u8>, spans: Seq<(usize, usize)>) -> Seq<Seq<u8>> {
    Seq::new(spans.len(), |i: int| s.subrange(spans[i].0 as int, spans[i].1 as int))
}

/// True when every range is ordered and lies within a string of length `len`.
pub open spec fn spans_within(spans: Seq<(usize, usize)>, len: nat) -> bool {
    forall|i: int| 0 <= i < spans.len() ==> (#[trigger] spans[i]).0 <= spans[i].1 <= len
}

/// What `first_index_of` finds: it lies within `s`, nothing before it is the
/// separator, and it is the separator unless it is the end of `s`.
pub proof fn lemma_first_index_of(s: Seq<u8>, sep: u8)
    ensures
        0 <= first_index_of(s, sep) <= s.len(),
        free_of(s.take(first_index_of(s, sep)), sep),
        first_index_of(s, sep) < s.len() ==> s[first_index_of(s, sep)] == sep,
        first_index_of(s, sep) == s.len() <==> free_of(s, sep),
    decreases s.len(),
{
    if s.len() == 0 || s[0] == sep {
    } else {
        let t = s.drop_first();
        lemma_first_index_of(t, sep);
        let k = first_index_of(s, sep);
        assert forall|i: int| 0 <= i < k implies s.take(k)[i] != sep by {
            if i > 0 {
                assert(s[i] == t.take(k - 1)[i - 1]);
            }
        }
        if k == s.len() {
            assert(s.take(k) =~= s);
        }
    }
}

/// The first occurrence is the only index that holds the separator and has
/// none before it.
pub proof fn lemma_first_index_of_unique(s: Seq<u8>, sep: u8, k: int)
    requires
        0 <= k <= s.len(),
        free_of(s.take(k), sep),
        k < s.len() ==> s[k] == sep,
    ensures
        first_index_of(s, sep) == k,
{
    lemma_first_index_of(s, sep);
    let f = first_index_of(s, sep);
    if f < k {
        assert(s.take(k)[f] == sep);
    } else if k < f {
        assert(s.take(f)[k] == sep);
    }
}

/// A string without the separator is its own single piece.
pub proof fn lemma_split_without_separator(s: Seq<u8>, sep: u8)
    requires
        free_of(s, sep),
    ensures
        split(s, sep) == seq![s],
{
    lemma_first_index_of(s, sep);
}

/// Splitting `head ++ [sep] ++ tail`, where `head` holds no separator, gives
/// `head` followed by the pieces of `tail`.
pub proof fn lemma_split_at_first(head: Seq<u8>, tail: Seq<u8>, sep: u8)
    requires
        free_of(head, sep),
    ensures
        split(head + seq![sep] + tail, sep) == seq![head] + split(tail, sep),
{
    let s = head + seq![sep] + tail;
    let k = head.len() as int;
    assert(s.take(k) =~= head);
    lemma_first_index_of_unique(s, sep, k);
    assert(s.skip(k + 1) =~= tail);
}

/// There is always at least one piece, and no piece holds the separator.
pub proof fn lemma_split_pieces(s: Seq<u8>, sep: u8)
    ensures
        split(s, sep).len() >= 1,
        forall|i: int| 0 <= i < split(s, sep).len() ==> free_of(#[trigger] split(s, sep)[i], sep),
    decreases s.len(),
{
    lemma_first_index_of(s, sep);
    let k = first_index_of(s, sep);
    if k < s.len() {
        let rest = s.skip(k + 1);
        lemma_split_pieces(rest, sep);
    }
}

/// Joining the pieces of `s` gives `s` back, so two strings with the same
/// pieces are the same string.
pub proof fn lemma_join_split(s: Seq<u8>, sep: u8)
    ensures
        join(split(s, sep), sep) == s,
    decreases s.len(),
{
    lemma_first_index_of(s, sep);
    let k = first_index_of(s, sep);
    if k < s.len() {
        let rest = s.skip(k + 1);
        let pieces = split(s, sep);
        lemma_join_split(rest, sep);
        assert(pieces.drop_first() =~= split(rest, sep));
    }
}

/// Splitting a join of separator-free pieces gives the pieces back.
pub proof fn lemma_split_join(pieces: Seq<Seq<u8>>, sep: u8)
    requires
        pieces.len() >= 1,
        forall|i: int| 0 <= i < pieces.len() ==> free_of(#[trigger] pieces[i], sep),
    ensures
        split(join(pieces, sep), sep) == pieces,
    decreases pieces.len(),
{
    if pieces.len() == 1 {
        lemma_split_without_separator(pieces[0], sep);
    } else {
        let rest = pieces.drop_first();
        lemma_split_join(rest, sep);
        lemma_split_at_first(pieces[0], join(rest, sep), sep);
    }
}

/// Finds the first `sep` in `s[from..to]`; the result is `to` when there is none.
pub(crate) fn find_byte(s: &[u8], from: usize, to: usize, sep: u8) -> (k: usize)
    requires
        from <= to <= s@.len(),
    ensures
        k == from + first_index_of(s@.subrange(from as int, to as int), sep),
        from <= k <= to,
{
    let mut k: usize = from;
    while k < to && s[k] != sep
        invariant
            from <= k <= to <= s@.len(),
            free_of(s@.subrange(from as int, k as int), sep),
        decreases to - k,
    {
        k = k + 1;
    }
    proof {
        let window = s@.subrange(from as int, to as int);
        lemma_first_index_of_unique(window, sep, k - from);
    }
    k
}

/// Splits `s` on `sep`, giving each piece as a half-open range of indices.
pub fn split_spans(s: &[u8], sep: u8) -> (spans: Vec<(usize, usize)>)
    ensures
        spans_within(spans@, s@.len()),
        pieces_at(s@, spans@) == split(s@, sep),
{
    let len = s.len();
    let mut spans: Vec<(usize, usize)> = Vec::new();
    let mut start: usize = 0;
    proof {
        assert(s@.skip(0) =~= s@);
    }
    loop
        invariant_except_break
            split(s@, sep) == pieces_at(s@, spans@) + split(s@.skip(start as int), sep),
        invariant
            len == s@.len(),
            start <= len,
            spans_within(spans@, s@.len()),
        ensures
            spans_within(spans@, s@.len()),
            pieces_at(s@, spans@) == split(s@, sep),
        decreases len - start,
    {
        let end = find_byte(s, start, len, sep);
        let ghost tail = s@.skip(start as int);
        spans.push((start, end));
        proof {
            assert(tail.take(end - start) =~= s@.subrange(start as int, end as int));
            if end < len {
                assert(tail.skip(end - start + 1) =~= s@.skip(end + 1));
            }
        }
        if end == len {
            break ;
        }
        start = end + 1;
    }
    spans
}

} // verus!
