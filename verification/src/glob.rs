//! Matching ref names against a glob.
//!
//! A ref name and a glob are both lists of segments separated by `/`. A glob
//! segment is either the wildcard `*`, which stands for any one segment, or a
//! literal, which stands for itself. A name matches when it has as many
//! segments as the glob and each of them is matched by the glob's segment at
//! the same place. Text is compared by its UTF-8 bytes.

use crate::segments::{lemma_join_split, pieces_at, spans_within, split, split_spans};
use crate::text::bytes_of_each;
use vstd::prelude::*;
use vstd::utf8::{encode_utf8, encode_utf8_decode_utf8};

verus! {

/// The byte that separates segments, `/`.
pub const SEPARATOR: u8 = 0x2f;

/// The byte that makes up the wildcard segment, `*`.
pub const WILDCARD: u8 = 0x2a;

/// The segments of a ref name or of a glob.
pub open spec fn segments(name: Seq<u8>) -> Seq<Seq<u8>> {
    split(name, SEPARATOR)
}

/// True when a glob segment is the wildcard: the single byte `*`.
pub open spec fn is_wildcard(segment: Seq<u8>) -> bool {
    segment =~= seq![WILDCARD]
}

/// True when one glob segment admits one segment of a name.
pub open spec fn segment_matches(pattern: Seq<u8>, segment: Seq<u8>) -> bool {
    is_wildcard(pattern) || pattern =~= segment
}

/// True when `name` matches `glob`: equally many segments, and each segment of
/// the name admitted by the glob's segment at the same position.
pub open spec fn ref_matches(name: Seq<u8>, glob: Seq<u8>) -> bool {
    &&& segments(name).len() == segments(glob).len()
    &&& forall|i: int|
        0 <= i < segments(glob).len() ==> segment_matches(
            #[trigger] segments(glob)[i],
            segments(name)[i],
        )
}

/// `ref_matches` on the UTF-8 bytes of two strings.
pub open spec fn name_matches(name: &str, glob: &str) -> bool {
    ref_matches(encode_utf8(name@), encode_utf8(glob@))
}

/// The refs that match `glob`, each as often as it occurs and in the order
/// in which they occur in `all_refs`.
pub open spec fn matching_refs<'a>(all_refs: Seq<&'a str>, glob: &str) -> Seq<&'a str> {
    all_refs.filter(|name: &str| name_matches(name, glob))
}

/// `matching_refs` on names and a glob that are given by their bytes.
pub open spec fn matching_names(names: Seq<Seq<u8>>, glob: Seq<u8>) -> Seq<Seq<u8>> {
    names.filter(|name: Seq<u8>| ref_matches(name, glob))
}

/// True when every segment of a glob is the wildcard.
pub open spec fn all_wildcards(glob: Seq<u8>) -> bool {
    forall|i: int| 0 <= i < segments(glob).len() ==> is_wildcard(#[trigger] segments(glob)[i])
}

/// True when no segment of a glob is the wildcard.
pub open spec fn no_wildcards(glob: Seq<u8>) -> bool {
    forall|i: int| 0 <= i < segments(glob).len() ==> !is_wildcard(#[trigger] segments(glob)[i])
}

/// True when a name has as many segments as a glob.
pub open spec fn same_segment_count(name: &str, glob: &str) -> bool {
    segments(encode_utf8(name@)).len() == segments(encode_utf8(glob@)).len()
}

/// True when `positions` lists, in rising order and without gaps, the places
/// in `all_refs` of the names that match `glob`, and `selected` holds the
/// names at those places.
pub open spec fn selects_in_order(
    selected: Seq<&str>,
    all_refs: Seq<&str>,
    glob: &str,
    positions: Seq<int>,
) -> bool {
    &&& positions.len() == selected.len()
    &&& forall|k: int|
        0 <= k < positions.len() ==> 0 <= #[trigger] positions[k] < all_refs.len()
            && selected[k] == all_refs[positions[k]] && name_matches(all_refs[positions[k]], glob)
    &&& forall|j: int, k: int|
        0 <= j < k < positions.len() ==> #[trigger] positions[j] < #[trigger] positions[k]
    &&& forall|i: int|
        0 <= i < all_refs.len() && name_matches(#[trigger] all_refs[i], glob) ==> positions.contains(
            i,
        )
}

/// Two predicates that agree everywhere select the same elements.
proof fn lemma_filter_agree<A>(s: Seq<A>, p: spec_fn(A) -> bool, q: spec_fn(A) -> bool)
    requires
        forall|x: A| #[trigger] p(x) == q(x),
    ensures
        s.filter(p) == s.filter(q),
    decreases s.len(),
{
    if s.len() > 0 {
        let rest = s.drop_last();
        lemma_filter_agree(rest, p, q);
        assert(s =~= rest.push(s.last()));
        rest.lemma_filter_push(s.last(), p);
        rest.lemma_filter_push(s.last(), q);
    }
}

/// Selecting and then mapping is mapping and then selecting, where the two
/// predicates agree across the map.
proof fn lemma_filter_map_commute<A, B>(
    s: Seq<A>,
    f: spec_fn(A) -> B,
    p: spec_fn(A) -> bool,
    q: spec_fn(B) -> bool,
)
    requires
        forall|x: A| #[trigger] p(x) == q(f(x)),
    ensures
        s.filter(p).map_values(f) == s.map_values(f).filter(q),
    decreases s.len(),
{
    if s.len() > 0 {
        let rest = s.drop_last();
        let last = s.last();
        lemma_filter_map_commute(rest, f, p, q);
        assert(s =~= rest.push(last));
        assert(s.map_values(f) =~= rest.map_values(f).push(f(last)));
        rest.lemma_filter_push(last, p);
        rest.map_values(f).lemma_filter_push(f(last), q);
        assert(rest.filter(p).push(last).map_values(f) =~= rest.filter(p).map_values(f).push(
            f(last),
        ));
    }
}

/// A name that matches a glob has as many segments as the glob.
pub proof fn lemma_match_fixes_segment_count(all_refs: Seq<&str>, glob: &str)
    ensures
        forall|name: &str| #[trigger] name_matches(name, glob) ==> same_segment_count(name, glob),
        forall|i: int|
            0 <= i < matching_refs(all_refs, glob).len() ==> same_segment_count(
                #[trigger] matching_refs(all_refs, glob)[i],
                glob,
            ),
{
}

/// A glob made of wildcards alone selects exactly the names that have as many
/// segments as it has.
pub proof fn lemma_wildcards_select_by_count(all_refs: Seq<&str>, glob: &str)
    requires
        all_wildcards(encode_utf8(glob@)),
    ensures
        forall|name: &str| #[trigger] name_matches(name, glob) <==> same_segment_count(name, glob),
        matching_refs(all_refs, glob) == all_refs.filter(
            |name: &str| same_segment_count(name, glob),
        ),
{
    lemma_filter_agree(
        all_refs,
        |name: &str| name_matches(name, glob),
        |name: &str| same_segment_count(name, glob),
    );
}

/// Against a glob without wildcards a byte string matches exactly when it is
/// the glob.
pub proof fn lemma_literal_match_is_equality(name: Seq<u8>, glob: Seq<u8>)
    requires
        no_wildcards(glob),
    ensures
        ref_matches(name, glob) <==> name == glob,
{
    if ref_matches(name, glob) {
        assert(segments(name) =~= segments(glob));
        lemma_join_split(name, SEPARATOR);
        lemma_join_split(glob, SEPARATOR);
    }
}

/// A glob without wildcards selects exactly the names that are equal to it.
pub proof fn lemma_literal_glob_selects_equal_names(all_refs: Seq<&str>, glob: &str)
    requires
        no_wildcards(encode_utf8(glob@)),
    ensures
        forall|name: &str| #[trigger] name_matches(name, glob) <==> name@ == glob@,
        matching_refs(all_refs, glob) == all_refs.filter(|name: &str| name@ == glob@),
{
    assert forall|name: &str| #[trigger] name_matches(name, glob) <==> name@ == glob@ by {
        lemma_literal_match_is_equality(encode_utf8(name@), encode_utf8(glob@));
        encode_utf8_decode_utf8(name@);
        encode_utf8_decode_utf8(glob@);
    }
    lemma_filter_agree(
        all_refs,
        |name: &str| name_matches(name, glob),
        |name: &str| name@ == glob@,
    );
}

/// The selected names stand in the order in which they stand in `all_refs`:
/// they are the names at the matching places, taken from first to last.
pub proof fn lemma_selection_keeps_order(all_refs: Seq<&str>, glob: &str) -> (positions: Seq<int>)
    ensures
        selects_in_order(matching_refs(all_refs, glob), all_refs, glob, positions),
    decreases all_refs.len(),
{
    let admits = |name: &str| name_matches(name, glob);
    if all_refs.len() == 0 {
        Seq::empty()
    } else {
        let rest = all_refs.drop_last();
        let last = all_refs.last();
        let before = lemma_selection_keeps_order(rest, glob);
        assert(all_refs =~= rest.push(last));
        rest.lemma_filter_push(last, admits);
        let positions = if name_matches(last, glob) {
            before.push(all_refs.len() - 1)
        } else {
            before
        };
        assert forall|i: int|
            0 <= i < all_refs.len() && name_matches(
                #[trigger] all_refs[i],
                glob,
            ) implies positions.contains(i) by {
            if i < rest.len() {
                let k = choose|k: int| 0 <= k < before.len() && before[k] == i;
                assert(positions[k] == i);
            } else {
                assert(positions[positions.len() - 1] == i);
            }
        }
        positions
    }
}

/// The selection depends on nothing but the text of the names and of the
/// glob: from the same names and the same glob it is the same, whenever and
/// wherever it is made.
pub proof fn lemma_selection_depends_on_text_alone(
    all_refs: Seq<&str>,
    glob: &str,
    same_refs: Seq<&str>,
    same_glob: &str,
)
    requires
        same_refs.len() == all_refs.len(),
        forall|i: int| 0 <= i < all_refs.len() ==> (#[trigger] same_refs[i])@ == all_refs[i]@,
        same_glob@ == glob@,
    ensures
        matching_refs(same_refs, same_glob).map_values(|name: &str| name@) == matching_refs(
            all_refs,
            glob,
        ).map_values(|name: &str| name@),
{
    let text = |name: &str| name@;
    let admits = |name: Seq<char>| ref_matches(encode_utf8(name), encode_utf8(glob@));
    lemma_filter_map_commute(all_refs, text, |name: &str| name_matches(name, glob), admits);
    lemma_filter_map_commute(same_refs, text, |name: &str| name_matches(name, same_glob), admits);
    assert(same_refs.map_values(text) =~= all_refs.map_values(text));
}

/// Selecting again from a selection, by the same glob, changes nothing.
pub proof fn lemma_selection_is_idempotent(all_refs: Seq<&str>, glob: &str)
    ensures
        matching_refs(matching_refs(all_refs, glob), glob) == matching_refs(all_refs, glob),
    decreases all_refs.len(),
{
    let admits = |name: &str| name_matches(name, glob);
    if all_refs.len() > 0 {
        let rest = all_refs.drop_last();
        let last = all_refs.last();
        lemma_selection_is_idempotent(rest, glob);
        assert(all_refs =~= rest.push(last));
        rest.lemma_filter_push(last, admits);
        if name_matches(last, glob) {
            rest.filter(admits).lemma_filter_push(last, admits);
        }
    }
}

/// Compares the bytes of two ranges.
fn span_eq(a: &[u8], a_span: (usize, usize), b: &[u8], b_span: (usize, usize)) -> (eq: bool)
    requires
        a_span.0 <= a_span.1 <= a@.len(),
        b_span.0 <= b_span.1 <= b@.len(),
    ensures
        eq == (a@.subrange(a_span.0 as int, a_span.1 as int) =~= b@.subrange(
            b_span.0 as int,
            b_span.1 as int,
        )),
{
    let ghost left = a@.subrange(a_span.0 as int, a_span.1 as int);
    let ghost right = b@.subrange(b_span.0 as int, b_span.1 as int);
    let len = a_span.1 - a_span.0;
    if b_span.1 - b_span.0 != len {
        return false;
    }
    let mut i: usize = 0;
    while i < len
        invariant
            i <= len,
            len == a_span.1 - a_span.0,
            len == b_span.1 - b_span.0,
            a_span.1 <= a@.len(),
            b_span.1 <= b@.len(),
            left == a@.subrange(a_span.0 as int, a_span.1 as int),
            right == b@.subrange(b_span.0 as int, b_span.1 as int),
            forall|j: int| 0 <= j < i ==> left[j] == right[j],
        decreases len - i,
    {
        if a[a_span.0 + i] != b[b_span.0 + i] {
            assert(left[i as int] != right[i as int]);
            return false;
        }
        i = i + 1;
    }
    true
}

/// Decides whether `name` matches `glob`, given the glob's segments as ranges.
fn matches_spans(name: &[u8], glob: &[u8], glob_spans: &Vec<(usize, usize)>) -> (m: bool)
    requires
        spans_within(glob_spans@, glob@.len()),
        pieces_at(glob@, glob_spans@) == segments(glob@),
    ensures
        m == ref_matches(name@, glob@),
{
    let name_spans = split_spans(name, SEPARATOR);
    if name_spans.len() != glob_spans.len() {
        return false;
    }
    let count = glob_spans.len();
    let mut i: usize = 0;
    while i < count
        invariant
            i <= count,
            count == glob_spans@.len(),
            count == name_spans@.len(),
            spans_within(glob_spans@, glob@.len()),
            spans_within(name_spans@, name@.len()),
            pieces_at(glob@, glob_spans@) == segments(glob@),
            pieces_at(name@, name_spans@) == segments(name@),
            forall|j: int|
                0 <= j < i ==> segment_matches(#[trigger] segments(glob@)[j], segments(name@)[j]),
        decreases count - i,
    {
        let g = glob_spans[i];
        let n = name_spans[i];
        let wildcard = g.1 - g.0 == 1 && glob[g.0] == WILDCARD;
        assert(wildcard == is_wildcard(segments(glob@)[i as int])) by {
            assert(seq![WILDCARD][0] == WILDCARD);
        }
        if !wildcard && !span_eq(glob, g, name, n) {
            return false;
        }
        i = i + 1;
    }
    true
}

/// Decides whether one ref name matches a glob.
pub fn matches_glob(name: &str, glob: &str) -> (m: bool)
    ensures
        m == name_matches(name, glob),
{
    let pattern = glob.as_bytes();
    let glob_spans = split_spans(pattern, SEPARATOR);
    matches_spans(name.as_bytes(), pattern, &glob_spans)
}

/// Selects from `all_refs` the names that match `glob`.
///
/// The result borrows the selected names from `all_refs`, keeps their order
/// and keeps a name that occurs several times as often as it occurs. The
/// result is a function of the two arguments alone.
pub fn glob_match_refs<'a>(all_refs: &'a [&str], glob: &str) -> (matched: Vec<&'a str>)
    ensures
        matched@ == matching_refs(all_refs@, glob),
{
    let pattern = glob.as_bytes();
    let glob_spans = split_spans(pattern, SEPARATOR);
    let ghost admits = |name: &str| name_matches(name, glob);
    let mut matched: Vec<&'a str> = Vec::new();
    let mut i: usize = 0;
    while i < all_refs.len()
        invariant
            i <= all_refs@.len(),
            pattern@ == encode_utf8(glob@),
            spans_within(glob_spans@, pattern@.len()),
            pieces_at(pattern@, glob_spans@) == segments(pattern@),
            admits == (|name: &str| name_matches(name, glob)),
            matched@ == all_refs@.take(i as int).filter(admits),
        decreases all_refs@.len() - i,
    {
        let name: &'a str = all_refs[i];
        proof {
            assert(all_refs@.take(i + 1) =~= all_refs@.take(i as int).push(name));
            all_refs@.take(i as int).lemma_filter_push(name, admits);
        }
        if matches_spans(name.as_bytes(), pattern, &glob_spans) {
            matched.push(name);
        }
        i = i + 1;
    }
    proof {
        assert(all_refs@.take(i as int) =~= all_refs@);
    }
    matched
}

/// Selects from `names` the names that match `glob`, as strings of their own.
///
/// Order and repetitions are kept, as by `glob_match_refs`.
pub fn select_matching(names: &Vec<String>, glob: &str) -> (matched: Vec<String>)
    ensures
        bytes_of_each(matched@) == matching_names(bytes_of_each(names@), encode_utf8(glob@)),
{
    let ghost bytes = |name: &str| encode_utf8(name@);
    let mut borrowed: Vec<&str> = Vec::new();
    let mut i: usize = 0;
    while i < names.len()
        invariant
            i <= names@.len(),
            borrowed@.len() == i,
            forall|j: int| 0 <= j < i ==> (#[trigger] borrowed@[j])@ == names@[j]@,
        decreases names@.len() - i,
    {
        borrowed.push(names[i].as_str());
        i = i + 1;
    }
    let selected = glob_match_refs(borrowed.as_slice(), glob);
    let mut matched: Vec<String> = Vec::new();
    let mut k: usize = 0;
    while k < selected.len()
        invariant
            k <= selected@.len(),
            matched@.len() == k,
            forall|j: int| 0 <= j < k ==> (#[trigger] matched@[j])@ == selected@[j]@,
        decreases selected@.len() - k,
    {
        matched.push(selected[k].to_owned());
        k = k + 1;
    }
    proof {
        lemma_filter_map_commute(
            borrowed@,
            bytes,
            |name: &str| name_matches(name, glob),
            |name: Seq<u8>| ref_matches(name, encode_utf8(glob@)),
        );
        assert(borrowed@.map_values(bytes) =~= bytes_of_each(names@));
    }
    matched
}

} // verus!
