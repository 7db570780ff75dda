//! Reading the answer of a ref-source: the refs that a remote advertises.
//!
//! The answer is text with one ref to a line, each line of the form
//! `<remote>:<ref-name>`. Lines end in a line feed, or in a carriage return
//! and a line feed; the last line need not end at all. The ref name is what
//! follows the first colon of a line.

use crate::segments::{
    find_byte, first_index_of, free_of, lemma_first_index_of, lemma_first_index_of_unique,
};
use crate::text::{beside_ascii, bytes_of_each, cut, decode_text};
use vstd::prelude::*;
use vstd::utf8::{encode_utf8, valid_utf8};

verus! {

/// The byte that ends a line.
pub const LINE_FEED: u8 = 0x0a;

/// The byte that may stand before the line feed and is then no part of the line.
pub const CARRIAGE_RETURN: u8 = 0x0d;

/// The byte after which the ref name begins, `:`.
pub const COLON: u8 = 0x3a;

/// What a ref-source handed back: whether it reported success, its status as
/// text for diagnostics, and the bytes it wrote.
#[derive(Debug, Clone, PartialEq, Eq)]
pub struct ListOutcome {
    pub success: bool,
    pub status: String,
    pub output: Vec<u8>,
}

/// Why the refs of a remote could not be had.
#[derive(Debug, Clone, PartialEq, Eq)]
pub enum CollaboratorError {
    /// The ref-source reported a status other than success.
    QueryFailed { status: String },
    /// The output of the ref-source is not UTF-8 text.
    NotText,
    /// A line of the output holds no colon.
    MalformedLine { line: String },
}

/// `CollaboratorError` with its texts as values: the status as characters,
/// the offending line as bytes.
pub enum ListingFault {
    QueryFailed { status: Seq<char> },
    NotText,
    MalformedLine { line: Seq<u8> },
}

impl View for CollaboratorError {
    type V = ListingFault;

    open spec fn view(&self) -> ListingFault {
        match self {
            CollaboratorError::QueryFailed { status } => ListingFault::QueryFailed {
                status: status@,
            },
            CollaboratorError::NotText => ListingFault::NotText,
            CollaboratorError::MalformedLine { line } => ListingFault::MalformedLine {
                line: encode_utf8(line@),
            },
        }
    }
}

impl CollaboratorError {
    /// The error in words.
    pub open spec fn message_text(&self) -> Seq<char> {
        match self {
            CollaboratorError::QueryFailed { status } => "failed to list the refs of the remote: "@
                + status@,
            CollaboratorError::NotText => "the listing of refs is not valid UTF-8"@,
            CollaboratorError::MalformedLine { line } => "Invalid remote line: "@ + line@,
        }
    }

    /// The error in words, with the status or the line that it is about.
    pub fn message(&self) -> (text: String)
        ensures
            text@ == self.message_text(),
    {
        match self {
            CollaboratorError::QueryFailed { status } => {
                "failed to list the refs of the remote: ".to_owned().concat(status.as_str())
            },
            CollaboratorError::NotText => "the listing of refs is not valid UTF-8".to_owned(),
            CollaboratorError::MalformedLine { line } => {
                "Invalid remote line: ".to_owned().concat(line.as_str())
            },
        }
    }
}

/// A line without the carriage return that may end it.
pub open spec fn strip_carriage_return(line: Seq<u8>) -> Seq<u8> {
    if line.len() > 0 && line.last() == CARRIAGE_RETURN {
        line.drop_last()
    } else {
        line
    }
}

/// The lines of a text. Each line feed ends a line, and a carriage return
/// right before it belongs to the line ending; what follows the last line
/// feed is a line too unless it is empty.
pub open spec fn lines(text: Seq<u8>) -> Seq<Seq<u8>>
    decreases text.len(),
{
    let k = first_index_of(text, LINE_FEED);
    if text.len() == 0 {
        Seq::empty()
    } else if 0 <= k < text.len() {
        seq![strip_carriage_return(text.take(k))] + lines(text.skip(k + 1))
    } else {
        seq![text]
    }
}

/// The ref name of a line: what follows its first colon. A line without a
/// colon has none.
pub open spec fn ref_name(line: Seq<u8>) -> Option<Seq<u8>> {
    let k = first_index_of(line, COLON);
    if 0 <= k < line.len() {
        Some(line.skip(k + 1))
    } else {
        None
    }
}

/// The ref names of some lines, in order; or, if a line has none, the first
/// such line.
pub open spec fn ref_names(lines: Seq<Seq<u8>>) -> Result<Seq<Seq<u8>>, Seq<u8>>
    decreases lines.len(),
{
    if lines.len() == 0 {
        Ok(Seq::empty())
    } else {
        match ref_names(lines.drop_last()) {
            Err(line) => Err(line),
            Ok(names) => match ref_name(lines.last()) {
                Some(name) => Ok(names.push(name)),
                None => Err(lines.last()),
            },
        }
    }
}

/// The refs that the text of a listing names, or the fault in it.
pub open spec fn parsed_listing(text: Seq<u8>) -> Result<Seq<Seq<u8>>, ListingFault> {
    match ref_names(lines(text)) {
        Ok(names) => Ok(names),
        Err(line) => Err(ListingFault::MalformedLine { line }),
    }
}

/// The refs that a ref-source's answer names, or the fault in the answer.
/// A status other than success comes before anything in the output, and
/// output that is no text before anything in its lines.
pub open spec fn listing(success: bool, status: Seq<char>, output: Seq<u8>) -> Result<
    Seq<Seq<u8>>,
    ListingFault,
> {
    if !success {
        Err(ListingFault::QueryFailed { status })
    } else if !valid_utf8(output) {
        Err(ListingFault::NotText)
    } else {
        parsed_listing(output)
    }
}

/// A result of reading a listing, with its texts as values.
pub open spec fn listing_view(result: Result<Vec<String>, CollaboratorError>) -> Result<
    Seq<Seq<u8>>,
    ListingFault,
> {
    match result {
        Ok(names) => Ok(bytes_of_each(names@)),
        Err(error) => Err(error@),
    }
}

/// The ref names of the lines of `text`.
///
/// Fails on the first line that holds no colon: such a line is not skipped.
/// An empty text names no refs.
pub fn parse_ref_lines(text: &str) -> (result: Result<Vec<String>, CollaboratorError>)
    ensures
        listing_view(result) == parsed_listing(encode_utf8(text@)),
{
    let bytes = text.as_bytes();
    let len = bytes.len();
    let mut names: Vec<String> = Vec::new();
    let mut pos: usize = 0;
    let ghost mut done: Seq<Seq<u8>> = Seq::empty();
    proof {
        assert(bytes@.skip(0) =~= bytes@);
        assert(bytes_of_each(names@) =~= Seq::empty());
    }
    while pos < len
        invariant
            bytes@ == encode_utf8(text@),
            len == bytes@.len(),
            pos <= len,
            beside_ascii(bytes@, pos as int),
            lines(bytes@) == done + lines(bytes@.skip(pos as int)),
            ref_names(done) == Ok::<Seq<Seq<u8>>, Seq<u8>>(bytes_of_each(names@)),
        decreases len - pos,
    {
        let ghost tail = bytes@.skip(pos as int);
        let line_feed = find_byte(bytes, pos, len, LINE_FEED);
        let mut end = line_feed;
        if line_feed < len && pos < line_feed && bytes[line_feed - 1] == CARRIAGE_RETURN {
            end = line_feed - 1;
        }
        let next = if line_feed < len {
            line_feed + 1
        } else {
            len
        };
        let ghost line = bytes@.subrange(pos as int, end as int);
        proof {
            lemma_first_index_of(tail, LINE_FEED);
            if line_feed < len {
                assert(tail.skip(line_feed - pos + 1) =~= bytes@.skip(next as int));
                assert(strip_carriage_return(tail.take(line_feed - pos)) =~= line);
            }
            assert(lines(bytes@) =~= done.push(line) + lines(bytes@.skip(next as int)));
            assert(done.push(line).drop_last() =~= done);
        }
        let colon = find_byte(bytes, pos, end, COLON);
        if colon == end {
            let malformed = cut(text, pos, end).to_owned();
            proof {
                lemma_malformed_fails(done.push(line), lines(bytes@.skip(next as int)));
            }
            return Err(CollaboratorError::MalformedLine { line: malformed });
        }
        proof {
            lemma_first_index_of(line, COLON);
        }
        let name = cut(text, colon + 1, end).to_owned();
        proof {
            assert(line.skip(colon - pos + 1) =~= bytes@.subrange(colon + 1, end as int));
            assert(bytes_of_each(names@.push(name)) =~= bytes_of_each(names@).push(
                encode_utf8(name@),
            ));
            done = done.push(line);
        }
        names.push(name);
        pos = next;
    }
    Ok(names)
}

/// Once some lines have failed, more lines after them fail in the same way.
proof fn lemma_malformed_fails(lines: Seq<Seq<u8>>, more: Seq<Seq<u8>>)
    requires
        ref_names(lines) is Err,
    ensures
        ref_names(lines + more) == ref_names(lines),
    decreases more.len(),
{
    if more.len() > 0 {
        lemma_malformed_fails(lines, more.drop_last());
        assert((lines + more).drop_last() =~= lines + more.drop_last());
    }
}

/// A text of one line, made of a remote without a colon, a colon and a ref
/// name, names that ref and no other.
pub proof fn lemma_line_names_its_ref(remote: Seq<u8>, name: Seq<u8>)
    requires
        free_of(remote, COLON),
        free_of(remote, LINE_FEED),
        free_of(name, LINE_FEED),
    ensures
        parsed_listing(remote + seq![COLON] + name) == Ok::<Seq<Seq<u8>>, ListingFault>(
            seq![name],
        ),
{
    let line = remote + seq![COLON] + name;
    let colon = remote.len() as int;
    lemma_first_index_of(line, LINE_FEED);
    lemma_first_index_of_unique(line, COLON, colon);
    assert(line.skip(colon + 1) =~= name);
    let nothing = Seq::<Seq<u8>>::empty();
    assert(seq![line].drop_last() =~= nothing);
    assert(ref_names(nothing) == Ok::<Seq<Seq<u8>>, Seq<u8>>(nothing));
}

/// True when line `k` is the first of `lines` that holds no colon.
pub open spec fn is_first_malformed(lines: Seq<Seq<u8>>, k: int) -> bool {
    &&& 0 <= k < lines.len()
    &&& free_of(lines[k], COLON)
    &&& forall|j: int| 0 <= j < k ==> !free_of(#[trigger] lines[j], COLON)
}

/// A line has a ref name exactly when it holds a colon.
pub proof fn lemma_ref_name_needs_colon(line: Seq<u8>)
    ensures
        ref_name(line) is None <==> free_of(line, COLON),
{
    lemma_first_index_of(line, COLON);
}

/// One line without a colon fails the whole listing: the result is then the
/// first such line, and no ref name at all. Without such a line every line
/// gives its ref name, in order.
pub proof fn lemma_one_malformed_line_fails_all(lines: Seq<Seq<u8>>)
    ensures
        ref_names(lines) is Err <==> exists|k: int|
            0 <= k < lines.len() && free_of(#[trigger] lines[k], COLON),
        ref_names(lines) matches Err(line) ==> exists|k: int|
            is_first_malformed(lines, k) && line == lines[k],
        ref_names(lines) matches Ok(names) ==> names.len() == lines.len() && forall|i: int|
            0 <= i < lines.len() ==> ref_name(#[trigger] lines[i]) == Some(names[i]),
    decreases lines.len(),
{
    if lines.len() > 0 {
        let before = lines.drop_last();
        let last = lines.last();
        lemma_one_malformed_line_fails_all(before);
        lemma_ref_name_needs_colon(last);
        assert forall|j: int| 0 <= j < before.len() implies before[j] == lines[j] by {}
    }
}

/// Reads the answer of a ref-source: the ref names it lists, in the order in
/// which it lists them.
///
/// Fails when the ref-source reported a status other than success, when its
/// output is not text, and when a line of the output holds no colon.
pub fn read_listing(outcome: &ListOutcome) -> (result: Result<Vec<String>, CollaboratorError>)
    ensures
        listing_view(result) == listing(outcome.success, outcome.status@, outcome.output@),
{
    if !outcome.success {
        return Err(CollaboratorError::QueryFailed { status: outcome.status.clone() });
    }
    match decode_text(outcome.output.as_slice()) {
        None => Err(CollaboratorError::NotText),
        Some(text) => parse_ref_lines(text),
    }
}

} // verus!
