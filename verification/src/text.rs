//! Splitting a text at a delimiter and joining the pieces again, as
//! mathematical functions on sequences of characters and as executable
//! functions on strings.

use vstd::prelude::*;
use vstd::std_specs::iter::IteratorSpec;
use vstd::string::*;
use crate::delimiter::Delimiter;

verus! {

broadcast use vstd::string::group_string_axioms;

/// Whether `text` holds no `delimiter`.
pub open spec fn delimiter_free(text: Seq<char>, delimiter: char) -> bool {
    forall|i: int| 0 <= i < text.len() ==> text[i] != delimiter
}

/// Whether no entry holds `delimiter`.
pub open spec fn all_delimiter_free(entries: Seq<Seq<char>>, delimiter: char) -> bool {
    forall|i: int| 0 <= i < entries.len() ==> delimiter_free(#[trigger] entries[i], delimiter)
}

/// The position of the first `delimiter` in `text`, or the length of `text`
/// where it holds none.
pub open spec fn first_delimiter(text: Seq<char>, delimiter: char) -> int
    decreases text.len(),
{
    if text.len() == 0 || text[0] == delimiter {
        0
    } else {
        1 + first_delimiter(text.drop_first(), delimiter)
    }
}

/// The pieces of `text` between its delimiters, in order. A text without a
/// delimiter is one piece, the empty text included; two delimiters in a row
/// have an empty piece between them.
pub open spec fn split(text: Seq<char>, delimiter: char) -> Seq<Seq<char>>
    decreases text.len(),
{
    let k = first_delimiter(text, delimiter);
    if 0 <= k < text.len() {
        seq![text.take(k)] + split(text.skip(k + 1), delimiter)
    } else {
        seq![text]
    }
}

/// The entries written one after another with `delimiter` between each two
/// neighbours. No entries give the empty text.
pub open spec fn join(entries: Seq<Seq<char>>, delimiter: char) -> Seq<char>
    decreases entries.len(),
{
    if entries.len() == 0 {
        Seq::empty()
    } else if entries.len() == 1 {
        entries[0]
    } else {
        join(entries.drop_last(), delimiter).push(delimiter) + entries.last()
    }
}

/// Splits `raw` at every `delimiter`. Nothing is trimmed, dropped or checked:
/// the pieces are exactly what stands between the delimiters.
pub fn split_text(raw: &str, delimiter: Delimiter) -> (pieces: Vec<String>)
    ensures
        pieces.deep_view() == split(raw@, delimiter.as_char()),
{
    let d = delimiter.to_char();
    let n = raw.unicode_len();
    let mut pieces: Vec<String> = Vec::new();
    let mut chars = raw.chars();
    let mut start: usize = 0;
    let mut i: usize = 0;
    assert(raw@.skip(0) =~= raw@);
    while i < n
        invariant
            start <= i <= n,
            n == raw@.len(),
            d == delimiter.as_char(),
            chars.remaining() == raw@.skip(i as int),
            delimiter_free(raw@.subrange(start as int, i as int), d),
            split(raw@, d) == pieces.deep_view() + split(raw@.skip(start as int), d),
        decreases n - i,
    {
        let next = chars.next();
        let here = match next {
            Some(c) => c == d,
            None => false,
        };
        if here {
            let piece = raw.substring_char(start, i).to_owned();
            proof {
                let tail = raw@.skip(start as int);
                let k = i - start;
                assert(tail.take(k) =~= raw@.subrange(start as int, i as int));
                assert(tail.skip(k + 1) =~= raw@.skip(i + 1));
                lemma_first_delimiter_is(tail, d, k);
            }
            pieces.push(piece);
            start = i + 1;
        }
        i += 1;
    }
    let piece = raw.substring_char(start, n).to_owned();
    proof {
        let tail = raw@.skip(start as int);
        lemma_first_delimiter_is(tail, d, tail.len() as int);
    }
    pieces.push(piece);
    pieces
}

/// Writes the entries one after another with `delimiter` between each two
/// neighbours.
pub fn join_text(entries: &Vec<String>, delimiter: Delimiter) -> (text: String)
    ensures
        text@ == join(entries.deep_view(), delimiter.as_char()),
{
    let ghost d = delimiter.as_char();
    let ghost all = entries.deep_view();
    if entries.len() == 0 {
        return String::new();
    }
    let mut text = entries[0].clone();
    let mut i: usize = 1;
    while i < entries.len()
        invariant
            1 <= i <= entries.len(),
            all == entries.deep_view(),
            d == delimiter.as_char(),
            text@ == join(all.take(i as int), d),
        decreases entries.len() - i,
    {
        proof {
            let longer = all.take(i + 1);
            assert(longer.drop_last() =~= all.take(i as int));
        }
        text.append(delimiter.as_str());
        text.append(entries[i].as_str());
        i += 1;
    }
    assert(all.take(i as int) =~= all);
    text
}

/// `first_delimiter` is the least position that holds the delimiter.
pub proof fn lemma_first_delimiter(text: Seq<char>, delimiter: char)
    ensures
        0 <= first_delimiter(text, delimiter) <= text.len(),
        delimiter_free(text.take(first_delimiter(text, delimiter)), delimiter),
        first_delimiter(text, delimiter) < text.len() ==> text[first_delimiter(text, delimiter)]
            == delimiter,
    decreases text.len(),
{
    if text.len() == 0 || text[0] == delimiter {
    } else {
        let rest = text.drop_first();
        lemma_first_delimiter(rest, delimiter);
        let k = first_delimiter(rest, delimiter);
        let front = text.take(k + 1);
        assert forall|i: int| 0 <= i < front.len() implies front[i] != delimiter by {
            if i > 0 {
                assert(rest.take(k)[i - 1] == text[i]);
            }
        }
    }
}

/// A position before which the text holds no delimiter, and which holds one
/// itself or is the end of the text, is `first_delimiter`.
pub proof fn lemma_first_delimiter_is(text: Seq<char>, delimiter: char, k: int)
    requires
        0 <= k <= text.len(),
        delimiter_free(text.take(k), delimiter),
        k < text.len() ==> text[k] == delimiter,
    ensures
        first_delimiter(text, delimiter) == k,
    decreases text.len(),
{
    if text.len() == 0 {
    } else if text[0] == delimiter {
        if k > 0 {
            assert(text.take(k)[0] == delimiter);
        }
    } else {
        let rest = text.drop_first();
        let front = rest.take(k - 1);
        assert forall|i: int| 0 <= i < front.len() implies front[i] != delimiter by {
            assert(text.take(k)[i + 1] == rest[i]);
        }
        lemma_first_delimiter_is(rest, delimiter, k - 1);
    }
}

/// Splitting gives at least one piece, and no piece holds the delimiter.
pub proof fn lemma_split_pieces(text: Seq<char>, delimiter: char)
    ensures
        split(text, delimiter).len() >= 1,
        all_delimiter_free(split(text, delimiter), delimiter),
    decreases text.len(),
{
    lemma_first_delimiter(text, delimiter);
    let k = first_delimiter(text, delimiter);
    if k < text.len() {
        lemma_split_pieces(text.skip(k + 1), delimiter);
    } else {
        assert(text.take(k) =~= text);
    }
}

/// Joining with one more entry in front puts that entry and a delimiter
/// before the join of the others.
pub proof fn lemma_join_front(first: Seq<char>, rest: Seq<Seq<char>>, delimiter: char)
    requires
        rest.len() >= 1,
    ensures
        join(seq![first] + rest, delimiter) == first.push(delimiter) + join(rest, delimiter),
    decreases rest.len(),
{
    let all = seq![first] + rest;
    assert(all.drop_last() =~= seq![first] + rest.drop_last());
    if rest.len() == 1 {
        assert(join(seq![first], delimiter) == first);
    } else {
        lemma_join_front(first, rest.drop_last(), delimiter);
    }
}

/// Joining the pieces of a text with the delimiter they were split at gives
/// the text back.
pub proof fn lemma_join_of_split(text: Seq<char>, delimiter: char)
    ensures
        join(split(text, delimiter), delimiter) == text,
    decreases text.len(),
{
    lemma_first_delimiter(text, delimiter);
    let k = first_delimiter(text, delimiter);
    if k < text.len() {
        let rest = text.skip(k + 1);
        lemma_join_of_split(rest, delimiter);
        lemma_join_front(text.take(k), split(rest, delimiter), delimiter);
    }
}

/// Splitting the join of at least one entry, none of which holds the
/// delimiter, gives the entries back.
pub proof fn lemma_split_of_join(entries: Seq<Seq<char>>, delimiter: char)
    requires
        entries.len() >= 1,
        all_delimiter_free(entries, delimiter),
    ensures
        split(join(entries, delimiter), delimiter) == entries,
    decreases entries.len(),
{
    let first = entries[0];
    if entries.len() == 1 {
        lemma_first_delimiter_is(first, delimiter, first.len() as int);
    } else {
        let rest = entries.drop_first();
        assert(entries =~= seq![first] + rest);
        lemma_join_front(first, rest, delimiter);
        let text = first.push(delimiter) + join(rest, delimiter);
        assert(text.take(first.len() as int) =~= first);
        assert(text.skip(first.len() as int + 1) =~= join(rest, delimiter));
        lemma_first_delimiter_is(text, delimiter, first.len() as int);
        lemma_split_of_join(rest, delimiter);
    }
}

} // verus!
