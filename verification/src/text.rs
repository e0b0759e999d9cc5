//! Trimming and splitting of text, as the map reader needs them.

use vstd::prelude::*;
use vstd::string::*;

verus! {

/// White space as Unicode defines it (the property `White_Space`).
pub open spec fn is_whitespace(c: char) -> bool {
    let n = c as u32;
    ||| 0x09 <= n <= 0x0D
    ||| n == 0x20
    ||| n == 0x85
    ||| n == 0xA0
    ||| n == 0x1680
    ||| 0x2000 <= n <= 0x200A
    ||| n == 0x2028
    ||| n == 0x2029
    ||| n == 0x202F
    ||| n == 0x205F
    ||| n == 0x3000
}

/// `text` without the white space at its start.
pub open spec fn trim_start(text: Seq<char>) -> Seq<char>
    decreases text.len(),
{
    if text.len() > 0 && is_whitespace(text[0]) {
        trim_start(text.drop_first())
    } else {
        text
    }
}

/// `text` without the white space at its end.
pub open spec fn trim_end(text: Seq<char>) -> Seq<char>
    decreases text.len(),
{
    if text.len() > 0 && is_whitespace(text.last()) {
        trim_end(text.drop_last())
    } else {
        text
    }
}

/// `text` without the white space at both ends.
pub open spec fn trim(text: Seq<char>) -> Seq<char> {
    trim_end(trim_start(text))
}

/// The pieces of `text` between the occurrences of `separator`, in
/// order. There is one piece more than there are separators; a piece is
/// empty where two separators meet and where `text` starts or ends with
/// one.
pub open spec fn split(text: Seq<char>, separator: char) -> Seq<Seq<char>>
    decreases text.len(),
{
    if text.len() == 0 {
        seq![Seq::empty()]
    } else {
        let before = split(text.drop_last(), separator);
        if text.last() == separator {
            before.push(Seq::empty())
        } else {
            before.drop_last().push(before.last().push(text.last()))
        }
    }
}

/// The pieces put together again, with `separator` between each two.
pub open spec fn join(pieces: Seq<Seq<char>>, separator: char) -> Seq<char>
    decreases pieces.len(),
{
    if pieces.len() == 0 {
        Seq::empty()
    } else if pieces.len() == 1 {
        pieces[0]
    } else {
        join(pieces.drop_last(), separator).push(separator) + pieces.last()
    }
}

/// What `trim_start` takes off is white space, and what it leaves does
/// not start with any.
pub proof fn lemma_trim_start(text: Seq<char>)
    ensures
        trim_start(text).len() <= text.len(),
        trim_start(text) == text.skip(text.len() - trim_start(text).len()),
        forall|i: int| 0 <= i < text.len() - trim_start(text).len() ==> is_whitespace(text[i]),
        trim_start(text).len() > 0 ==> !is_whitespace(trim_start(text).first()),
    decreases text.len(),
{
    if text.len() > 0 && is_whitespace(text[0]) {
        let rest = text.drop_first();
        lemma_trim_start(rest);
        assert forall|i: int| 0 <= i < text.len() - trim_start(text).len() implies is_whitespace(
            text[i],
        ) by {
            if i > 0 {
                assert(text[i] == rest[i - 1]);
            }
        }
    }
}

/// What `trim_end` takes off is white space, and what it leaves does not
/// end with any.
pub proof fn lemma_trim_end(text: Seq<char>)
    ensures
        trim_end(text).len() <= text.len(),
        trim_end(text) == text.take(trim_end(text).len() as int),
        forall|i: int| trim_end(text).len() <= i < text.len() ==> is_whitespace(text[i]),
        trim_end(text).len() > 0 ==> !is_whitespace(trim_end(text).last()),
    decreases text.len(),
{
    if text.len() > 0 && is_whitespace(text.last()) {
        let rest = text.drop_last();
        lemma_trim_end(rest);
        assert forall|i: int| trim_end(text).len() <= i < text.len() implies is_whitespace(
            text[i],
        ) by {
            if i < rest.len() {
                assert(text[i] == rest[i]);
            }
        }
    }
}

/// `trim` gives the part of `text` from its first to its last character
/// that is no white space: all that it takes off at either end is white
/// space, and what it leaves neither starts nor ends with any.
pub proof fn lemma_trim(text: Seq<char>)
    ensures
        exists|from: int, to: int|
            {
                &&& 0 <= from <= to <= text.len()
                &&& trim(text) == #[trigger] text.subrange(from, to)
                &&& forall|i: int| 0 <= i < from ==> is_whitespace(text[i])
                &&& forall|i: int| to <= i < text.len() ==> is_whitespace(text[i])
            },
        trim(text).len() > 0 ==> !is_whitespace(trim(text).first()) && !is_whitespace(
            trim(text).last(),
        ),
{
    let inner = trim_start(text);
    lemma_trim_start(text);
    lemma_trim_end(inner);
    let from = text.len() - inner.len();
    let to = from + trim(text).len();
    assert(trim(text) =~= text.subrange(from, to));
    assert forall|i: int| to <= i < text.len() implies is_whitespace(text[i]) by {
        assert(text[i] == inner[i - from]);
    }
}

/// A split gives at least one piece, no piece holds the separator, and
/// the pieces joined by the separator are the text again.
pub proof fn lemma_split(text: Seq<char>, separator: char)
    ensures
        split(text, separator).len() > 0,
        forall|i: int, j: int|
            0 <= i < split(text, separator).len() && 0 <= j < split(text, separator)[i].len()
                ==> #[trigger] split(text, separator)[i][j] != separator,
        join(split(text, separator), separator) == text,
    decreases text.len(),
{
    if text.len() > 0 {
        let before = split(text.drop_last(), separator);
        let pieces = split(text, separator);
        lemma_split(text.drop_last(), separator);
        if text.last() == separator {
            assert(pieces.drop_last() =~= before);
        } else {
            let last = before.last().push(text.last());
            assert(pieces.drop_last() =~= before.drop_last());
            if before.len() > 1 {
                assert((join(before.drop_last(), separator).push(separator) + before.last()).push(
                    text.last(),
                ) =~= join(before.drop_last(), separator).push(separator) + last);
            }
        }
    }
}

/// The characters of a string, one by one.
pub fn chars_of(text: &str) -> (chars: Vec<char>)
    ensures
        chars@ == text@,
{
    let mut chars: Vec<char> = Vec::new();
    for c in it: text.chars()
        invariant
            it.seq() == text@,
            chars@ == it.seq().take(it.index()),
    {
        chars.push(c);
    }
    chars
}

/// Tells whether `c` is white space.
pub fn is_space(c: char) -> (yes: bool)
    ensures
        yes == is_whitespace(c),
{
    let n = c as u32;
    (0x09 <= n && n <= 0x0D) || n == 0x20 || n == 0x85 || n == 0xA0 || n == 0x1680 || (0x2000 <= n
        && n <= 0x200A) || n == 0x2028 || n == 0x2029 || n == 0x202F || n == 0x205F || n == 0x3000
}

/// Copies `text` without the white space at both ends.
pub fn trimmed(text: &Vec<char>) -> (kept: Vec<char>)
    ensures
        kept@ == trim(text@),
{
    let mut start: usize = 0;
    assert(text@.skip(0) =~= text@);
    while start < text.len() && is_space(text[start])
        invariant
            start <= text@.len(),
            trim_start(text@) == trim_start(text@.skip(start as int)),
        decreases text@.len() - start,
    {
        assert(text@.skip(start as int).drop_first() =~= text@.skip(start + 1));
        start += 1;
    }
    let mut end: usize = text.len();
    while end > start && is_space(text[end - 1])
        invariant
            start <= end <= text@.len(),
            trim(text@) == trim_end(text@.subrange(start as int, end as int)),
        decreases end,
    {
        assert(text@.subrange(start as int, end as int).drop_last() =~= text@.subrange(
            start as int,
            end - 1,
        ));
        end -= 1;
    }
    let mut kept: Vec<char> = Vec::new();
    let mut i: usize = start;
    while i < end
        invariant
            start <= i <= end <= text@.len(),
            kept@ == text@.subrange(start as int, i as int),
        decreases end - i,
    {
        kept.push(text[i]);
        i += 1;
    }
    kept
}

/// Cuts `text` at every `separator`.
pub fn split_at(text: &Vec<char>, separator: char) -> (pieces: Vec<Vec<char>>)
    ensures
        pieces.deep_view() == split(text@, separator),
{
    let mut pieces: Vec<Vec<char>> = Vec::new();
    let mut piece: Vec<char> = Vec::new();
    let mut i: usize = 0;
    while i < text.len()
        invariant
            i <= text@.len(),
            pieces.deep_view().push(piece@) == split(text@.take(i as int), separator),
        decreases text@.len() - i,
    {
        let c = text[i];
        proof {
            assert(text@.take(i + 1).drop_last() =~= text@.take(i as int));
        }
        if c == separator {
            assert(piece.deep_view() =~= piece@);
            pieces.push(piece);
            piece = Vec::new();
        } else {
            piece.push(c);
        }
        i += 1;
    }
    assert(text@.take(text@.len() as int) =~= text@);
    assert(piece.deep_view() =~= piece@);
    pieces.push(piece);
    pieces
}

} // verus!
