//! Text held as bytes and as characters.

use vstd::prelude::*;
use vstd::utf8::*;

verus! {

/// Calls `String::from_utf8`. It succeeds exactly when the bytes are valid
/// UTF-8, and the string is then the text that they encode.
#[verifier::external_body]
pub(crate) fn string_from_utf8(bytes: Vec<u8>) -> (result: Option<String>)
    ensures
        result is Some <==> valid_utf8(bytes@),
        result matches Some(text) ==> text@ == decode_utf8(bytes@),
{
    String::from_utf8(bytes).ok()
}

/// A text option as a mathematical value.
pub open spec fn text_view(text: Option<String>) -> Option<Seq<char>> {
    match text {
        Some(s) => Some(s@),
        None => None,
    }
}

/// A borrowed text option as a mathematical value.
pub open spec fn str_view(text: Option<&str>) -> Option<Seq<char>> {
    match text {
        Some(s) => Some(s@),
        None => None,
    }
}

/// The characters of `text`, in order.
pub fn chars_of(text: &str) -> (chars: Vec<char>)
    ensures
        chars@ == text@,
{
    let mut chars: Vec<char> = Vec::new();
    for c in it: text.chars()
        invariant
            it.seq() == text@,
            chars@ == text@.take(it.index() as int),
    {
        chars.push(c);
        assert(chars@ == text@.take(it.index() + 1));
    }
    assert(chars@ == text@);
    chars
}

/// Whether `c` is white space as Unicode defines it (the property
/// `White_Space`): what `str::trim` removes.
pub open spec fn spec_is_whitespace(c: char) -> bool {
    let u = c as u32;
    ||| 0x09 <= u <= 0x0D
    ||| u == 0x20
    ||| u == 0x85
    ||| u == 0xA0
    ||| u == 0x1680
    ||| 0x2000 <= u <= 0x200A
    ||| u == 0x2028
    ||| u == 0x2029
    ||| u == 0x202F
    ||| u == 0x205F
    ||| u == 0x3000
}

/// Whether `c` is white space.
pub fn is_whitespace(c: char) -> (yes: bool)
    ensures
        yes == spec_is_whitespace(c),
{
    let u: u32 = c as u32;
    (0x09 <= u && u <= 0x0D) || u == 0x20 || u == 0x85 || u == 0xA0 || u == 0x1680 || (0x2000 <= u
        && u <= 0x200A) || u == 0x2028 || u == 0x2029 || u == 0x202F || u == 0x205F || u == 0x3000
}

/// `text` without its leading white space.
pub open spec fn trim_start(text: Seq<char>) -> Seq<char>
    decreases text.len(),
{
    if text.len() > 0 && spec_is_whitespace(text[0]) {
        trim_start(text.drop_first())
    } else {
        text
    }
}

/// `text` without its trailing white space.
pub open spec fn trim_end(text: Seq<char>) -> Seq<char>
    decreases text.len(),
{
    if text.len() > 0 && spec_is_whitespace(text.last()) {
        trim_end(text.drop_last())
    } else {
        text
    }
}

/// `text` without its leading and trailing white space.
pub open spec fn trim(text: Seq<char>) -> Seq<char> {
    trim_end(trim_start(text))
}

/// Text that neither begins nor ends in white space is left as it is.
pub proof fn lemma_trim_keeps(text: Seq<char>)
    requires
        text.len() == 0 || (!spec_is_whitespace(text[0]) && !spec_is_whitespace(text.last())),
    ensures
        trim(text) == text,
{
}

/// Where `text` without its leading and trailing white space begins and
/// ends within `text`.
pub fn trim_range(text: &Vec<char>) -> (range: (usize, usize))
    ensures
        range.0 <= range.1 <= text@.len(),
        text@.subrange(range.0 as int, range.1 as int) == trim(text@),
{
    let mut start: usize = 0;
    assert(text@.skip(0) == text@);
    while start < text.len() && is_whitespace(text[start])
        invariant
            start <= text@.len(),
            trim_start(text@) == trim_start(text@.skip(start as int)),
        decreases text@.len() - start,
    {
        assert(text@.skip(start as int).drop_first() == text@.skip(start + 1));
        start = start + 1;
    }
    let mut end: usize = text.len();
    assert(text@.subrange(start as int, end as int) == text@.skip(start as int));
    while end > start && is_whitespace(text[end - 1])
        invariant
            start <= end <= text@.len(),
            trim(text@) == trim_end(text@.subrange(start as int, end as int)),
        decreases end,
    {
        assert(text@.subrange(start as int, end as int).drop_last() == text@.subrange(
            start as int,
            end - 1,
        ));
        end = end - 1;
    }
    (start, end)
}

/// `text` without its leading and trailing white space.
pub fn trimmed(text: &Vec<char>) -> (out: Vec<char>)
    ensures
        out@ == trim(text@),
{
    let (start, end) = trim_range(text);
    let mut out: Vec<char> = Vec::new();
    let mut i: usize = start;
    while i < end
        invariant
            start <= i <= end <= text@.len(),
            out@ == text@.subrange(start as int, i as int),
        decreases end - i,
    {
        out.push(text[i]);
        i = i + 1;
        assert(out@ == text@.subrange(start as int, i as int));
    }
    out
}

/// The index of the first `stop` in `text`, or the length of `text` when
/// it has none.
pub open spec fn first_index_of(text: Seq<char>, stop: char) -> int
    decreases text.len(),
{
    if text.len() == 0 || text[0] == stop {
        0
    } else {
        1 + first_index_of(text.drop_first(), stop)
    }
}

/// `first_index_of` is within `text` and points at the first `stop`.
pub proof fn lemma_first_index_of(text: Seq<char>, stop: char)
    ensures
        0 <= first_index_of(text, stop) <= text.len(),
        first_index_of(text, stop) < text.len() ==> text[first_index_of(text, stop)] == stop,
        forall|i: int| 0 <= i < first_index_of(text, stop) ==> text[i] != stop,
    decreases text.len(),
{
    if text.len() > 0 && text[0] != stop {
        lemma_first_index_of(text.drop_first(), stop);
        assert forall|i: int| 0 <= i < first_index_of(text, stop) implies text[i] != stop by {
            if i > 0 {
                assert(text[i] == text.drop_first()[i - 1]);
            }
        }
    }
}

/// An index with `stop` at it, or the length, and no `stop` before it, is
/// the first index.
pub proof fn lemma_first_index_is(text: Seq<char>, stop: char, k: int)
    requires
        0 <= k <= text.len(),
        k < text.len() ==> text[k] == stop,
        forall|i: int| 0 <= i < k ==> text[i] != stop,
    ensures
        first_index_of(text, stop) == k,
{
    lemma_first_index_of(text, stop);
}

/// The index of the first line feed of `text`, or its length.
pub open spec fn first_line_end(text: Seq<char>) -> int {
    first_index_of(text, '\n')
}

/// The first line of `text`, without its line ending. A line ends in a line
/// feed; a carriage return directly before that line feed belongs to the
/// line ending. The last line needs no line ending.
pub open spec fn first_line(text: Seq<char>) -> Seq<char> {
    let end = first_line_end(text);
    if end < text.len() && end > 0 && text[end - 1] == '\r' {
        text.take(end - 1)
    } else {
        text.take(end)
    }
}

/// What follows the first line of `text` and its line ending.
pub open spec fn after_first_line(text: Seq<char>) -> Seq<char> {
    let end = first_line_end(text);
    if end < text.len() {
        text.skip(end + 1)
    } else {
        Seq::empty()
    }
}

/// The lines of `text`, as `str::lines` gives them.
pub open spec fn lines(text: Seq<char>) -> Seq<Seq<char>>
    decreases text.len(),
    via lines_decreases
{
    if text.len() == 0 {
        Seq::empty()
    } else {
        seq![first_line(text)] + lines(after_first_line(text))
    }
}

#[via_fn]
proof fn lines_decreases(text: Seq<char>) {
    lemma_first_index_of(text, '\n');
}

/// Text without a line feed that is not empty is one line, itself.
pub proof fn lemma_single_line(text: Seq<char>)
    requires
        text.len() > 0,
        forall|i: int| 0 <= i < text.len() ==> text[i] != '\n',
    ensures
        lines(text) == seq![text],
{
    reveal_with_fuel(lines, 2);
    lemma_first_index_is(text, '\n', text.len() as int);
    assert(first_line(text) == text);
    assert(after_first_line(text).len() == 0);
}

/// Text without a line feed that does not end in a carriage return,
/// followed by a line feed, is one line: the text.
pub proof fn lemma_terminated_line(text: Seq<char>)
    requires
        forall|i: int| 0 <= i < text.len() ==> text[i] != '\n',
        text.len() == 0 || text.last() != '\r',
    ensures
        lines(text.push('\n')) == seq![text],
{
    reveal_with_fuel(lines, 2);
    let whole = text.push('\n');
    lemma_first_index_is(whole, '\n', text.len() as int);
    assert(first_line(whole) == text);
    assert(after_first_line(whole).len() == 0);
}

/// The views of the lines held in `lines`.
pub open spec fn line_views(lines: Seq<Vec<char>>) -> Seq<Seq<char>> {
    Seq::new(lines.len(), |i: int| lines[i]@)
}

/// Splits `text` into its lines.
pub fn split_lines(text: &Vec<char>) -> (out: Vec<Vec<char>>)
    ensures
        line_views(out@) == lines(text@),
{
    let mut out: Vec<Vec<char>> = Vec::new();
    let mut pos: usize = 0;
    assert(text@.skip(0) == text@);
    while pos < text.len()
        invariant
            pos <= text@.len(),
            lines(text@) == line_views(out@) + lines(text@.skip(pos as int)),
        decreases text@.len() - pos,
    {
        let ghost rest = text@.skip(pos as int);
        let mut end: usize = pos;
        while end < text.len() && text[end] != '\n'
            invariant
                pos <= end <= text@.len(),
                rest == text@.skip(pos as int),
                first_line_end(rest) == (end - pos) + first_line_end(text@.skip(end as int)),
            decreases text@.len() - end,
        {
            assert(text@.skip(end as int).drop_first() == text@.skip(end + 1));
            end = end + 1;
        }
        assert(first_line_end(rest) == end - pos);
        let terminated: bool = end < text.len();
        let stop: usize = if terminated && end > pos && text[end - 1] == '\r' {
            (end - 1) as usize
        } else {
            end
        };
        let mut line: Vec<char> = Vec::new();
        let mut i: usize = pos;
        while i < stop
            invariant
                pos <= i <= stop <= text@.len(),
                line@ == text@.subrange(pos as int, i as int),
            decreases stop - i,
        {
            line.push(text[i]);
            i = i + 1;
            assert(line@ == text@.subrange(pos as int, i as int));
        }
        assert(line@ == first_line(rest)) by {
            assert(rest.take(stop - pos) == text@.subrange(pos as int, stop as int));
        }
        let ghost before = out@;
        out.push(line);
        let next: usize = if terminated {
            (end + 1) as usize
        } else {
            end
        };
        proof {
            assert(after_first_line(rest) == text@.skip(next as int)) by {
                if terminated {
                    assert(rest.skip(end - pos + 1) == text@.skip(end + 1));
                } else {
                    assert(text@.skip(next as int) == Seq::<char>::empty());
                }
            }
            assert(line_views(out@) == line_views(before) + seq![first_line(rest)]);
        }
        pos = next;
    }
    assert(lines(text@.skip(pos as int)) == Seq::<Seq<char>>::empty());
    out
}

/// Whether the two hold the same characters.
pub fn chars_equal(a: &Vec<char>, b: &Vec<char>) -> (same: bool)
    ensures
        same == (a@ == b@),
{
    if a.len() != b.len() {
        return false;
    }
    let mut i: usize = 0;
    while i < a.len()
        invariant
            i <= a@.len(),
            a@.len() == b@.len(),
            a@.take(i as int) == b@.take(i as int),
        decreases a@.len() - i,
    {
        if a[i] != b[i] {
            return false;
        }
        i = i + 1;
        assert(a@.take(i as int) == a@.take(i - 1).push(a@[i - 1]));
        assert(b@.take(i as int) == b@.take(i - 1).push(b@[i - 1]));
    }
    assert(a@.take(i as int) == a@);
    assert(b@.take(i as int) == b@);
    true
}

/// Whether the two texts are the same.
pub fn text_equal(a: &str, b: &str) -> (same: bool)
    ensures
        same == (a@ == b@),
{
    let a_chars: Vec<char> = chars_of(a);
    let b_chars: Vec<char> = chars_of(b);
    chars_equal(&a_chars, &b_chars)
}

} // verus!
