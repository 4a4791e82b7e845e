//! Scanning of captured tool output: characters, lines and fields separated by
//! white space.

use vstd::prelude::*;

verus! {

/// `String::push` of the standard library, which appends the character to
/// the end of the string. Taken on trust from its documentation.
pub assume_specification[ String::push ](s: &mut String, c: char)
    ensures
        final(s)@ == old(s)@.push(c),
;

/// The character classes by which text is scanned.
#[derive(Clone, Copy, Debug)]
pub enum CharClass {
    /// White space, as Unicode's `White_Space` property defines it.
    Space,
    /// Anything but white space.
    Word,
    /// Anything but a line feed.
    LineBody,
    /// The ASCII digits `0` to `9`.
    Digit,
}

/// Whether `c` has Unicode's `White_Space` property.
pub open spec fn is_space(c: char) -> bool {
    let u = c as u32;
    ||| 0x09 <= u <= 0x0D
    ||| u == 0x20
    ||| u == 0x85
    ||| u == 0xA0
    ||| u == 0x1680
    ||| 0x2000 <= u <= 0x200A
    ||| u == 0x2028
    ||| u == 0x2029
    ||| u == 0x202F
    ||| u == 0x205F
    ||| u == 0x3000
}

/// Whether `c` is an ASCII digit.
pub open spec fn is_digit(c: char) -> bool {
    '0' <= c <= '9'
}

/// Whether `c` belongs to `class`.
pub open spec fn in_class(c: char, class: CharClass) -> bool {
    match class {
        CharClass::Space => is_space(c),
        CharClass::Word => !is_space(c),
        CharClass::LineBody => c != '\n',
        CharClass::Digit => is_digit(c),
    }
}

/// The length of the longest prefix of `text` whose characters all belong to
/// `class`.
pub open spec fn span(text: Seq<char>, class: CharClass) -> nat
    decreases text.len(),
{
    if text.len() > 0 && in_class(text[0], class) {
        1 + span(text.drop_first(), class)
    } else {
        0
    }
}

/// `span` stops inside the text, covers only characters of the class, and
/// stops at the first character outside it.
pub proof fn lemma_span_bounds(text: Seq<char>, class: CharClass)
    ensures
        span(text, class) <= text.len(),
        forall|i: int| 0 <= i < span(text, class) ==> in_class(#[trigger] text[i], class),
        span(text, class) < text.len() ==> !in_class(text[span(text, class) as int], class),
    decreases text.len(),
{
    if text.len() > 0 && in_class(text[0], class) {
        let rest = text.drop_first();
        lemma_span_bounds(rest, class);
        assert forall|i: int| 0 <= i < span(text, class) implies in_class(
            #[trigger] text[i],
            class,
        ) by {
            if i > 0 {
                assert(text[i] == rest[i - 1]);
            }
        }
        if span(text, class) < text.len() {
            assert(text[span(text, class) as int] == rest[span(rest, class) as int]);
        }
    }
}

/// A prefix of `n` characters of the class that ends the text, or is followed
/// by a character outside the class, is the span.
pub proof fn lemma_span_found(text: Seq<char>, class: CharClass, n: nat)
    requires
        n <= text.len(),
        forall|i: int| 0 <= i < n ==> in_class(#[trigger] text[i], class),
        n < text.len() ==> !in_class(text[n as int], class),
    ensures
        span(text, class) == n,
    decreases n,
{
    if n > 0 {
        let rest = text.drop_first();
        assert(in_class(text[0], class));
        assert forall|i: int| 0 <= i < n - 1 implies in_class(#[trigger] rest[i], class) by {
            assert(rest[i] == text[i + 1]);
        }
        lemma_span_found(rest, class, (n - 1) as nat);
    }
}

/// The number of characters before the first line feed of `text`.
pub open spec fn line_len(text: Seq<char>) -> nat {
    span(text, CharClass::LineBody)
}

/// The text up to its first line feed, or all of it where it has none.
pub open spec fn first_line(text: Seq<char>) -> Seq<char> {
    text.take(line_len(text) as int)
}

/// What follows the first line of `text` and the line feed that ends it.
pub open spec fn after_first_line(text: Seq<char>) -> Seq<char> {
    if line_len(text) < text.len() {
        text.skip(line_len(text) as int + 1)
    } else {
        Seq::empty()
    }
}

/// The lines of `text`. A line ends at a line feed or at the end of the text;
/// the line feed is no part of it, and a line feed at the very end opens no
/// further line.
pub open spec fn lines(text: Seq<char>) -> Seq<Seq<char>>
    decreases text.len(),
{
    if text.len() == 0 {
        Seq::empty()
    } else {
        seq![first_line(text)] + lines(after_first_line(text))
    }
}

/// `text` without its leading white space.
pub open spec fn trim_start(text: Seq<char>) -> Seq<char> {
    text.skip(span(text, CharClass::Space) as int)
}

/// The fields of `line`: its maximal runs of characters that are not white
/// space, from left to right.
pub open spec fn fields(line: Seq<char>) -> Seq<Seq<char>>
    decreases line.len(),
{
    let body = trim_start(line);
    if body.len() == 0 {
        Seq::empty()
    } else {
        let n = span(body, CharClass::Word);
        proof {
            lemma_span_bounds(line, CharClass::Space);
            lemma_span_bounds(body, CharClass::Word);
        }
        seq![body.take(n as int)] + fields(body.skip(n as int))
    }
}

/// The field of `line` at the zero-based index `n`, if it has that many.
pub open spec fn field(line: Seq<char>, n: nat) -> Option<Seq<char>> {
    if n < fields(line).len() {
        Some(fields(line)[n as int])
    } else {
        None
    }
}

/// Every field holds at least one character and no white space.
pub proof fn lemma_fields_are_words(line: Seq<char>)
    ensures
        forall|i: int| 0 <= i < fields(line).len() ==> (#[trigger] fields(line)[i]).len() > 0,
        forall|i: int, j: int|
            0 <= i < fields(line).len() && 0 <= j < fields(line)[i].len() ==> !is_space(
                #[trigger] fields(line)[i][j],
            ),
    decreases line.len(),
{
    let body = trim_start(line);
    if body.len() > 0 {
        let n = span(body, CharClass::Word);
        lemma_span_bounds(line, CharClass::Space);
        lemma_span_bounds(body, CharClass::Word);
        assert(body[0] == line[span(line, CharClass::Space) as int]);
        assert(n > 0);
        let word = body.take(n as int);
        let rest = fields(body.skip(n as int));
        lemma_fields_are_words(body.skip(n as int));
        assert forall|i: int| 0 <= i < fields(line).len() implies (#[trigger] fields(line)[i]).len()
            > 0 by {
            if i > 0 {
                assert(fields(line)[i] == rest[i - 1]);
            }
        }
        assert forall|i: int, j: int|
            0 <= i < fields(line).len() && 0 <= j < fields(line)[i].len() implies !is_space(
            #[trigger] fields(line)[i][j],
        ) by {
            if i > 0 {
                assert(fields(line)[i] == rest[i - 1]);
            } else {
                assert(fields(line)[0] == word);
                assert(in_class(body[j], CharClass::Word));
            }
        }
    }
}

/// No line holds a line feed.
pub proof fn lemma_lines_hold_no_feed(text: Seq<char>)
    ensures
        forall|i: int, j: int|
            0 <= i < lines(text).len() && 0 <= j < lines(text)[i].len() ==> #[trigger] lines(
                text,
            )[i][j] != '\n',
    decreases text.len(),
{
    if text.len() > 0 {
        lemma_span_bounds(text, CharClass::LineBody);
        let rest = lines(after_first_line(text));
        lemma_lines_hold_no_feed(after_first_line(text));
        assert forall|i: int, j: int|
            0 <= i < lines(text).len() && 0 <= j < lines(text)[i].len() implies #[trigger] lines(
            text,
        )[i][j] != '\n' by {
            if i > 0 {
                assert(lines(text)[i] == rest[i - 1]);
            } else {
                assert(lines(text)[0] == first_line(text));
                assert(in_class(text[j], CharClass::LineBody));
            }
        }
    }
}

/// Whether `marker` stands in `line` at index `i`.
pub open spec fn occurs_at(line: Seq<char>, marker: Seq<char>, i: int) -> bool {
    0 <= i && i + marker.len() <= line.len() && line.subrange(i, i + marker.len()) == marker
}

/// Whether `marker` occurs somewhere in `line`.
pub open spec fn contains_text(line: Seq<char>, marker: Seq<char>) -> bool {
    exists|i: int| occurs_at(line, marker, i)
}

/// The views of a vector of character vectors, in order.
pub open spec fn views(pieces: Seq<Vec<char>>) -> Seq<Seq<char>> {
    Seq::new(pieces.len(), |i: int| pieces[i]@)
}

/// Whether `c` belongs to `class`.
pub fn char_in_class(c: char, class: CharClass) -> (b: bool)
    ensures
        b == in_class(c, class),
{
    let u: u32 = c as u32;
    let space = (0x09 <= u && u <= 0x0D) || u == 0x20 || u == 0x85 || u == 0xA0 || u == 0x1680 || (
    0x2000 <= u && u <= 0x200A) || u == 0x2028 || u == 0x2029 || u == 0x202F || u == 0x205F || u
        == 0x3000;
    match class {
        CharClass::Space => space,
        CharClass::Word => !space,
        CharClass::LineBody => c != '\n',
        CharClass::Digit => '0' <= c && c <= '9',
    }
}

/// The characters of `s`, in order.
pub fn chars_of(s: &str) -> (chars: Vec<char>)
    ensures
        chars@ == s@,
{
    let mut chars: Vec<char> = Vec::new();
    let it = s.chars();
    for c in iter: it
        invariant
            chars@ == iter.seq().take(iter.index() as int),
    {
        chars.push(c);
    }
    chars
}

/// The string made of `chars`, in order.
pub fn string_of(chars: &Vec<char>) -> (s: String)
    ensures
        s@ == chars@,
{
    let mut s = String::new();
    let mut i: usize = 0;
    while i < chars.len()
        invariant
            i <= chars.len(),
            s@ == chars@.take(i as int),
        decreases chars.len() - i,
    {
        s.push(chars[i]);
        i += 1;
    }
    s
}

/// The index at which the run of `class` characters that starts at `from`
/// ends.
pub(crate) fn span_from(text: &Vec<char>, from: usize, class: CharClass) -> (end: usize)
    requires
        from <= text.len(),
    ensures
        from <= end <= text.len(),
        end == from + span(text@.skip(from as int), class),
{
    let mut end: usize = from;
    while end < text.len() && char_in_class(text[end], class)
        invariant
            from <= end <= text.len(),
            forall|i: int| from <= i < end ==> in_class(#[trigger] text@[i], class),
        decreases text.len() - end,
    {
        end += 1;
    }
    proof {
        let rest = text@.skip(from as int);
        assert forall|i: int| 0 <= i < end - from implies in_class(#[trigger] rest[i], class) by {
            assert(rest[i] == text@[from + i]);
        }
        lemma_span_found(rest, class, (end - from) as nat);
    }
    end
}

/// A copy of the characters of `text` from `from` up to `to`.
pub(crate) fn piece(text: &Vec<char>, from: usize, to: usize) -> (part: Vec<char>)
    requires
        from <= to <= text.len(),
    ensures
        part@ == text@.subrange(from as int, to as int),
{
    let mut part: Vec<char> = Vec::new();
    let mut i: usize = from;
    while i < to
        invariant
            from <= i <= to <= text.len(),
            part@ == text@.subrange(from as int, i as int),
        decreases to - i,
    {
        part.push(text[i]);
        i += 1;
    }
    part
}

/// The lines of `text`, in order.
pub fn lines_of(text: &Vec<char>) -> (parts: Vec<Vec<char>>)
    ensures
        views(parts@) == lines(text@),
{
    let mut parts: Vec<Vec<char>> = Vec::new();
    let mut pos: usize = 0;
    proof {
        assert(text@.skip(0) == text@);
        assert(views(parts@) + lines(text@) == lines(text@));
    }
    while pos < text.len()
        invariant
            pos <= text.len(),
            lines(text@) == views(parts@) + lines(text@.skip(pos as int)),
        decreases text.len() - pos,
    {
        let end = span_from(text, pos, CharClass::LineBody);
        let line = piece(text, pos, end);
        let ghost rest = text@.skip(pos as int);
        let ghost before = views(parts@);
        parts.push(line);
        let next: usize = if end < text.len() {
            end + 1
        } else {
            end
        };
        proof {
            assert(first_line(rest) == line@);
            assert(after_first_line(rest) == text@.skip(next as int));
            assert(views(parts@) == before + seq![line@]);
        }
        pos = next;
    }
    proof {
        assert(text@.skip(pos as int).len() == 0);
    }
    parts
}

/// The fields of `line`, in order.
pub fn fields_of(line: &Vec<char>) -> (parts: Vec<Vec<char>>)
    ensures
        views(parts@) == fields(line@),
{
    let mut parts: Vec<Vec<char>> = Vec::new();
    let mut pos: usize = 0;
    proof {
        assert(line@.skip(0) == line@);
        assert(views(parts@) + fields(line@) == fields(line@));
    }
    loop
        invariant
            pos <= line.len(),
            fields(line@) == views(parts@) + fields(line@.skip(pos as int)),
        ensures
            fields(line@) == views(parts@),
        decreases line.len() - pos,
    {
        let ghost rest = line@.skip(pos as int);
        let start = span_from(line, pos, CharClass::Space);
        proof {
            assert(trim_start(rest) == line@.skip(start as int));
        }
        if start >= line.len() {
            break ;
        }
        let end = span_from(line, start, CharClass::Word);
        let word = piece(line, start, end);
        let ghost before = views(parts@);
        parts.push(word);
        proof {
            let body = line@.skip(start as int);
            lemma_span_bounds(rest, CharClass::Space);
            assert(body[0] == rest[start - pos]);
            assert(end > start);
            assert(body.take(end - start) == word@);
            assert(body.skip(end - start) == line@.skip(end as int));
            assert(views(parts@) == before + seq![word@]);
        }
        pos = end;
    }
    parts
}

/// Whether `marker` stands in `line` at index `at`.
pub fn has_text_at(line: &Vec<char>, marker: &Vec<char>, at: usize) -> (b: bool)
    ensures
        b == occurs_at(line@, marker@, at as int),
{
    if marker.len() > line.len() || at > line.len() - marker.len() {
        return false;
    }
    let mut j: usize = 0;
    while j < marker.len()
        invariant
            j <= marker.len(),
            at + marker.len() <= line.len(),
            forall|k: int| 0 <= k < j ==> line@[at + k] == #[trigger] marker@[k],
        decreases marker.len() - j,
    {
        if line[at + j] != marker[j] {
            proof {
                let part = line@.subrange(at as int, at + marker.len());
                assert(part[j as int] != marker@[j as int]);
            }
            return false;
        }
        j += 1;
    }
    proof {
        assert(line@.subrange(at as int, at + marker.len()) =~= marker@);
    }
    true
}

/// Whether `marker` occurs somewhere in `line`.
pub fn has_text(line: &Vec<char>, marker: &Vec<char>) -> (b: bool)
    ensures
        b == contains_text(line@, marker@),
{
    if marker.len() > line.len() {
        return false;
    }
    let last: usize = line.len() - marker.len();
    let mut at: usize = 0;
    loop
        invariant
            last == line.len() - marker.len(),
            at <= last,
            forall|i: int| 0 <= i < at ==> !occurs_at(line@, marker@, i),
        decreases last - at,
    {
        if has_text_at(line, marker, at) {
            return true;
        }
        if at == last {
            return false;
        }
        at += 1;
    }
}

} // verus!
