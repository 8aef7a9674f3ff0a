//! What an answer to the question "overwrite the file?" means.

use vstd::prelude::*;

verus! {

/// What the user wants done with the existing file.
#[derive(Debug, PartialEq, Eq, Structural, Clone, Copy)]
pub enum Answer {
    /// Go on and overwrite it.
    Overwrite,
    /// Leave it and stop.
    Quit,
    /// The line says neither; ask again.
    Unclear,
}

/// Whether `c` is white space: a character with the Unicode property
/// `White_Space`.
pub open spec fn is_whitespace(c: char) -> bool {
    let code = c as u32;
    ||| 0x09 <= code <= 0x0d
    ||| code == 0x20
    ||| code == 0x85
    ||| code == 0xa0
    ||| code == 0x1680
    ||| 0x2000 <= code <= 0x200a
    ||| code == 0x2028
    ||| code == 0x2029
    ||| code == 0x202f
    ||| code == 0x205f
    ||| code == 0x3000
}

/// `text` without the white space at its start.
pub open spec fn trim_start(text: Seq<char>) -> Seq<char>
    decreases text.len(),
{
    if text.len() > 0 && is_whitespace(text[0]) {
        trim_start(text.drop_first())
    } else {
        text
    }
}

/// `text` without the white space at its end.
pub open spec fn trim_end(text: Seq<char>) -> Seq<char>
    decreases text.len(),
{
    if text.len() > 0 && is_whitespace(text.last()) {
        trim_end(text.drop_last())
    } else {
        text
    }
}

/// `text` without the white space at its start and at its end.
pub open spec fn trimmed(text: Seq<char>) -> Seq<char> {
    trim_end(trim_start(text))
}

/// The lower-case form of an upper-case Latin letter; every other character
/// stays.
pub open spec fn lower(c: char) -> char {
    if 'A' <= c && c <= 'Z' {
        ((c as u8) + 32) as char
    } else {
        c
    }
}

/// `text` with every upper-case Latin letter in lower case.
pub open spec fn lowered(text: Seq<char>) -> Seq<char> {
    Seq::new(text.len(), |i: int| lower(text[i]))
}

/// What a line means as an answer: `y` and `yes` say overwrite, `n` and `no`
/// say stop, in upper or lower case and with any white space around them.
/// Everything else says nothing.
pub open spec fn answer_of(line: Seq<char>) -> Answer {
    let word = lowered(trimmed(line));
    if word == seq!['y'] || word == seq!['y', 'e', 's'] {
        Answer::Overwrite
    } else if word == seq!['n'] || word == seq!['n', 'o'] {
        Answer::Quit
    } else {
        Answer::Unclear
    }
}

/// Trimming at the start leaves the part from the first character on that is
/// no white space.
pub proof fn lemma_trim_start(text: Seq<char>, start: int)
    requires
        0 <= start <= text.len(),
        forall|i: int| 0 <= i < start ==> is_whitespace(#[trigger] text[i]),
        start < text.len() ==> !is_whitespace(text[start]),
    ensures
        trim_start(text) == text.subrange(start, text.len() as int),
    decreases start,
{
    if start == 0 {
        assert(text.subrange(0, text.len() as int) =~= text);
    } else {
        let rest = text.drop_first();
        assert forall|i: int| 0 <= i < start - 1 implies is_whitespace(#[trigger] rest[i]) by {
            assert(rest[i] == text[i + 1]);
        }
        lemma_trim_start(rest, start - 1);
        assert(rest.subrange(start - 1, rest.len() as int) =~= text.subrange(
            start,
            text.len() as int,
        ));
    }
}

/// Trimming at the end leaves the part up to the last character that is no
/// white space.
pub proof fn lemma_trim_end(text: Seq<char>, end: int)
    requires
        0 <= end <= text.len(),
        forall|i: int| end <= i < text.len() ==> is_whitespace(#[trigger] text[i]),
        end > 0 ==> !is_whitespace(text[end - 1]),
    ensures
        trim_end(text) == text.subrange(0, end),
    decreases text.len() - end,
{
    if end == text.len() {
        assert(text.subrange(0, end) =~= text);
    } else {
        let rest = text.drop_last();
        lemma_trim_end(rest, end);
        assert(rest.subrange(0, end) =~= text.subrange(0, end));
    }
}

/// Tells whether `c` is white space.
fn is_space(c: char) -> (space: bool)
    ensures
        space == is_whitespace(c),
{
    let code = c as u32;
    (0x09 <= code && code <= 0x0d) || code == 0x20 || code == 0x85 || code == 0xa0 || code == 0x1680
        || (0x2000 <= code && code <= 0x200a) || code == 0x2028 || code == 0x2029 || code == 0x202f
        || code == 0x205f || code == 0x3000
}

/// The lower-case form of `c`.
fn lower_of(c: char) -> (small: char)
    ensures
        small == lower(c),
{
    if 'A' <= c && c <= 'Z' {
        ((c as u8) + 32) as char
    } else {
        c
    }
}

/// Tells whether the characters of `line` from `start` up to `end`, put in
/// lower case, spell `word`.
fn spells(line: &Vec<char>, start: usize, end: usize, word: &[char]) -> (same: bool)
    requires
        start <= end <= line.len(),
    ensures
        same == (lowered(line@.subrange(start as int, end as int)) == word@),
{
    let ghost part = lowered(line@.subrange(start as int, end as int));
    if end - start != word.len() {
        return false;
    }
    let mut index: usize = 0;
    while index < word.len()
        invariant
            start <= end <= line.len(),
            end - start == word.len(),
            index <= word.len(),
            part == lowered(line@.subrange(start as int, end as int)),
            forall|i: int| 0 <= i < index ==> #[trigger] part[i] == word@[i],
        decreases word.len() - index,
    {
        if lower_of(line[start + index]) != word[index] {
            assert(part[index as int] != word@[index as int]);
            return false;
        }
        index = index + 1;
    }
    assert(part =~= word@);
    true
}

/// Reads a line as an answer to the question whether to overwrite.
pub fn interpret_answer(line: &str) -> (answer: Answer)
    ensures
        answer == answer_of(line@),
{
    let mut text: Vec<char> = Vec::new();
    for c in it: line.chars()
        invariant
            it.seq() == line@,
            text@ == line@.subrange(0, it.index()),
    {
        text.push(c);
        proof {
            assert(text@ =~= line@.subrange(0, it.index() + 1));
        }
    }
    assert(text@ =~= line@);
    let mut start: usize = 0;
    while start < text.len() && is_space(text[start])
        invariant
            start <= text.len(),
            forall|i: int| 0 <= i < start ==> is_whitespace(#[trigger] text@[i]),
        decreases text.len() - start,
    {
        start = start + 1;
    }
    let mut end: usize = text.len();
    while end > start && is_space(text[end - 1])
        invariant
            start <= end <= text.len(),
            forall|i: int| end <= i < text.len() ==> is_whitespace(#[trigger] text@[i]),
        decreases end,
    {
        end = end - 1;
    }
    proof {
        let tail = text@.subrange(start as int, text@.len() as int);
        lemma_trim_start(text@, start as int);
        assert forall|i: int| end - start <= i < tail.len() implies is_whitespace(
            #[trigger] tail[i],
        ) by {
            assert(tail[i] == text@[i + start]);
        }
        lemma_trim_end(tail, end - start);
        assert(tail.subrange(0, end - start) =~= text@.subrange(start as int, end as int));
    }
    let y: [char; 1] = ['y'];
    let yes: [char; 3] = ['y', 'e', 's'];
    let n: [char; 1] = ['n'];
    let no: [char; 2] = ['n', 'o'];
    assert(y@ =~= seq!['y']);
    assert(yes@ =~= seq!['y', 'e', 's']);
    assert(n@ =~= seq!['n']);
    assert(no@ =~= seq!['n', 'o']);
    if spells(&text, start, end, y.as_slice()) || spells(&text, start, end, yes.as_slice()) {
        Answer::Overwrite
    } else if spells(&text, start, end, n.as_slice()) || spells(&text, start, end, no.as_slice()) {
        Answer::Quit
    } else {
        Answer::Unclear
    }
}

} // verus!
