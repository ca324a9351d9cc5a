//! The pieces of the metadata text's grammar: lines, trimming, keys, values, numbers.

use vstd::prelude::*;
use vstd::slice::slice_subrange;

verus! {

/// Whether `c` is white space: the characters that Unicode gives the property
/// `White_Space`.
pub open spec fn is_space(c: char) -> bool {
    let u = c as u32;
    ||| 0x09 <= u <= 0x0D
    ||| u == 0x20
    ||| u == 0x85
    ||| u == 0xA0
    ||| u == 0x1680
    ||| 0x2000 <= u <= 0x200A
    ||| u == 0x2028
    ||| u == 0x2029
    ||| u == 0x202F
    ||| u == 0x205F
    ||| u == 0x3000
}

/// Whether `c` is white space.
pub fn is_whitespace(c: char) -> (space: bool)
    ensures
        space == is_space(c),
{
    let u: u32 = c as u32;
    (0x09 <= u && u <= 0x0D) || u == 0x20 || u == 0x85 || u == 0xA0 || u == 0x1680 || (0x2000 <= u
        && u <= 0x200A) || u == 0x2028 || u == 0x2029 || u == 0x202F || u == 0x205F || u == 0x3000
}

/// `s` without the white space at its start.
pub open spec fn trim_start(s: Seq<char>) -> Seq<char>
    decreases s.len(),
{
    if s.len() > 0 && is_space(s.first()) {
        trim_start(s.drop_first())
    } else {
        s
    }
}

/// `s` without the white space at its end.
pub open spec fn trim_end(s: Seq<char>) -> Seq<char>
    decreases s.len(),
{
    if s.len() > 0 && is_space(s.last()) {
        trim_end(s.drop_last())
    } else {
        s
    }
}

/// `s` without the white space at both ends.
pub open spec fn trimmed(s: Seq<char>) -> Seq<char> {
    trim_end(trim_start(s))
}

/// The part of `line` between the white space at its ends.
pub fn trim<'a>(line: &'a [char]) -> (out: &'a [char])
    ensures
        out@ == trimmed(line@),
{
    let mut i: usize = 0;
    assert(line@.skip(0) == line@);
    while i < line.len() && is_whitespace(line[i])
        invariant
            i <= line.len(),
            trim_start(line@) == trim_start(line@.skip(i as int)),
        decreases line.len() - i,
    {
        assert(line@.skip(i as int).drop_first() == line@.skip(i + 1));
        i = i + 1;
    }
    let mut j: usize = line.len();
    while j > i && is_whitespace(line[j - 1])
        invariant
            i <= j <= line.len(),
            trimmed(line@) == trim_end(line@.subrange(i as int, j as int)),
        decreases j,
    {
        assert(line@.subrange(i as int, j as int).drop_last() == line@.subrange(
            i as int,
            j - 1,
        ));
        j = j - 1;
    }
    slice_subrange(line, i, j)
}

/// Whether `line` begins with the characters of `prefix`.
pub fn starts_with(line: &[char], prefix: &str) -> (found: bool)
    ensures
        found == prefix@.is_prefix_of(line@),
{
    let n = prefix.unicode_len();
    if n > line.len() {
        return false;
    }
    let mut i: usize = 0;
    while i < n
        invariant
            i <= n <= line.len(),
            n == prefix@.len(),
            prefix@.take(i as int) == line@.take(i as int),
        decreases n - i,
    {
        if prefix.get_char(i) != line[i] {
            return false;
        }
        i = i + 1;
    }
    true
}

/// Where the value of `line` starts: behind its last space, or at its start when
/// it holds no space.
pub open spec fn rhs_start(line: Seq<char>) -> int
    decreases line.len(),
{
    if line.len() == 0 {
        0
    } else if line.last() == ' ' {
        line.len() as int
    } else {
        rhs_start(line.drop_last())
    }
}

/// The value of `line`: everything behind its last space.
pub open spec fn rhs(line: Seq<char>) -> Seq<char> {
    line.skip(rhs_start(line))
}

/// The value of `line`: everything behind its last space, and all of it when it
/// holds no space.
pub fn get_rhs<'a>(line: &'a str) -> (value: &'a str)
    ensures
        value@ == rhs(line@),
{
    let n = line.unicode_len();
    let mut j: usize = n;
    assert(line@.take(j as int) == line@);
    while j > 0 && line.get_char(j - 1) != ' '
        invariant
            j <= n,
            n == line@.len(),
            rhs_start(line@) == rhs_start(line@.take(j as int)),
        decreases j,
    {
        assert(line@.take(j as int).drop_last() == line@.take(j - 1));
        j = j - 1;
    }
    line.substring_char(j, n)
}

/// Where the line that holds position `pos` of `text` ends: at the next line feed,
/// or at the end of the text.
pub open spec fn line_end(text: Seq<char>, pos: int) -> int
    decreases text.len() - pos,
{
    if pos < 0 || pos >= text.len() {
        text.len() as int
    } else if text[pos] == '\n' {
        pos
    } else {
        line_end(text, pos + 1)
    }
}

/// A line ends at or behind the position it is asked for and inside the text, and
/// where it ends before the end of the text, a line feed stands.
pub proof fn lemma_line_end_bounds(text: Seq<char>, pos: int)
    requires
        0 <= pos <= text.len(),
    ensures
        pos <= line_end(text, pos) <= text.len(),
        line_end(text, pos) < text.len() ==> text[line_end(text, pos)] == '\n',
    decreases text.len() - pos,
{
    if pos < text.len() && text[pos] != '\n' {
        lemma_line_end_bounds(text, pos + 1);
    }
}

/// Finds where the line that holds position `pos` ends.
pub fn find_line_end(text: &[char], pos: usize) -> (end: usize)
    ensures
        end == line_end(text@, pos as int),
        end <= text@.len(),
        pos <= text@.len() ==> pos <= end,
{
    if pos >= text.len() {
        return text.len();
    }
    let mut i: usize = pos;
    while i < text.len() && text[i] != '\n'
        invariant
            pos <= i <= text.len(),
            line_end(text@, pos as int) == line_end(text@, i as int),
        decreases text.len() - i,
    {
        i = i + 1;
    }
    i
}

} // verus!
