//! Blank lines: what a line is when only white space stands in it.

use vstd::prelude::*;

verus! {

/// Whether `c` has the Unicode property `White_Space`.
pub open spec fn is_white_space(c: char) -> bool {
    let u = c as u32;
    ||| 0x09 <= u <= 0x0D
    ||| u == 0x20
    ||| u == 0x85
    ||| u == 0xA0
    ||| u == 0x1680
    ||| 0x2000 <= u <= 0x200A
    ||| u == 0x2028
    ||| u == 0x2029
    ||| u == 0x202F
    ||| u == 0x205F
    ||| u == 0x3000
}

/// A line is blank when every character in it is white space; the empty line
/// is blank.
pub open spec fn is_blank(line: Seq<char>) -> bool {
    forall|i: int| 0 <= i < line.len() ==> is_white_space(#[trigger] line[i])
}

/// Tests one character for the property `White_Space`.
pub fn char_is_white_space(c: char) -> (b: bool)
    ensures
        b == is_white_space(c),
{
    let u: u32 = c as u32;
    (0x09 <= u && u <= 0x0D) || u == 0x20 || u == 0x85 || u == 0xA0 || u == 0x1680 || (0x2000 <= u
        && u <= 0x200A) || u == 0x2028 || u == 0x2029 || u == 0x202F || u == 0x205F || u == 0x3000
}

/// Tests whether a line is blank.
pub fn line_is_blank(line: &str) -> (b: bool)
    ensures
        b == is_blank(line@),
{
    let mut blank = true;
    for c in it: line.chars()
        invariant
            it.seq() == line@,
            blank == (forall|i: int| 0 <= i < it.index() ==> is_white_space(#[trigger] line@[i])),
    {
        if !char_is_white_space(c) {
            blank = false;
        }
    }
    blank
}

} // verus!
