//! Telling whether a template includes other templates. The library
//! renders conditionals and iteration over the variable space; it takes
//! no template that calls a partial or a decorator.

use vstd::prelude::*;
use crate::text::chars_of;

verus! {

/// A character that may stand between the opening braces of a tag and
/// the sign that says what kind of tag it is: white space, the sign that
/// omits white space, and the sign that opens a block.
pub open spec fn is_mark(c: char) -> bool {
    c == ' ' || c == '\t' || c == '\n' || c == '\r' || c == '~' || c == '#'
}

/// The first position from `from` on that holds no mark, or the length
/// of the text where there is none.
pub open spec fn after_marks(s: Seq<char>, from: int) -> int
    decreases s.len() - from,
{
    if from < 0 || from >= s.len() {
        s.len() as int
    } else if is_mark(s[from]) {
        after_marks(s, from + 1)
    } else {
        from
    }
}

/// Two opening braces stand at position `i`, and what follows them,
/// after any marks, is the sign of a partial (`>`) or of a decorator
/// (`*`).
pub open spec fn includes_at(s: Seq<char>, i: int) -> bool {
    0 <= i && i + 1 < s.len() && s[i] == '{' && s[i + 1] == '{' && ({
        let j = after_marks(s, i + 2);
        j < s.len() && (s[j] == '>' || s[j] == '*')
    })
}

/// The text holds what may be the call of a partial or of a decorator.
/// Every template that calls one holds it; a text may hold it without
/// being such a call, as in a comment.
pub open spec fn includes_templates(s: Seq<char>) -> bool {
    exists|i: int| includes_at(s, i)
}

/// The first position from `from` on that holds no mark.
pub fn skip_marks(chars: &Vec<char>, from: usize) -> (r: usize)
    requires
        from <= chars.len(),
    ensures
        r == after_marks(chars@, from as int),
        from <= r <= chars.len(),
{
    let mut j: usize = from;
    while j < chars.len() && (chars[j] == ' ' || chars[j] == '\t' || chars[j] == '\n' || chars[j]
        == '\r' || chars[j] == '~' || chars[j] == '#')
        invariant
            from <= j <= chars.len(),
            after_marks(chars@, from as int) == after_marks(chars@, j as int),
        decreases chars.len() - j,
    {
        j += 1;
    }
    j
}

/// Whether the template holds what may be the call of a partial or of a
/// decorator.
pub fn has_inclusion(template: &str) -> (r: bool)
    ensures
        r == includes_templates(template@),
{
    let chars = chars_of(template);
    if chars.len() < 2 {
        return false;
    }
    let last: usize = chars.len() - 1;
    let mut i: usize = 0;
    while i < last
        invariant
            chars@ == template@,
            last == chars.len() - 1,
            i <= last,
            forall|k: int| 0 <= k < i ==> !includes_at(chars@, k),
        decreases last - i,
    {
        if chars[i] == '{' && chars[i + 1] == '{' {
            let j = skip_marks(&chars, i + 2);
            if j < chars.len() && (chars[j] == '>' || chars[j] == '*') {
                assert(includes_at(chars@, i as int));
                return true;
            }
        }
        i += 1;
    }
    false
}

} // verus!
