//! The helper functions that templates can call: each takes the values of
//! its arguments and gives a text.

use vstd::prelude::*;
use vstd::string::StringExecFns;
use crate::diagnostics::{char_is_whitespace, is_whitespace};
use crate::text::{
    chars_of, parts_view, slice_of, split_on, split_text, string_of, to_lowercase, to_uppercase,
    lowercase_of, uppercase_of,
};
use crate::value::{items_view, lemma_view_array, Json, JsonValue};

verus! {

/// The helpers.
#[derive(Debug, Clone, Copy, PartialEq, Eq, Structural)]
pub enum HelperKind {
    /// `default value fallback`: the value, or the fallback where the
    /// value is absent or the empty text.
    Default,
    /// `uppercase text`.
    Uppercase,
    /// `lowercase text`.
    Lowercase,
    /// `capitalize text`: the first character in uppercase.
    Capitalize,
    /// `trim text`: without white space at either end.
    Trim,
    /// `replace text old new`: every `old` replaced by `new`.
    Replace,
}

/// The text of an argument: the text itself for a text, the empty text for
/// anything else, an absent value too.
pub open spec fn text_of(value: Json) -> Seq<char> {
    match value {
        Json::Text(s) => s,
        _ => Seq::empty(),
    }
}

/// Whether a value is absent or the empty text. A value that is not
/// there and a null are the same to a helper.
pub open spec fn absent_or_empty(value: Json) -> bool {
    match value {
        Json::Null => true,
        Json::Text(s) => s.len() == 0,
        _ => false,
    }
}

/// The first `n` items as a template shows them, each followed by a
/// comma and a space.
pub open spec fn shown_items(items: Seq<Json>, n: nat) -> Seq<char>
    decreases items, n,
{
    if n == 0 || n > items.len() {
        Seq::empty()
    } else {
        shown_items(items, (n - 1) as nat) + shown(items[n - 1]) + ", "@
    }
}

/// A value as a template shows it: a text as it is, a number and a
/// truth value as they are written, nothing for a null, the items of a
/// list in brackets, and a fixed word for a mapping.
pub open spec fn shown(value: Json) -> Seq<char>
    decreases value,
{
    match value {
        Json::Null => Seq::empty(),
        Json::Bool(b) => if b {
            "true"@
        } else {
            "false"@
        },
        Json::Number(n) => n,
        Json::Text(s) => s,
        Json::Array(items) => "["@ + shown_items(items, items.len()) + "]"@,
        Json::Object(_) => "[object]"@,
    }
}

/// The first position at or after `from` of a character that is no white
/// space, or the length of the text where there is none.
pub open spec fn leading(s: Seq<char>, from: int) -> int
    decreases s.len() - from,
{
    if from < 0 || from >= s.len() {
        s.len() as int
    } else if !is_whitespace(s[from]) {
        from
    } else {
        leading(s, from + 1)
    }
}

/// The end of the last character before `to` that is no white space, or
/// zero where there is none.
pub open spec fn trailing(s: Seq<char>, to: int) -> int
    decreases to,
{
    if to <= 0 || to > s.len() {
        0
    } else if !is_whitespace(s[to - 1]) {
        to
    } else {
        trailing(s, to - 1)
    }
}

/// The text without the white space at its start and at its end.
pub open spec fn trimmed(s: Seq<char>) -> Seq<char> {
    let from = leading(s, 0);
    let to = trailing(s, s.len() as int);
    if from < to {
        s.subrange(from, to)
    } else {
        Seq::empty()
    }
}

/// The text with its first character in uppercase.
pub open spec fn capitalized(s: Seq<char>) -> Seq<char> {
    if s.len() == 0 {
        s
    } else {
        uppercase_of(seq![s[0]]) + s.skip(1)
    }
}

/// The parts joined, with `between` between each two.
pub open spec fn join_with(parts: Seq<Seq<char>>, between: Seq<char>) -> Seq<char>
    decreases parts.len(),
{
    if parts.len() == 0 {
        Seq::empty()
    } else if parts.len() == 1 {
        parts[0]
    } else {
        join_with(parts.drop_last(), between) + between + parts.last()
    }
}

/// `new`, then the first `n` characters of the text, each followed by
/// `new`.
pub open spec fn woven(text: Seq<char>, new: Seq<char>, n: nat) -> Seq<char>
    decreases n,
{
    if n == 0 || n > text.len() {
        new
    } else {
        woven(text, new, (n - 1) as nat) + seq![text[n - 1]] + new
    }
}

/// The text with every `old` replaced by `new`, found from left to right
/// and not overlapping. An empty `old` is found before every character and
/// at the end.
pub open spec fn replaced(text: Seq<char>, old: Seq<char>, new: Seq<char>) -> Seq<char> {
    if old.len() == 0 {
        woven(text, new, text.len())
    } else {
        join_with(split_on(text, old), new)
    }
}

/// What a helper gives for its arguments: a text, or the reason why it
/// cannot give one.
pub open spec fn helper_output(kind: HelperKind, args: Seq<Json>) -> Result<Seq<char>, Seq<char>> {
    match kind {
        HelperKind::Default => if args.len() < 2 {
            Err("default helper requires a fallback value"@)
        } else if absent_or_empty(args[0]) {
            Ok(shown(args[1]))
        } else {
            Ok(shown(args[0]))
        },
        HelperKind::Uppercase => if args.len() < 1 {
            Err("uppercase helper requires a parameter"@)
        } else {
            Ok(uppercase_of(text_of(args[0])))
        },
        HelperKind::Lowercase => if args.len() < 1 {
            Err("lowercase helper requires a parameter"@)
        } else {
            Ok(lowercase_of(text_of(args[0])))
        },
        HelperKind::Capitalize => if args.len() < 1 {
            Err("capitalize helper requires a parameter"@)
        } else {
            Ok(capitalized(text_of(args[0])))
        },
        HelperKind::Trim => if args.len() < 1 {
            Err("trim helper requires a parameter"@)
        } else {
            Ok(trimmed(text_of(args[0])))
        },
        HelperKind::Replace => if args.len() < 1 {
            Err("replace helper requires text parameter"@)
        } else if args.len() < 2 {
            Err("replace helper requires old string parameter"@)
        } else if args.len() < 3 {
            Err("replace helper requires new string parameter"@)
        } else {
            Ok(replaced(text_of(args[0]), text_of(args[1]), text_of(args[2])))
        },
    }
}

/// The name under which templates call a helper.
pub open spec fn helper_name(kind: HelperKind) -> Seq<char> {
    match kind {
        HelperKind::Default => "default"@,
        HelperKind::Uppercase => "uppercase"@,
        HelperKind::Lowercase => "lowercase"@,
        HelperKind::Capitalize => "capitalize"@,
        HelperKind::Trim => "trim"@,
        HelperKind::Replace => "replace"@,
    }
}

impl HelperKind {
    /// The name under which templates call this helper.
    pub fn name(&self) -> (r: &'static str)
        ensures
            r@ == helper_name(*self),
    {
        match self {
            HelperKind::Default => "default",
            HelperKind::Uppercase => "uppercase",
            HelperKind::Lowercase => "lowercase",
            HelperKind::Capitalize => "capitalize",
            HelperKind::Trim => "trim",
            HelperKind::Replace => "replace",
        }
    }
}

/// The text of an argument.
pub fn text_value(value: &JsonValue) -> (r: &str)
    ensures
        r@ == text_of(value@),
{
    match value {
        JsonValue::Text(s) => s.as_str(),
        _ => {
            let r = "";
            proof {
                reveal_strlit("");
                assert(r@ =~= Seq::<char>::empty());
            }
            r
        },
    }
}

/// The text without the white space at its start and at its end.
pub fn trim(text: &str) -> (r: String)
    ensures
        r@ == trimmed(text@),
{
    let chars = chars_of(text);
    let mut from: usize = 0;
    while from < chars.len() && char_is_whitespace(chars[from])
        invariant
            from <= chars.len(),
            leading(chars@, 0) == leading(chars@, from as int),
        decreases chars.len() - from,
    {
        from += 1;
    }
    let mut to: usize = chars.len();
    while to > 0 && char_is_whitespace(chars[to - 1])
        invariant
            to <= chars.len(),
            trailing(chars@, chars@.len() as int) == trailing(chars@, to as int),
        decreases to,
    {
        to -= 1;
    }
    if from < to {
        string_of(&slice_of(&chars, from, to))
    } else {
        String::new()
    }
}

/// Whether the text holds nothing but white space.
pub fn is_blank(text: &Vec<char>) -> (r: bool)
    ensures
        r == (trimmed(text@).len() == 0),
{
    let mut from: usize = 0;
    while from < text.len() && char_is_whitespace(text[from])
        invariant
            from <= text.len(),
            leading(text@, 0) == leading(text@, from as int),
            forall|j: int| 0 <= j < from ==> is_whitespace(text@[j]),
        decreases text.len() - from,
    {
        from += 1;
    }
    proof {
        if from < text.len() {
            lemma_trailing_after(text@, from as int, text@.len() as int);
            lemma_trailing_bound(text@, text@.len() as int);
        } else {
            lemma_trailing_bound(text@, text@.len() as int);
        }
    }
    from == text.len()
}

/// The end of the trailing white space lies after a character that is
/// no white space.
pub proof fn lemma_trailing_after(s: Seq<char>, at: int, to: int)
    requires
        0 <= at < to <= s.len(),
        !is_whitespace(s[at]),
    ensures
        trailing(s, to) > at,
    decreases to,
{
    if is_whitespace(s[to - 1]) {
        lemma_trailing_after(s, at, to - 1);
    }
}

/// The end of the trailing white space lies in the text.
pub proof fn lemma_trailing_bound(s: Seq<char>, to: int)
    ensures
        0 <= trailing(s, to) <= s.len(),
        0 <= to <= s.len() ==> trailing(s, to) <= to,
    decreases to,
{
    if 0 < to <= s.len() && is_whitespace(s[to - 1]) {
        lemma_trailing_bound(s, to - 1);
    }
}

/// The text with its first character in uppercase.
pub fn capitalize(text: &str) -> (r: String)
    ensures
        r@ == capitalized(text@),
{
    let chars = chars_of(text);
    if chars.len() == 0 {
        let r = String::new();
        assert(r@ =~= text@);
        return r;
    }
    let first: Vec<char> = vec![chars[0]];
    assert(first@ =~= seq![text@[0]]);
    let mut r = to_uppercase(string_of(&first).as_str());
    let rest = slice_of(&chars, 1, chars.len());
    assert(rest@ =~= text@.skip(1));
    r.append(string_of(&rest).as_str());
    r
}

/// The text with every `old` replaced by `new`.
pub fn replace(text: &str, old: &str, new: &str) -> (r: String)
    ensures
        r@ == replaced(text@, old@, new@),
{
    let chars = chars_of(text);
    let pattern = chars_of(old);
    if pattern.len() == 0 {
        let mut r = String::from_str(new);
        let mut i: usize = 0;
        while i < chars.len()
            invariant
                i <= chars.len(),
                chars@ == text@,
                r@ == woven(text@, new@, i as nat),
            decreases chars.len() - i,
        {
            r.push(chars[i]);
            r.append(new);
            proof {
                assert(woven(text@, new@, i as nat).push(chars@[i as int]) + new@ =~= woven(
                    text@,
                    new@,
                    i as nat,
                ) + seq![text@[i as int]] + new@);
            }
            i += 1;
        }
        return r;
    }
    let parts = split_text(&chars, &pattern);
    let ghost all = parts_view(parts@);
    let mut r = String::new();
    let mut i: usize = 0;
    proof {
        assert(all.take(0) =~= Seq::empty());
    }
    while i < parts.len()
        invariant
            i <= parts.len(),
            all == parts_view(parts@),
            r@ == join_with(all.take(i as int), new@),
        decreases parts.len() - i,
    {
        proof {
            let next = all.take(i + 1);
            assert(next.drop_last() =~= all.take(i as int));
            assert(next.last() == parts@[i as int]@);
            if i == 0 {
                assert(Seq::<char>::empty() + parts@[0]@ =~= next[0]);
            }
        }
        if i > 0 {
            r.append(new);
        }
        r.append(string_of(&parts[i]).as_str());
        i += 1;
    }
    proof {
        assert(all.take(parts@.len() as int) =~= all);
    }
    r
}

/// Whether a value is absent or the empty text.
pub fn is_absent_or_empty(value: &JsonValue) -> (r: bool)
    ensures
        r == absent_or_empty(value@),
{
    match value {
        JsonValue::Null => true,
        JsonValue::Text(s) => s.as_str().is_empty(),
        _ => false,
    }
}

/// A value as a template shows it.
pub fn show(value: &JsonValue) -> (r: String)
    ensures
        r@ == shown(value@),
    decreases value,
{
    match value {
        JsonValue::Null => String::new(),
        JsonValue::Bool(b) => if *b {
            String::from_str("true")
        } else {
            String::from_str("false")
        },
        JsonValue::Number(n) => n.clone(),
        JsonValue::Text(s) => s.clone(),
        JsonValue::Array(items) => {
            proof {
                lemma_view_array(*items);
            }
            let ghost listed = items_view(items@);
            let mut r = String::from_str("[");
            let mut i: usize = 0;
            while i < items.len()
                invariant
                    i <= items.len(),
                    listed == items_view(items@),
                    value == JsonValue::Array(*items),
                    r@ == "["@ + shown_items(listed, i as nat),
                decreases items.len() - i,
            {
                assert(value matches JsonValue::Array(v) && v == items);
                let item = show(&items[i]);
                assert(listed[i as int] == items@[i as int]@);
                r.append(item.as_str());
                r.append(", ");
                proof {
                    assert(r@ =~= "["@ + shown_items(listed, (i + 1) as nat));
                }
                i += 1;
            }
            r.append("]");
            r
        },
        JsonValue::Object(_) => String::from_str("[object]"),
    }
}

/// The texts of `args`.
pub open spec fn args_view(args: Seq<JsonValue>) -> Seq<Json> {
    Seq::new(args.len(), |i: int| args[i]@)
}

/// Applies a helper to the values of its arguments.
pub fn apply_helper(kind: HelperKind, args: &Vec<JsonValue>) -> (r: Result<String, String>)
    ensures
        match r {
            Ok(text) => helper_output(kind, args_view(args@)) == Ok::<Seq<char>, Seq<char>>(text@),
            Err(reason) => helper_output(kind, args_view(args@)) == Err::<Seq<char>, Seq<char>>(
                reason@,
            ),
        },
{
    match kind {
        HelperKind::Default => {
            if args.len() < 2 {
                return Err(String::from_str("default helper requires a fallback value"));
            }
            if is_absent_or_empty(&args[0]) {
                Ok(show(&args[1]))
            } else {
                Ok(show(&args[0]))
            }
        },
        HelperKind::Uppercase => {
            if args.len() < 1 {
                return Err(String::from_str("uppercase helper requires a parameter"));
            }
            Ok(to_uppercase(text_value(&args[0])))
        },
        HelperKind::Lowercase => {
            if args.len() < 1 {
                return Err(String::from_str("lowercase helper requires a parameter"));
            }
            Ok(to_lowercase(text_value(&args[0])))
        },
        HelperKind::Capitalize => {
            if args.len() < 1 {
                return Err(String::from_str("capitalize helper requires a parameter"));
            }
            Ok(capitalize(text_value(&args[0])))
        },
        HelperKind::Trim => {
            if args.len() < 1 {
                return Err(String::from_str("trim helper requires a parameter"));
            }
            Ok(trim(text_value(&args[0])))
        },
        HelperKind::Replace => {
            if args.len() < 1 {
                return Err(String::from_str("replace helper requires text parameter"));
            }
            if args.len() < 2 {
                return Err(String::from_str("replace helper requires old string parameter"));
            }
            if args.len() < 3 {
                return Err(String::from_str("replace helper requires new string parameter"));
            }
            Ok(replace(text_value(&args[0]), text_value(&args[1]), text_value(&args[2])))
        },
    }
}

} // verus!
