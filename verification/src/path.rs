//! Paths into structured values: `name`, `name[3]`, and such parts joined
//! by dots.

use vstd::prelude::*;
use crate::text::{
    decimal, find, find_from, find_text, lemma_decimal_digits, lemma_find_from, matches_at,
    parse_index, read_index, slice_of, string_of,
};
use crate::value::{
    lemma_lookup_some, lemma_view_array, lemma_view_object, lookup, member, members_view, members_wf,
    Json, JsonValue,
};
use crate::flatten::item_path;

verus! {

/// What one part of a path asks for.
pub enum Segment {
    /// The member of that name.
    Field(Seq<char>),
    /// The item at that index of the list that is the member of that name.
    Item(Seq<char>, nat),
    /// A part with a `[` that is not of the shape `name[index]`.
    Malformed,
}

/// Reads one part of a path. A part without `[` names a member. A part with
/// one must be a name, `[`, an index and `]`, in that order and with nothing
/// after; the name ends at the first `[`.
pub open spec fn segment_of(part: Seq<char>) -> Segment {
    match find(part, seq!['[']) {
        None => Segment::Field(part),
        Some(open) => if 0 <= open < part.len() - 1 && part.last() == ']' {
            match parse_index(part.subrange(open + 1, part.len() - 1)) {
                Some(n) => Segment::Item(part.take(open), n),
                None => Segment::Malformed,
            }
        } else {
            Segment::Malformed
        },
    }
}

/// The value one part further down from `current`.
pub open spec fn step(current: Json, part: Seq<char>) -> Option<Json> {
    match segment_of(part) {
        Segment::Field(name) => current.field(name),
        Segment::Item(name, index) => match current.field(name) {
            Some(list) => list.item(index as int),
            None => None,
        },
        Segment::Malformed => None,
    }
}

/// The value reached from `current` by the parts from position `from` on.
pub open spec fn walk(current: Json, parts: Seq<Seq<char>>, from: int) -> Option<Json>
    decreases parts.len() - from,
{
    if from < 0 || from >= parts.len() {
        Some(current)
    } else {
        match step(current, parts[from]) {
            Some(next) => walk(next, parts, from + 1),
            None => None,
        }
    }
}

/// What one part of a path asks for, as the program holds it.
pub enum PathPart {
    /// The member of that name.
    Field(String),
    /// The item at that index of the list that is the member of that name.
    Item(String, usize),
    /// Nothing: the part is malformed, or its index is beyond any list.
    Nowhere,
}

/// Reads one part of a path.
pub fn read_part(part: &Vec<char>) -> (r: PathPart)
    ensures
        match r {
            PathPart::Field(name) => segment_of(part@) == Segment::Field(name@),
            PathPart::Item(name, index) => segment_of(part@) == Segment::Item(name@, index as nat),
            PathPart::Nowhere => match segment_of(part@) {
                Segment::Malformed => true,
                Segment::Item(_, index) => index > usize::MAX,
                Segment::Field(_) => false,
            },
        },
{
    let bracket: Vec<char> = vec!['['];
    assert(bracket@ =~= seq!['[']);
    match find_text(part, &bracket, 0) {
        None => PathPart::Field(string_of(part)),
        Some(open) => {
            proof {
                lemma_find_from(part@, bracket@, 0);
            }
            if open < part.len() - 1 && part[part.len() - 1] == ']' {
                match read_index(part, open + 1, part.len() - 1) {
                    Some(index) => {
                        let name = slice_of(part, 0, open);
                        PathPart::Item(string_of(&name), index)
                    },
                    None => PathPart::Nowhere,
                }
            } else {
                PathPart::Nowhere
            }
        },
    }
}

/// One part further down from a mapping given by its members.
pub fn step_members<'a>(members: &'a Vec<(String, JsonValue)>, part: &Vec<char>) -> (r: Option<
    &'a JsonValue,
>)
    requires
        members_wf(members_view(members@)),
    ensures
        match r {
            Some(v) => step(Json::Object(members_view(members@)), part@) == Some(v@) && v@.wf(),
            None => step(Json::Object(members_view(members@)), part@) is None,
        },
{
    match read_part(part) {
        PathPart::Field(name) => member(members, name.as_str()),
        PathPart::Item(name, index) => match member(members, name.as_str()) {
            Some(list) => list.item(index),
            None => None,
        },
        PathPart::Nowhere => {
            proof {
                // an index beyond the machine word is beyond any list
                if let Segment::Item(name, index) = segment_of(part@) {
                    if Json::Object(members_view(members@)).field(name) is Some {
                        lemma_item_beyond(members, name, index);
                    }
                }
            }
            None
        },
    }
}

/// No list that a program holds has an item at an index beyond the
/// machine word.
pub proof fn lemma_item_beyond(members: &Vec<(String, JsonValue)>, name: Seq<char>, index: nat)
    requires
        index > usize::MAX,
        Json::Object(members_view(members@)).field(name) is Some,
    ensures
        Json::Object(members_view(members@)).field(name).unwrap().item(index as int) is None,
{
    let mv = members_view(members@);
    lemma_lookup_some(mv, name);
    let i = choose|i: int|
        0 <= i < mv.len() && (#[trigger] mv[i]).0 == name && lookup(mv, name) == Some(mv[i].1);
    let v = members@[i].1;
    assert(mv[i].1 == v@);
    match v {
        JsonValue::Array(items) => {
            lemma_view_array(items);
            assert(items@.len() == items.len() <= usize::MAX);
        },
        _ => {},
    }
}

/// One part further down from `current`.
pub fn step_value<'a>(current: &'a JsonValue, part: &Vec<char>) -> (r: Option<&'a JsonValue>)
    requires
        current@.wf(),
    ensures
        match r {
            Some(v) => step(current@, part@) == Some(v@) && v@.wf(),
            None => step(current@, part@) is None,
        },
{
    match current {
        JsonValue::Object(members) => {
            proof {
                lemma_view_object(*members);
            }
            step_members(members, part)
        },
        _ => None,
    }
}

/// The path that flattening gives to an item of a list is read back as
/// the step to that item: for a name without `[`, the part made of the
/// name and the index in brackets asks for that item of that member.
pub proof fn lemma_segment_of_item_path(name: Seq<char>, index: nat)
    requires
        forall|i: int| 0 <= i < name.len() ==> name[i] != '[',
    ensures
        segment_of(item_path(name, index)) == Segment::Item(name, index),
{
    reveal_strlit("[");
    reveal_strlit("]");
    lemma_decimal_digits(index);
    let open = seq!['['];
    let digits = decimal(index);
    let part = item_path(name, index);
    assert("["@ =~= open);
    assert("]"@ =~= seq![']']);
    assert(part =~= name + open + digits + seq![']']);
    // the first bracket stands right after the name
    assert(part.subrange(name.len() as int, name.len() as int + 1) =~= open);
    assert(matches_at(part, open, name.len() as int));
    lemma_first_match(part, open, 0, name.len() as int);
    assert(part.subrange(name.len() as int + 1, part.len() as int - 1) =~= digits);
    assert(part.take(name.len() as int) =~= name);
}

/// Where `needle` stands at `at` and nowhere from `from` up to `at`,
/// `at` is where it is found from `from`.
proof fn lemma_first_match(hay: Seq<char>, needle: Seq<char>, from: int, at: int)
    requires
        0 <= from <= at,
        matches_at(hay, needle, at),
        needle.len() == 1,
        forall|k: int| from <= k < at ==> hay[k] != needle[0],
    ensures
        find_from(hay, needle, from) == Some(at),
    decreases at - from,
{
    if from < at {
        assert(hay.subrange(from, from + 1)[0] == hay[from]);
        assert(!matches_at(hay, needle, from));
        lemma_first_match(hay, needle, from + 1, at);
    }
}

} // verus!
