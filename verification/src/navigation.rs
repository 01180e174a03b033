//! Reading by walking: a path made of names and indices leads to what the
//! names and indices lead to in the values of the store.

use vstd::prelude::*;
use crate::flatten::item_path;
use crate::path::{lemma_segment_of_item_path, step, walk};
use crate::text::{
    decimal, find_from, is_digit, lemma_decimal_digits, matches_at, split_from, split_on,
};
use crate::value::Json;
use crate::variable_context::resolve;

verus! {

/// The text holds no dot.
pub open spec fn no_dot(text: Seq<char>) -> bool {
    forall|i: int| 0 <= i < text.len() ==> text[i] != '.'
}

/// The parts joined by dots.
pub open spec fn dotted(parts: Seq<Seq<char>>) -> Seq<char>
    decreases parts.len(),
{
    if parts.len() == 0 {
        Seq::empty()
    } else if parts.len() == 1 {
        parts[0]
    } else {
        parts[0] + seq!['.'] + dotted(parts.drop_first())
    }
}

/// Where no dot stands from `from` up to `at` and a dot stands at `at`,
/// the dot at `at` is the first that is found from `from`.
proof fn lemma_first_dot(text: Seq<char>, from: int, at: int)
    requires
        0 <= from <= at < text.len(),
        text[at] == '.',
        forall|k: int| from <= k < at ==> text[k] != '.',
    ensures
        find_from(text, seq!['.'], from) == Some(at),
    decreases at - from,
{
    let dot = seq!['.'];
    if from < at {
        assert(text.subrange(from, from + 1)[0] == text[from]);
        assert(!matches_at(text, dot, from));
        lemma_first_dot(text, from + 1, at);
    } else {
        assert(text.subrange(at, at + 1) =~= dot);
    }
}

/// Where no dot stands from `from` on, none is found.
proof fn lemma_no_dot_found(text: Seq<char>, from: int)
    requires
        0 <= from,
        forall|k: int| from <= k < text.len() ==> text[k] != '.',
    ensures
        find_from(text, seq!['.'], from) is None,
    decreases text.len() - from + 1,
{
    let dot = seq!['.'];
    if from + 1 <= text.len() {
        assert(text.subrange(from, from + 1)[0] == text[from]);
        assert(!matches_at(text, dot, from));
        lemma_no_dot_found(text, from + 1);
    }
}

/// Parts without dots, joined by dots after some text, are the pieces
/// that the dots separate after that text.
proof fn lemma_split_dotted(before: Seq<char>, parts: Seq<Seq<char>>)
    requires
        parts.len() > 0,
        forall|i: int| 0 <= i < parts.len() ==> no_dot(#[trigger] parts[i]),
    ensures
        split_from(before + dotted(parts), seq!['.'], before.len() as int) == parts,
    decreases parts.len(),
{
    let dot = seq!['.'];
    let text = before + dotted(parts);
    let start = before.len() as int;
    let first = parts[0];
    assert(no_dot(first));
    if parts.len() == 1 {
        assert forall|k: int| start <= k < text.len() implies text[k] != '.' by {
            assert(text[k] == first[k - start]);
        }
        lemma_no_dot_found(text, start);
        assert(text.subrange(start, text.len() as int) =~= first);
        assert(seq![first] =~= parts);
    } else {
        let rest = parts.drop_first();
        let at = start + first.len();
        assert(text =~= before + first + dot + dotted(rest));
        assert(text[at] == '.');
        assert forall|k: int| start <= k < at implies text[k] != '.' by {
            assert(text[k] == first[k - start]);
        }
        lemma_first_dot(text, start, at);
        assert forall|i: int| 0 <= i < rest.len() implies no_dot(#[trigger] rest[i]) by {
            assert(rest[i] == parts[i + 1]);
        }
        let consumed = before + first + dot;
        assert(text =~= consumed + dotted(rest));
        lemma_split_dotted(consumed, rest);
        assert(text.subrange(start, at) =~= first);
        assert(seq![first] + rest =~= parts);
    }
}

/// Parts without dots, joined by dots, are the pieces that the dots
/// separate.
pub proof fn lemma_split_on_dotted(parts: Seq<Seq<char>>)
    requires
        parts.len() > 0,
        forall|i: int| 0 <= i < parts.len() ==> no_dot(#[trigger] parts[i]),
    ensures
        split_on(dotted(parts), seq!['.']) == parts,
{
    lemma_split_dotted(Seq::empty(), parts);
    assert(Seq::<char>::empty() + dotted(parts) =~= dotted(parts));
}

/// One hop of a walk: into the member of a name and, where there is an
/// index, on into the item at that index.
pub struct Hop {
    pub key: Seq<char>,
    pub index: Option<nat>,
}

/// The part of a path that asks for a hop.
pub open spec fn hop_text(hop: Hop) -> Seq<char> {
    match hop.index {
        Some(i) => item_path(hop.key, i),
        None => hop.key,
    }
}

/// The name of the hop holds neither dot nor opening bracket.
pub open spec fn plain_hop(hop: Hop) -> bool {
    forall|i: int| 0 <= i < hop.key.len() ==> hop.key[i] != '.' && hop.key[i] != '['
}

/// The parts of a path that ask for the hops.
pub open spec fn hop_texts(hops: Seq<Hop>) -> Seq<Seq<char>> {
    Seq::new(hops.len(), |i: int| hop_text(hops[i]))
}

/// The path that asks for the hops.
pub open spec fn hops_path(hops: Seq<Hop>) -> Seq<char> {
    dotted(hop_texts(hops))
}

/// What a hop leads to from a value.
pub open spec fn take_hop(value: Json, hop: Hop) -> Option<Json> {
    match value.field(hop.key) {
        Some(inner) => match hop.index {
            Some(i) => inner.item(i as int),
            None => Some(inner),
        },
        None => None,
    }
}

/// What the hops from position `from` on lead to from a value.
pub open spec fn follow(value: Json, hops: Seq<Hop>, from: int) -> Option<Json>
    decreases hops.len() - from,
{
    if from < 0 || from >= hops.len() {
        Some(value)
    } else {
        match take_hop(value, hops[from]) {
            Some(next) => follow(next, hops, from + 1),
            None => None,
        }
    }
}

/// Where no opening bracket stands from `from` on, none is found.
pub proof fn lemma_no_bracket_found(text: Seq<char>, from: int)
    requires
        0 <= from,
        forall|k: int| from <= k < text.len() ==> text[k] != '[',
    ensures
        find_from(text, seq!['['], from) is None,
    decreases text.len() - from + 1,
{
    let bracket = seq!['['];
    if from + 1 <= text.len() {
        assert(text.subrange(from, from + 1)[0] == text[from]);
        assert(!matches_at(text, bracket, from));
        lemma_no_bracket_found(text, from + 1);
    }
}

/// The part that asks for a plain hop holds no dot, and is read as that
/// hop.
proof fn lemma_hop_text(value: Json, hop: Hop)
    requires
        plain_hop(hop),
    ensures
        no_dot(hop_text(hop)),
        step(value, hop_text(hop)) == take_hop(value, hop),
{
    match hop.index {
        Some(i) => {
            reveal_strlit("[");
            reveal_strlit("]");
            lemma_decimal_digits(i);
            lemma_segment_of_item_path(hop.key, i);
            let text = hop_text(hop);
            let digits = decimal(i);
            assert("["@ =~= seq!['[']);
            assert("]"@ =~= seq![']']);
            assert(text =~= hop.key + seq!['['] + digits + seq![']']);
            assert forall|k: int| 0 <= k < text.len() implies text[k] != '.' by {
                if k < hop.key.len() {
                    assert(text[k] == hop.key[k]);
                } else if hop.key.len() < k < text.len() - 1 {
                    assert(text[k] == digits[k - hop.key.len() - 1]);
                    assert(is_digit(digits[k - hop.key.len() - 1]));
                }
            }
        },
        None => {
            lemma_no_bracket_found(hop.key, 0);
        },
    }
}

/// Walking the parts that ask for plain hops is following the hops.
proof fn lemma_walk_follows(value: Json, hops: Seq<Hop>, from: int)
    requires
        0 <= from <= hops.len(),
        forall|i: int| 0 <= i < hops.len() ==> plain_hop(#[trigger] hops[i]),
    ensures
        walk(value, hop_texts(hops), from) == follow(value, hops, from),
    decreases hops.len() - from,
{
    if from < hops.len() {
        lemma_hop_text(value, hops[from]);
        match take_hop(value, hops[from]) {
            Some(next) => {
                lemma_walk_follows(next, hops, from + 1);
            },
            None => {},
        }
    }
}

/// The navigation law. A path made of plain names, some with an index,
/// joined by dots, under which the mapping holds nothing itself,
/// resolves to what the names and indices lead to, one after the other:
/// each name to the member of that name, each index to the item at that
/// index of what the name before it led to. It resolves to nothing where
/// a member or an item on the way is not there.
pub proof fn lemma_resolve_follows(root: Json, hops: Seq<Hop>)
    requires
        hops.len() > 0,
        forall|i: int| 0 <= i < hops.len() ==> plain_hop(#[trigger] hops[i]),
        root.field(hops_path(hops)) is None,
    ensures
        resolve(root, hops_path(hops)) == follow(root, hops, 0),
{
    let parts = hop_texts(hops);
    assert forall|i: int| 0 <= i < parts.len() implies no_dot(#[trigger] parts[i]) by {
        lemma_hop_text(root, hops[i]);
    }
    lemma_split_on_dotted(parts);
    lemma_walk_follows(root, hops, 0);
}

} // verus!
