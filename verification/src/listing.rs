//! The lines that show the variables of a store: for each root of the
//! paths what stands under it, with types and values in short.

use vstd::prelude::*;
use vstd::string::StringExecFns;
use crate::cli::DataSource;
use crate::flatten::item_path;
use crate::report::{
    extract_root_key, format_value_sample, get_value_type, kind_name, root_key, sample_of,
    texts_of,
};
use crate::text::{
    chars_of, decimal, find_from, find_text, has_prefix, lemma_find_from, lemma_lex_lt_transitive,
    lex_lt, parse_index, push_decimal, read_index, slice_of, starts_with, str_eq, str_lt,
    string_of,
};
use crate::value::{
    lemma_put_sorted, lemma_rank, lemma_view_array, put, sorted_keys, Json, JsonValue,
};
use crate::variable_context::VariableContext;

verus! {

/// Names as the keys of members that hold nothing, so that what holds
/// of keys in order holds of names in order.
pub open spec fn name_set(names: Seq<String>) -> Seq<(Seq<char>, ())> {
    Seq::new(names.len(), |i: int| (names[i]@, ()))
}

/// Adds a name to names kept in order, unless it is among them.
pub fn insert_name(names: &mut Vec<String>, name: String)
    requires
        sorted_keys(name_set(old(names)@)),
    ensures
        name_set(final(names)@) == put(name_set(old(names)@), name@, ()),
        sorted_keys(name_set(final(names)@)),
{
    let ghost before = name_set(names@);
    let mut p: usize = 0;
    while p < names.len() && str_lt(names[p].as_str(), name.as_str())
        invariant
            p <= names.len(),
            forall|i: int| 0 <= i < p ==> lex_lt(#[trigger] names@[i]@, name@),
        decreases names.len() - p,
    {
        p += 1;
    }
    proof {
        assert forall|i: int| 0 <= i < p implies lex_lt((#[trigger] before[i]).0, name@) by {
            assert(lex_lt(names@[i]@, name@));
        }
        assert forall|i: int| p <= i < before.len() implies !lex_lt(
            (#[trigger] before[i]).0,
            name@,
        ) by {
            assert(before[p as int].0 == names@[p as int]@);
            if i > p && lex_lt(before[i].0, name@) {
                assert(lex_lt(before[p as int].0, before[i].0));
                lemma_lex_lt_transitive(before[p as int].0, before[i].0, name@);
            }
        }
        lemma_rank(before, name@, p as int);
        lemma_put_sorted(before, name@, ());
    }
    if p < names.len() && str_eq(names[p].as_str(), name.as_str()) {
        proof {
            assert(before[p as int] == (name@, ()));
            assert(name_set(names@) =~= put(before, name@, ()));
        }
    } else {
        proof {
            if p < names.len() {
                assert(before[p as int].0 == names@[p as int]@);
            }
        }
        names.insert(p, name);
        proof {
            assert(name_set(names@) =~= put(before, name@, ()));
        }
    }
}

/// The numbers strictly increase.
pub open spec fn increasing(numbers: Seq<usize>) -> bool {
    forall|i: int, j: int| 0 <= i < j < numbers.len() ==> numbers[i] < numbers[j]
}

/// How many of the numbers are below `x`.
pub open spec fn below(numbers: Seq<usize>, x: usize) -> int
    decreases numbers.len(),
{
    if numbers.len() == 0 {
        0
    } else {
        below(numbers.drop_last(), x) + if numbers.last() < x {
            1int
        } else {
            0int
        }
    }
}

/// The numbers with `x` among them: as they are where `x` stands at its
/// place, else with `x` put at the place that keeps them in order.
pub open spec fn with_number(numbers: Seq<usize>, x: usize) -> Seq<usize> {
    let p = below(numbers, x);
    if 0 <= p < numbers.len() && numbers[p] == x {
        numbers
    } else if 0 <= p <= numbers.len() {
        numbers.insert(p, x)
    } else {
        numbers
    }
}

/// Where the numbers before position `p` are below `x` and the others
/// are not, `p` of them are below `x`.
proof fn lemma_below(numbers: Seq<usize>, x: usize, p: int)
    requires
        0 <= p <= numbers.len(),
        forall|i: int| 0 <= i < p ==> numbers[i] < x,
        forall|i: int| p <= i < numbers.len() ==> numbers[i] >= x,
    ensures
        below(numbers, x) == p,
    decreases numbers.len(),
{
    if numbers.len() > 0 {
        let rest = numbers.drop_last();
        if p == numbers.len() {
            assert(numbers[numbers.len() - 1] < x);
            lemma_below(rest, x, p - 1);
        } else {
            assert(numbers[numbers.len() - 1] >= x);
            lemma_below(rest, x, p);
        }
    }
}

/// Adds a number to numbers kept in order, unless it is among them.
pub fn insert_index(indices: &mut Vec<usize>, index: usize)
    requires
        increasing(old(indices)@),
    ensures
        final(indices)@ == with_number(old(indices)@, index),
        increasing(final(indices)@),
{
    let ghost before = indices@;
    let mut p: usize = 0;
    while p < indices.len() && indices[p] < index
        invariant
            p <= indices.len(),
            forall|i: int| 0 <= i < p ==> indices@[i] < index,
        decreases indices.len() - p,
    {
        p += 1;
    }
    proof {
        assert forall|i: int| p <= i < before.len() implies before[i] >= index by {
            if i > p {
                assert(before[p as int] < before[i]);
            }
        }
        lemma_below(before, index, p as int);
    }
    if p < indices.len() && indices[p] == index {
    } else {
        indices.insert(p, index);
        proof {
            assert forall|i: int, j: int| 0 <= i < j < indices@.len() implies indices@[i]
                < indices@[j] by {
                let a = if i < p {
                    i
                } else {
                    i - 1
                };
                let b = if j < p {
                    j
                } else {
                    j - 1
                };
                if i != p && j != p {
                    assert(before[a] < before[b]);
                } else if i == p {
                    assert(before[b] >= index);
                } else {
                    assert(before[a] < index);
                }
            }
        }
    }
}

/// The entries as the proofs see them.
pub open spec fn pairs_of(vars: Seq<(String, &JsonValue)>) -> Seq<(Seq<char>, Json)> {
    Seq::new(vars.len(), |i: int| (vars[i].0@, vars[i].1@))
}

/// The value of the first entry from position `from` on that stands
/// under exactly `key`.
pub open spec fn found_in(vars: Seq<(Seq<char>, Json)>, key: Seq<char>, from: int) -> Option<Json>
    decreases vars.len() - from,
{
    if from < 0 || from >= vars.len() {
        None
    } else if vars[from].0 == key {
        Some(vars[from].1)
    } else {
        found_in(vars, key, from + 1)
    }
}

/// The value that the entries hold under exactly `key`.
pub fn find_entry<'a>(vars: &Vec<(String, &'a JsonValue)>, key: &str) -> (r: Option<&'a JsonValue>)
    ensures
        match r {
            Some(v) => found_in(pairs_of(vars@), key@, 0) == Some(v@),
            None => found_in(pairs_of(vars@), key@, 0) is None,
        },
{
    let ghost pairs = pairs_of(vars@);
    let mut i: usize = 0;
    while i < vars.len()
        invariant
            i <= vars.len(),
            pairs == pairs_of(vars@),
            found_in(pairs, key@, 0) == found_in(pairs, key@, i as int),
        decreases vars.len() - i,
    {
        assert(pairs[i as int] == (vars@[i as int].0@, vars@[i as int].1@));
        if str_eq(vars[i].0.as_str(), key) {
            return Some(vars[i].1);
        }
        i += 1;
    }
    None
}

/// `count` times two spaces.
pub open spec fn indent_text(count: nat) -> Seq<char>
    decreases count,
{
    if count == 0 {
        Seq::empty()
    } else {
        indent_text((count - 1) as nat) + "  "@
    }
}

/// `count` times two spaces.
pub fn indentation(count: usize) -> (r: String)
    ensures
        r@ == indent_text(count as nat),
{
    let mut r = String::new();
    let mut i: usize = 0;
    while i < count
        invariant
            i <= count,
            r@ == indent_text(i as nat),
        decreases count - i,
    {
        r.append("  ");
        i += 1;
    }
    r
}

/// The line for one variable: its name, the name of its type and its
/// value in short.
pub open spec fn variable_text(indent: Seq<char>, name: Seq<char>, value: Json) -> Seq<char> {
    indent + name + ": "@ + kind_name(value) + " = "@ + sample_of(value)
}

/// The line for one variable.
pub fn variable_line(indent: &str, name: &str, value: &JsonValue) -> (r: String)
    ensures
        r@ == variable_text(indent@, name@, value@),
{
    let mut r = String::from_str(indent);
    r.append(name);
    r.append(": ");
    r.append(get_value_type(value));
    r.append(" = ");
    r.append(format_value_sample(value).as_str());
    r
}

/// Adds one line.
fn add_line(lines: &mut Vec<String>, line: String)
    ensures
        texts_of(final(lines)@) == texts_of(old(lines)@).push(line@),
{
    lines.push(line);
    proof {
        assert(texts_of(lines@) =~= texts_of(old(lines)@).push(line@));
    }
}

/// The name of the member that `key` asks for below `prefix`: what
/// stands after `prefix` and a dot, up to the next dot or bracket.
pub open spec fn property_under(key: Seq<char>, prefix: Seq<char>) -> Option<Seq<char>> {
    if starts_with(key, prefix) && key.len() > prefix.len() && key[prefix.len() as int] == '.' {
        Some(root_key(key.skip(prefix.len() as int + 1)))
    } else {
        None
    }
}

/// The names of the members that the first `n` entries ask for below
/// `prefix`, in order and each once.
pub open spec fn properties_of(vars: Seq<(Seq<char>, Json)>, prefix: Seq<char>, n: nat) -> Seq<
    (Seq<char>, ()),
>
    decreases n,
{
    if n == 0 || n > vars.len() {
        Seq::empty()
    } else {
        let before = properties_of(vars, prefix, (n - 1) as nat);
        match property_under(vars[n - 1].0, prefix) {
            Some(name) => put(before, name, ()),
            None => before,
        }
    }
}

/// The path of the member `name` of what stands at `prefix`.
pub open spec fn property_path(prefix: Seq<char>, name: Seq<char>) -> Seq<char> {
    prefix + "."@ + name
}

/// The lines for the first `k` of the names: for each name whose path
/// the entries hold, the line for that variable.
pub open spec fn property_lines(
    vars: Seq<(Seq<char>, Json)>,
    prefix: Seq<char>,
    indent: nat,
    names: Seq<(Seq<char>, ())>,
    k: nat,
) -> Seq<Seq<char>>
    decreases k,
{
    if k == 0 || k > names.len() {
        Seq::empty()
    } else {
        let before = property_lines(vars, prefix, indent, names, (k - 1) as nat);
        match found_in(vars, property_path(prefix, names[k - 1].0), 0) {
            Some(value) => before.push(variable_text(indent_text(indent), names[k - 1].0, value)),
            None => before,
        }
    }
}

/// The lines for the members of the mapping at `prefix`: one for each
/// name that follows `prefix` and a dot in the paths, in the order of the
/// names, where the entries hold a value under the path of the member.
pub open spec fn object_lines(vars: Seq<(Seq<char>, Json)>, prefix: Seq<char>, indent: nat) -> Seq<
    Seq<char>,
> {
    let names = properties_of(vars, prefix, vars.len());
    property_lines(vars, prefix, indent, names, names.len())
}

/// The names of the members that the entries ask for below `prefix`.
fn property_names(vars: &Vec<(String, &JsonValue)>, prefix: &str) -> (names: Vec<String>)
    ensures
        name_set(names@) == properties_of(pairs_of(vars@), prefix@, vars.len() as nat),
        sorted_keys(name_set(names@)),
{
    let start = chars_of(prefix);
    let ghost pairs = pairs_of(vars@);
    let mut names: Vec<String> = Vec::new();
    let mut i: usize = 0;
    proof {
        assert(name_set(names@) =~= properties_of(pairs, prefix@, 0));
    }
    while i < vars.len()
        invariant
            i <= vars.len(),
            start@ == prefix@,
            pairs == pairs_of(vars@),
            name_set(names@) == properties_of(pairs, prefix@, i as nat),
            sorted_keys(name_set(names@)),
        decreases vars.len() - i,
    {
        assert(pairs[i as int] == (vars@[i as int].0@, vars@[i as int].1@));
        let key = chars_of(vars[i].0.as_str());
        if has_prefix(&key, &start) && key.len() > start.len() && key[start.len()] == '.' {
            let rest = slice_of(&key, start.len() + 1, key.len());
            assert(rest@ =~= key@.skip(start.len() + 1));
            insert_name(&mut names, extract_root_key(string_of(&rest).as_str()));
        }
        i += 1;
    }
    names
}

/// Adds the lines for the members of the mapping at `prefix`.
pub fn display_object_properties(
    prefix: &str,
    vars: &Vec<(String, &JsonValue)>,
    indent: usize,
    lines: &mut Vec<String>,
)
    ensures
        texts_of(final(lines)@) == texts_of(old(lines)@) + object_lines(
            pairs_of(vars@),
            prefix@,
            indent as nat,
        ),
{
    let names = property_names(vars, prefix);
    let spaces = indentation(indent);
    let ghost pairs = pairs_of(vars@);
    let ghost start = texts_of(lines@);
    let ghost set = name_set(names@);
    let mut k: usize = 0;
    proof {
        assert(texts_of(lines@) =~= start + property_lines(pairs, prefix@, indent as nat, set, 0));
    }
    while k < names.len()
        invariant
            k <= names.len(),
            pairs == pairs_of(vars@),
            set == name_set(names@),
            spaces@ == indent_text(indent as nat),
            texts_of(lines@) == start + property_lines(pairs, prefix@, indent as nat, set, k as nat),
        decreases names.len() - k,
    {
        assert(set[k as int] == (names@[k as int]@, ()));
        let mut path = String::from_str(prefix);
        path.append(".");
        path.append(names[k].as_str());
        let ghost so_far = property_lines(pairs, prefix@, indent as nat, set, k as nat);
        if let Some(value) = find_entry(vars, path.as_str()) {
            let line = variable_line(spaces.as_str(), names[k].as_str(), value);
            add_line(lines, line);
            proof {
                assert(texts_of(lines@) =~= start + so_far.push(line@));
            }
        }
        k += 1;
    }
}

/// The index of the item that `key` asks for below `prefix`: the number
/// in brackets that stands right after `prefix`, where it fits the
/// machine's word.
pub open spec fn index_under(key: Seq<char>, prefix: Seq<char>) -> Option<usize> {
    if starts_with(key, prefix) && key.len() > prefix.len() && key[prefix.len() as int] == '[' {
        match find_from(key, seq![']'], prefix.len() as int) {
            Some(end) => match parse_index(key.subrange(prefix.len() as int + 1, end)) {
                Some(n) => if n <= usize::MAX {
                    Some(n as usize)
                } else {
                    None
                },
                None => None,
            },
            None => None,
        }
    } else {
        None
    }
}

/// The index of the item that `key` asks for below `prefix`.
fn index_after(key: &Vec<char>, prefix: &Vec<char>) -> (r: Option<usize>)
    ensures
        r == index_under(key@, prefix@),
{
    if !(has_prefix(key, prefix) && key.len() > prefix.len() && key[prefix.len()] == '[') {
        return None;
    }
    let closing: Vec<char> = vec![']'];
    assert(closing@ =~= seq![']']);
    match find_text(key, &closing, prefix.len()) {
        Some(end) => {
            proof {
                lemma_find_from(key@, closing@, prefix@.len() as int);
                assert(key@.subrange(end as int, end + 1)[0] == key@[end as int]);
            }
            read_index(key, prefix.len() + 1, end)
        },
        None => None,
    }
}

/// The indices of the items that the first `n` entries ask for below
/// `prefix`, in order and each once.
pub open spec fn indices_of(vars: Seq<(Seq<char>, Json)>, prefix: Seq<char>, n: nat) -> Seq<usize>
    decreases n,
{
    if n == 0 || n > vars.len() {
        Seq::empty()
    } else {
        let before = indices_of(vars, prefix, (n - 1) as nat);
        match index_under(vars[n - 1].0, prefix) {
            Some(index) => with_number(before, index),
            None => before,
        }
    }
}

/// The lines for the item at `index` of the list at `prefix`, where the
/// entries hold it: its index and the name of its type and, for a
/// mapping, its members.
pub open spec fn item_block(
    vars: Seq<(Seq<char>, Json)>,
    prefix: Seq<char>,
    indent: nat,
    index: usize,
) -> Seq<Seq<char>> {
    let path = item_path(prefix, index as nat);
    match found_in(vars, path, 0) {
        Some(value) => seq![
            indent_text(indent) + "["@ + decimal(index as nat) + "]: "@ + kind_name(value),
        ] + (if value is Object {
            object_lines(vars, path, indent + 1)
        } else {
            Seq::empty()
        }),
        None => Seq::empty(),
    }
}

/// The lines for the items at the first `k` of the indices.
pub open spec fn item_lines(
    vars: Seq<(Seq<char>, Json)>,
    prefix: Seq<char>,
    indent: nat,
    indices: Seq<usize>,
    k: nat,
) -> Seq<Seq<char>>
    decreases k,
{
    if k == 0 || k > indices.len() {
        Seq::empty()
    } else {
        item_lines(vars, prefix, indent, indices, (k - 1) as nat) + item_block(
            vars,
            prefix,
            indent,
            indices[k - 1],
        )
    }
}

/// How many items of a list are shown: the first three.
pub open spec fn shown_count(n: nat) -> nat {
    if n < 3 {
        n
    } else {
        3
    }
}

/// The lines for the items of the list at `prefix`: for the first three
/// indices that follow `prefix` in the paths, the lines of the item, then
/// how many more there are.
pub open spec fn array_lines(vars: Seq<(Seq<char>, Json)>, prefix: Seq<char>, indent: nat) -> Seq<
    Seq<char>,
> {
    let indices = indices_of(vars, prefix, vars.len());
    let shown = shown_count(indices.len());
    item_lines(vars, prefix, indent, indices, shown) + (if indices.len() > shown {
        seq![
            indent_text(indent) + "... and "@ + decimal((indices.len() - shown) as nat)
                + " more element(s)"@,
        ]
    } else {
        Seq::empty()
    })
}

/// The indices of the items that the entries ask for below `prefix`.
fn item_indices(vars: &Vec<(String, &JsonValue)>, prefix: &str) -> (indices: Vec<usize>)
    ensures
        indices@ == indices_of(pairs_of(vars@), prefix@, vars.len() as nat),
        increasing(indices@),
{
    let start = chars_of(prefix);
    let ghost pairs = pairs_of(vars@);
    let mut indices: Vec<usize> = Vec::new();
    let mut i: usize = 0;
    proof {
        assert(indices@ =~= indices_of(pairs, prefix@, 0));
    }
    while i < vars.len()
        invariant
            i <= vars.len(),
            start@ == prefix@,
            pairs == pairs_of(vars@),
            indices@ == indices_of(pairs, prefix@, i as nat),
            increasing(indices@),
        decreases vars.len() - i,
    {
        assert(pairs[i as int] == (vars@[i as int].0@, vars@[i as int].1@));
        let key = chars_of(vars[i].0.as_str());
        if let Some(index) = index_after(&key, &start) {
            insert_index(&mut indices, index);
        }
        i += 1;
    }
    indices
}

/// Adds the lines for the items of the list at `prefix`.
pub fn display_array_elements(
    prefix: &str,
    vars: &Vec<(String, &JsonValue)>,
    indent: usize,
    lines: &mut Vec<String>,
)
    requires
        indent < usize::MAX,
    ensures
        texts_of(final(lines)@) == texts_of(old(lines)@) + array_lines(
            pairs_of(vars@),
            prefix@,
            indent as nat,
        ),
{
    let indices = item_indices(vars, prefix);
    let spaces = indentation(indent);
    let shown: usize = if indices.len() < 3 {
        indices.len()
    } else {
        3
    };
    let ghost pairs = pairs_of(vars@);
    let ghost start = texts_of(lines@);
    let mut k: usize = 0;
    proof {
        assert(texts_of(lines@) =~= start + item_lines(pairs, prefix@, indent as nat, indices@, 0));
    }
    while k < shown
        invariant
            k <= shown <= indices.len(),
            indent < usize::MAX,
            pairs == pairs_of(vars@),
            spaces@ == indent_text(indent as nat),
            texts_of(lines@) == start + item_lines(
                pairs,
                prefix@,
                indent as nat,
                indices@,
                k as nat,
            ),
        decreases shown - k,
    {
        let mut path = String::from_str(prefix);
        path.append("[");
        push_decimal(&mut path, indices[k]);
        path.append("]");
        let ghost so_far = item_lines(pairs, prefix@, indent as nat, indices@, k as nat);
        let ghost block = item_block(pairs, prefix@, indent as nat, indices@[k as int]);
        assert(path@ == item_path(prefix@, indices@[k as int] as nat));
        if let Some(value) = find_entry(vars, path.as_str()) {
            let mut line = String::from_str(spaces.as_str());
            line.append("[");
            push_decimal(&mut line, indices[k]);
            line.append("]: ");
            line.append(get_value_type(value));
            add_line(lines, line);
            if value.is_object() {
                display_object_properties(path.as_str(), vars, indent + 1, lines);
            }
            proof {
                assert(texts_of(lines@) =~= start + (so_far + block));
            }
        } else {
            proof {
                assert(texts_of(lines@) =~= start + (so_far + block));
            }
        }
        k += 1;
    }
    if indices.len() > shown {
        let mut line = String::from_str(spaces.as_str());
        line.append("... and ");
        push_decimal(&mut line, indices.len() - shown);
        line.append(" more element(s)");
        add_line(lines, line);
    }
    proof {
        assert(texts_of(lines@) =~= start + array_lines(pairs, prefix@, indent as nat));
    }
}

/// The lines for the entries among the first `n` whose path starts with
/// `prefix`, each under its whole path.
pub open spec fn nested_lines(
    vars: Seq<(Seq<char>, Json)>,
    prefix: Seq<char>,
    indent: nat,
    n: nat,
) -> Seq<Seq<char>>
    decreases n,
{
    if n == 0 || n > vars.len() {
        Seq::empty()
    } else {
        let before = nested_lines(vars, prefix, indent, (n - 1) as nat);
        if starts_with(vars[n - 1].0, prefix) {
            before.push(variable_text(indent_text(indent), vars[n - 1].0, vars[n - 1].1))
        } else {
            before
        }
    }
}

/// Adds the lines for every entry whose path starts with `prefix`.
pub fn display_nested_properties(
    prefix: &str,
    vars: &Vec<(String, &JsonValue)>,
    indent: usize,
    lines: &mut Vec<String>,
)
    ensures
        texts_of(final(lines)@) == texts_of(old(lines)@) + nested_lines(
            pairs_of(vars@),
            prefix@,
            indent as nat,
            vars.len() as nat,
        ),
{
    let start_chars = chars_of(prefix);
    let spaces = indentation(indent);
    let ghost pairs = pairs_of(vars@);
    let ghost start = texts_of(lines@);
    let mut i: usize = 0;
    proof {
        assert(texts_of(lines@) =~= start + nested_lines(pairs, prefix@, indent as nat, 0));
    }
    while i < vars.len()
        invariant
            i <= vars.len(),
            start_chars@ == prefix@,
            pairs == pairs_of(vars@),
            spaces@ == indent_text(indent as nat),
            texts_of(lines@) == start + nested_lines(pairs, prefix@, indent as nat, i as nat),
        decreases vars.len() - i,
    {
        assert(pairs[i as int] == (vars@[i as int].0@, vars@[i as int].1@));
        let key = chars_of(vars[i].0.as_str());
        let ghost so_far = nested_lines(pairs, prefix@, indent as nat, i as nat);
        if has_prefix(&key, &start_chars) {
            let line = variable_line(spaces.as_str(), vars[i].0.as_str(), vars[i].1);
            add_line(lines, line);
            proof {
                assert(texts_of(lines@) =~= start + so_far.push(line@));
            }
        }
        i += 1;
    }
}

/// What follows the first line for the variables of one root: where the
/// entries hold the root itself, its type and what is inside it, else
/// every entry under the root.
pub open spec fn group_body(vars: Seq<(Seq<char>, Json)>, root: Seq<char>) -> Seq<Seq<char>> {
    match found_in(vars, root, 0) {
        Some(value) => seq!["  Type: "@ + kind_name(value)] + (match value {
            Json::Object(_) => seq!["  Structure: Object with properties"@] + object_lines(
                vars,
                root,
                2,
            ),
            Json::Array(items) => seq![
                "  Structure: Array with "@ + decimal(items.len()) + " element(s)"@,
            ] + (if items.len() > 0 {
                array_lines(vars, root, 2)
            } else {
                Seq::empty()
            }),
            _ => seq!["  Value: "@ + sample_of(value)],
        }),
        None => nested_lines(vars, root, 1, vars.len()),
    }
}

/// The lines for the variables of one root: the root, then what stands
/// under it.
pub open spec fn group_lines(vars: Seq<(Seq<char>, Json)>, root: Seq<char>) -> Seq<Seq<char>> {
    seq![root + ":"@] + group_body(vars, root)
}

/// Adds what follows the first line for the variables of one root.
fn display_group_body(root: &str, vars: &Vec<(String, &JsonValue)>, lines: &mut Vec<String>)
    ensures
        texts_of(final(lines)@) == texts_of(old(lines)@) + group_body(pairs_of(vars@), root@),
{
    let ghost pairs = pairs_of(vars@);
    let ghost start = texts_of(lines@);
    match find_entry(vars, root) {
        Some(value) => {
            add_line(lines, String::from_str("  Type: ").concat(get_value_type(value)));
            match value {
                JsonValue::Object(_) => {
                    add_line(lines, String::from_str("  Structure: Object with properties"));
                    display_object_properties(root, vars, 2, lines);
                },
                JsonValue::Array(items) => {
                    proof {
                        lemma_view_array(*items);
                    }
                    let mut line = String::from_str("  Structure: Array with ");
                    push_decimal(&mut line, items.len());
                    line.append(" element(s)");
                    add_line(lines, line);
                    if items.len() > 0 {
                        display_array_elements(root, vars, 2, lines);
                    }
                },
                _ => {
                    add_line(
                        lines,
                        String::from_str("  Value: ").concat(format_value_sample(value).as_str()),
                    );
                },
            }
            proof {
                assert(texts_of(lines@) =~= start + group_body(pairs, root@));
            }
        },
        None => {
            display_nested_properties(root, vars, 1, lines);
        },
    }
}

/// The lines for the variables of one root.
pub fn display_variable_group(root: &str, vars: &Vec<(String, &JsonValue)>) -> (shown: Vec<String>)
    ensures
        texts_of(shown@) == group_lines(pairs_of(vars@), root@),
{
    let mut shown: Vec<String> = Vec::new();
    add_line(&mut shown, String::from_str(root).concat(":"));
    display_group_body(root, vars, &mut shown);
    proof {
        assert(texts_of(shown@) =~= group_lines(pairs_of(vars@), root@));
    }
    shown
}

/// The roots of the paths of the first `n` entries, in order and each
/// once.
pub open spec fn roots_of(vars: Seq<(Seq<char>, Json)>, n: nat) -> Seq<(Seq<char>, ())>
    decreases n,
{
    if n == 0 || n > vars.len() {
        Seq::empty()
    } else {
        put(roots_of(vars, (n - 1) as nat), root_key(vars[n - 1].0), ())
    }
}

/// The entries among the first `n` whose path has the root `root`, in
/// their order.
pub open spec fn group_of(vars: Seq<(Seq<char>, Json)>, root: Seq<char>, n: nat) -> Seq<
    (Seq<char>, Json),
>
    decreases n,
{
    if n == 0 || n > vars.len() {
        Seq::empty()
    } else {
        let before = group_of(vars, root, (n - 1) as nat);
        if root_key(vars[n - 1].0) == root {
            before.push(vars[n - 1])
        } else {
            before
        }
    }
}

/// The lines for the first `k` of the roots: for each root the lines
/// for its variables, then an empty line.
pub open spec fn groups_lines(
    vars: Seq<(Seq<char>, Json)>,
    roots: Seq<(Seq<char>, ())>,
    k: nat,
) -> Seq<Seq<char>>
    decreases k,
{
    if k == 0 || k > roots.len() {
        Seq::empty()
    } else {
        groups_lines(vars, roots, (k - 1) as nat) + group_lines(
            group_of(vars, roots[k - 1].0, vars.len()),
            roots[k - 1].0,
        ) + seq![Seq::empty()]
    }
}

/// A line of eighty equals signs.
pub open spec fn rule_text() -> Seq<char> {
    Seq::new(80, |i: int| '=')
}

/// The lines above the variables.
pub open spec fn heading(data_source: DataSource) -> Seq<Seq<char>> {
    seq![
        Seq::empty(),
        (match data_source {
            DataSource::Blueprint => "Blueprint"@,
            DataSource::Stack => "Stack"@,
        }) + " Variables"@,
        rule_text(),
        Seq::empty(),
        "Available variables for use in templates:"@,
        Seq::empty(),
    ]
}

/// The lines below the variables: how variables are used in templates.
pub open spec fn usage() -> Seq<Seq<char>> {
    seq![
        rule_text(),
        Seq::empty(),
        "Usage Examples:"@,
        "  {{variable_name}}                    - Simple variable substitution"@,
        "  {{object.property}}                  - Nested property access"@,
        "  {{array[0].property}}                - Array element access"@,
        "  {{variable|default:\"value\"}}         - Default value if undefined"@,
        Seq::empty(),
        "For more information on template syntax, see the documentation."@,
        Seq::empty(),
    ]
}

/// The lines that show the entries of a store: a heading, then for each
/// root of the paths, in the order of the roots, the variables under it,
/// then how variables are used in templates. Without entries there is
/// the heading and a note.
pub open spec fn display_lines(vars: Seq<(Seq<char>, Json)>, data_source: DataSource) -> Seq<
    Seq<char>,
> {
    heading(data_source) + (if vars.len() == 0 {
        seq!["No variables available."@]
    } else {
        let roots = roots_of(vars, vars.len());
        groups_lines(vars, roots, roots.len()) + usage()
    })
}

/// A line of eighty equals signs.
fn rule() -> (r: String)
    ensures
        r@ == rule_text(),
{
    let mut r = String::new();
    let mut i: usize = 0;
    while i < 80
        invariant
            i <= 80,
            r@ == Seq::new(i as nat, |k: int| '='),
        decreases 80 - i,
    {
        r.push('=');
        proof {
            assert(r@ =~= Seq::new((i + 1) as nat, |k: int| '='));
        }
        i += 1;
    }
    r
}

/// The roots of the paths of the entries.
fn root_names(vars: &Vec<(String, &JsonValue)>) -> (roots: Vec<String>)
    ensures
        name_set(roots@) == roots_of(pairs_of(vars@), vars.len() as nat),
        sorted_keys(name_set(roots@)),
{
    let ghost pairs = pairs_of(vars@);
    let mut roots: Vec<String> = Vec::new();
    let mut i: usize = 0;
    proof {
        assert(name_set(roots@) =~= roots_of(pairs, 0));
    }
    while i < vars.len()
        invariant
            i <= vars.len(),
            pairs == pairs_of(vars@),
            name_set(roots@) == roots_of(pairs, i as nat),
            sorted_keys(name_set(roots@)),
        decreases vars.len() - i,
    {
        assert(pairs[i as int] == (vars@[i as int].0@, vars@[i as int].1@));
        insert_name(&mut roots, extract_root_key(vars[i].0.as_str()));
        i += 1;
    }
    roots
}

/// The entries whose path has the root `root`.
fn group_under<'a>(vars: &Vec<(String, &'a JsonValue)>, root: &str) -> (group: Vec<
    (String, &'a JsonValue),
>)
    ensures
        pairs_of(group@) == group_of(pairs_of(vars@), root@, vars.len() as nat),
{
    let ghost pairs = pairs_of(vars@);
    let mut group: Vec<(String, &JsonValue)> = Vec::new();
    let mut j: usize = 0;
    proof {
        assert(pairs_of(group@) =~= group_of(pairs, root@, 0));
    }
    while j < vars.len()
        invariant
            j <= vars.len(),
            pairs == pairs_of(vars@),
            pairs_of(group@) == group_of(pairs, root@, j as nat),
        decreases vars.len() - j,
    {
        assert(pairs[j as int] == (vars@[j as int].0@, vars@[j as int].1@));
        if str_eq(extract_root_key(vars[j].0.as_str()).as_str(), root) {
            let ghost held = pairs_of(group@);
            group.push((vars[j].0.clone(), vars[j].1));
            proof {
                assert(pairs_of(group@) =~= held.push(pairs[j as int]));
            }
        }
        j += 1;
    }
    group
}

/// The lines that show the variables of a store.
pub fn display_variables(context: &VariableContext, data_source: DataSource) -> (lines: Vec<
    String,
>)
    requires
        context.wf(),
    ensures
        texts_of(lines@) == display_lines(context.entries(), data_source),
{
    let source_name = match data_source {
        DataSource::Blueprint => "Blueprint",
        DataSource::Stack => "Stack",
    };
    let mut lines: Vec<String> = Vec::new();
    add_line(&mut lines, String::new());
    add_line(&mut lines, String::from_str(source_name).concat(" Variables"));
    add_line(&mut lines, rule());
    add_line(&mut lines, String::new());
    add_line(&mut lines, String::from_str("Available variables for use in templates:"));
    add_line(&mut lines, String::new());
    proof {
        assert(texts_of(lines@) =~= heading(data_source));
    }
    let all = context.list_all();
    let ghost pairs = pairs_of(all@);
    proof {
        assert(pairs =~= context.entries());
    }
    if all.len() == 0 {
        add_line(&mut lines, String::from_str("No variables available."));
        proof {
            assert(texts_of(lines@) =~= display_lines(pairs, data_source));
        }
        return lines;
    }
    let roots = root_names(&all);
    let ghost set = name_set(roots@);
    let mut k: usize = 0;
    proof {
        assert(texts_of(lines@) =~= heading(data_source) + groups_lines(pairs, set, 0));
    }
    while k < roots.len()
        invariant
            k <= roots.len(),
            pairs == pairs_of(all@),
            set == name_set(roots@),
            texts_of(lines@) == heading(data_source) + groups_lines(pairs, set, k as nat),
        decreases roots.len() - k,
    {
        assert(set[k as int] == (roots@[k as int]@, ()));
        let ghost so_far = groups_lines(pairs, set, k as nat);
        let group = group_under(&all, roots[k].as_str());
        add_line(&mut lines, String::from_str(roots[k].as_str()).concat(":"));
        display_group_body(roots[k].as_str(), &group, &mut lines);
        add_line(&mut lines, String::new());
        proof {
            let block = group_lines(pairs_of(group@), roots@[k as int]@);
            assert(texts_of(lines@) =~= heading(data_source) + (so_far + block + seq![
                Seq::<char>::empty(),
            ]));
        }
        k += 1;
    }
    let ghost groups = groups_lines(pairs, set, roots.len() as nat);
    add_line(&mut lines, rule());
    add_line(&mut lines, String::new());
    add_line(&mut lines, String::from_str("Usage Examples:"));
    add_line(
        &mut lines,
        String::from_str("  {{variable_name}}                    - Simple variable substitution"),
    );
    add_line(
        &mut lines,
        String::from_str("  {{object.property}}                  - Nested property access"),
    );
    add_line(
        &mut lines,
        String::from_str("  {{array[0].property}}                - Array element access"),
    );
    add_line(
        &mut lines,
        String::from_str("  {{variable|default:\"value\"}}         - Default value if undefined"),
    );
    add_line(&mut lines, String::new());
    add_line(
        &mut lines,
        String::from_str("For more information on template syntax, see the documentation."),
    );
    add_line(&mut lines, String::new());
    proof {
        assert(texts_of(lines@) =~= heading(data_source) + groups + usage());
        assert(heading(data_source) + groups + usage() =~= heading(data_source) + (groups
            + usage()));
    }
    lines
}

} // verus!
