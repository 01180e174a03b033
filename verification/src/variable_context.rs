//! The variable space of a run: a store that maps path strings to values.

use vstd::prelude::*;
use crate::nesting::tree_of;
use crate::path::{step_members, step_value, walk};
use crate::text::{chars_of, split_on, split_text};
use crate::value::{
    as_map, copy_pairs, insert_member, lemma_view_object, member, members_view, members_wf, put,
    Json, JsonValue,
};

verus! {

/// The value that `path` resolves to against the mapping `root`: the member
/// of exactly that key if there is one, else the value reached by walking
/// the parts of `path` that dots separate, from `root` down.
pub open spec fn resolve(root: Json, path: Seq<char>) -> Option<Json> {
    match root.field(path) {
        Some(v) => Some(v),
        None => walk(root, split_on(path, seq!['.']), 0),
    }
}

/// A store of variables: a mapping from path strings to values, kept in
/// the order of its paths.
pub struct VariableContext {
    variables: Vec<(String, JsonValue)>,
}

impl View for VariableContext {
    type V = Map<Seq<char>, Json>;

    /// The store as a map from path to value.
    open spec fn view(&self) -> Map<Seq<char>, Json> {
        as_map(self.entries())
    }
}

impl VariableContext {
    /// The (path, value) pairs of the store, in the order it keeps them.
    pub closed spec fn entries(&self) -> Seq<(Seq<char>, Json)> {
        members_view(self.variables@)
    }

    /// The paths strictly increase and every value is well formed.
    pub open spec fn wf(&self) -> bool {
        members_wf(self.entries())
    }

    /// The store as one mapping value, from its paths to its values.
    pub open spec fn root(&self) -> Json {
        Json::Object(self.entries())
    }

    /// The store as one tree, in which each value also stands where its
    /// path leads. This is what templates are rendered against.
    pub open spec fn tree(&self) -> Json {
        tree_of(self.entries())
    }

    /// The empty store.
    pub fn new() -> (r: VariableContext)
        ensures
            r.wf(),
            r.entries() == Seq::<(Seq<char>, Json)>::empty(),
            r@ == Map::<Seq<char>, Json>::empty(),
    {
        let r = VariableContext { variables: Vec::new() };
        proof {
            assert(r.entries() =~= Seq::empty());
            assert(r@ =~= Map::empty());
        }
        r
    }

    /// Puts `value` under `key`, in place of what was there.
    pub fn insert(&mut self, key: String, value: JsonValue)
        requires
            old(self).wf(),
            value@.wf(),
        ensures
            final(self).wf(),
            final(self)@ == old(self)@.insert(key@, value@),
            final(self).entries() == put(old(self).entries(), key@, value@),
    {
        insert_member(&mut self.variables, key, value);
    }

    /// Whether the store holds a value under exactly `key`.
    pub fn contains_key(&self, key: &str) -> (r: bool)
        requires
            self.wf(),
        ensures
            r == self@.contains_key(key@),
    {
        member(&self.variables, key).is_some()
    }

    /// The value that `path` resolves to, if any. A path that names
    /// nothing, or whose index is malformed or out of range, resolves to
    /// nothing.
    pub fn get(&self, path: &str) -> (r: Option<&JsonValue>)
        requires
            self.wf(),
        ensures
            match r {
                Some(v) => resolve(self.root(), path@) == Some(v@) && v@.wf(),
                None => resolve(self.root(), path@) is None,
            },
    {
        if let Some(v) = member(&self.variables, path) {
            return Some(v);
        }
        let chars = chars_of(path);
        let dot: Vec<char> = vec!['.'];
        assert(dot@ =~= seq!['.']);
        let parts = split_text(&chars, &dot);
        let ghost texts = split_on(path@, seq!['.']);
        let mut current: &JsonValue = match step_members(&self.variables, &parts[0]) {
            Some(v) => v,
            None => {
                return None;
            },
        };
        let mut i: usize = 1;
        while i < parts.len()
            invariant
                1 <= i <= parts.len(),
                current@.wf(),
                texts.len() == parts.len(),
                forall|j: int| 0 <= j < parts.len() ==> (#[trigger] parts@[j])@ == texts[j],
                walk(self.root(), texts, 0) == walk(current@, texts, i as int),
                resolve(self.root(), path@) == walk(self.root(), texts, 0),
            decreases parts.len() - i,
        {
            current = match step_value(current, &parts[i]) {
                Some(v) => v,
                None => {
                    return None;
                },
            };
            i += 1;
        }
        Some(current)
    }

    /// Every (path, value) pair of the store, ordered by path.
    pub fn list_all(&self) -> (r: Vec<(String, &JsonValue)>)
        requires
            self.wf(),
        ensures
            r.len() == self.entries().len(),
            forall|i: int|
                0 <= i < r.len() ==> (#[trigger] r@[i]).0@ == self.entries()[i].0 && r@[i].1@
                    == self.entries()[i].1,
    {
        let mut r: Vec<(String, &JsonValue)> = Vec::new();
        let mut i: usize = 0;
        while i < self.variables.len()
            invariant
                i <= self.variables.len(),
                r.len() == i,
                forall|j: int|
                    0 <= j < i ==> (#[trigger] r@[j]).0@ == self.entries()[j].0 && r@[j].1@
                        == self.entries()[j].1,
            decreases self.variables.len() - i,
        {
            r.push((self.variables[i].0.clone(), &self.variables[i].1));
            i += 1;
        }
        r
    }

    /// The number of paths that the store holds.
    pub fn len(&self) -> (r: usize)
        ensures
            r == self.entries().len(),
    {
        self.variables.len()
    }

    /// Whether the store holds nothing.
    pub fn is_empty(&self) -> (r: bool)
        ensures
            r == (self.entries().len() == 0),
    {
        self.variables.len() == 0
    }

    /// The paths that the store holds, in order.
    pub fn paths(&self) -> (r: Vec<String>)
        ensures
            r.len() == self.entries().len(),
            forall|i: int| 0 <= i < r.len() ==> (#[trigger] r@[i])@ == self.entries()[i].0,
    {
        let mut r: Vec<String> = Vec::new();
        let mut i: usize = 0;
        while i < self.variables.len()
            invariant
                i <= self.variables.len(),
                r.len() == i,
                forall|j: int| 0 <= j < i ==> (#[trigger] r@[j])@ == self.entries()[j].0,
            decreases self.variables.len() - i,
        {
            r.push(self.variables[i].0.clone());
            i += 1;
        }
        r
    }

    /// The store as one mapping value.
    pub fn as_value(&self) -> (r: JsonValue)
        ensures
            r@ == self.root(),
    {
        let members = copy_pairs(&self.variables);
        proof {
            lemma_view_object(members);
        }
        JsonValue::Object(members)
    }

    /// The (path, value) pairs that the store holds, ordered by path.
    pub fn variables(&self) -> (r: &Vec<(String, JsonValue)>)
        ensures
            members_view(r@) == self.entries(),
    {
        &self.variables
    }
}

impl Default for VariableContext {
    /// The empty store.
    fn default() -> (r: VariableContext)
        ensures
            r.wf(),
            r@ == Map::<Seq<char>, Json>::empty(),
    {
        VariableContext::new()
    }
}

} // verus!
