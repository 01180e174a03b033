//! Suggestions for a name that resolved to nothing: the known names that
//! look like it.

use vstd::prelude::*;
use vstd::string::StringExecFns;
use crate::text::{chars_of, contains_text, find_text, matches_here};

verus! {

/// The least of three numbers.
pub open spec fn min3(a: int, b: int, c: int) -> int {
    if a <= b && a <= c {
        a
    } else if b <= c {
        b
    } else {
        c
    }
}

/// The edit distance of two texts: the least number of characters to
/// insert, delete or replace that turns one into the other.
pub open spec fn edit_distance(a: Seq<char>, b: Seq<char>) -> nat
    decreases a.len() + b.len(),
{
    if a.len() == 0 {
        b.len()
    } else if b.len() == 0 {
        a.len()
    } else {
        let cost: int = if a.last() == b.last() {
            0
        } else {
            1
        };
        min3(
            edit_distance(a.drop_last(), b) as int + 1,
            edit_distance(a, b.drop_last()) as int + 1,
            edit_distance(a.drop_last(), b.drop_last()) as int + cost,
        ) as nat
    }
}

/// The edit distance is at most the length of the longer text.
pub proof fn lemma_edit_distance_bound(a: Seq<char>, b: Seq<char>)
    ensures
        edit_distance(a, b) <= a.len() || edit_distance(a, b) <= b.len(),
        a.len() >= b.len() ==> edit_distance(a, b) <= a.len(),
        b.len() >= a.len() ==> edit_distance(a, b) <= b.len(),
    decreases a.len() + b.len(),
{
    if a.len() > 0 && b.len() > 0 {
        lemma_edit_distance_bound(a.drop_last(), b.drop_last());
    }
}

/// The edit distance of two texts, by the table of the distances of their
/// prefixes, filled row by row.
pub fn levenshtein_distance(s1: &str, s2: &str) -> (r: usize)
    ensures
        r == edit_distance(s1@, s2@),
{
    let a = chars_of(s1);
    let b = chars_of(s2);
    if a.len() == 0 {
        return b.len();
    }
    if b.len() == 0 {
        return a.len();
    }
    // the row for the empty prefix of `a`
    let mut previous: Vec<u128> = Vec::new();
    let mut j: usize = 0;
    previous.push(0);
    assert(b@.take(0).len() == 0);
    while j < b.len()
        invariant
            j <= b.len(),
            previous.len() == j + 1,
            forall|k: int|
                0 <= k <= j ==> #[trigger] previous@[k] == edit_distance(a@.take(0), b@.take(k)),
        decreases b.len() - j,
    {
        j += 1;
        previous.push(j as u128);
        assert(a@.take(0).len() == 0);
    }
    let mut i: usize = 0;
    while i < a.len()
        invariant
            i <= a.len(),
            previous.len() == b.len() + 1,
            forall|k: int|
                0 <= k <= b.len() ==> #[trigger] previous@[k] == edit_distance(
                    a@.take(i as int),
                    b@.take(k),
                ),
        decreases a.len() - i,
    {
        let ghost top = a@.take(i as int);
        let ghost row = a@.take(i + 1);
        let mut current: Vec<u128> = Vec::new();
        current.push((i + 1) as u128);
        proof {
            assert(b@.take(0).len() == 0);
            assert(row.drop_last() =~= top);
        }
        let mut j: usize = 0;
        while j < b.len()
            invariant
                j <= b.len(),
                i < a.len(),
                top == a@.take(i as int),
                row == a@.take(i + 1),
                previous.len() == b.len() + 1,
                current.len() == j + 1,
                forall|k: int|
                    0 <= k <= b.len() ==> #[trigger] previous@[k] == edit_distance(top, b@.take(k)),
                forall|k: int|
                    0 <= k <= j ==> #[trigger] current@[k] == edit_distance(row, b@.take(k)),
            decreases b.len() - j,
        {
            let cost: u128 = if a[i] == b[j] {
                0
            } else {
                1
            };
            proof {
                let left = b@.take(j as int);
                let here = b@.take(j + 1);
                assert(here.drop_last() =~= left);
                assert(row.drop_last() =~= top);
                assert(row.last() == a@[i as int]);
                assert(here.last() == b@[j as int]);
                lemma_edit_distance_bound(top, here);
                lemma_edit_distance_bound(row, left);
                lemma_edit_distance_bound(top, left);
                assert(previous@[j + 1] == edit_distance(top, here));
                assert(current@[j as int] == edit_distance(row, left));
                assert(previous@[j as int] == edit_distance(top, left));
            }
            let deletion: u128 = previous[j + 1] + 1;
            let insertion: u128 = current[j] + 1;
            let substitution: u128 = previous[j] + cost;
            let mut least: u128 = deletion;
            if insertion < least {
                least = insertion;
            }
            if substitution < least {
                least = substitution;
            }
            current.push(least);
            j += 1;
        }
        previous = current;
        i += 1;
    }
    proof {
        assert(a@.take(a@.len() as int) =~= a@);
        assert(b@.take(b@.len() as int) =~= b@);
        lemma_edit_distance_bound(a@, b@);
        assert(previous@[b@.len() as int] == edit_distance(a@, b@));
    }
    previous[b.len()] as usize
}

/// Whether a known name looks like the name that was searched for: they
/// are the same, one stands inside the other, both are three characters
/// or longer and start with the same three, or their edit distance is two
/// or less.
pub open spec fn similar(search: Seq<char>, candidate: Seq<char>) -> bool {
    ||| search == candidate
    ||| contains_text(candidate, search)
    ||| contains_text(search, candidate)
    ||| (search.len() >= 3 && candidate.len() >= 3 && search.take(3) == candidate.take(3))
    ||| edit_distance(search, candidate) <= 2
}

/// Whether `candidate` looks like `search`.
pub fn is_similar(search: &str, candidate: &str) -> (r: bool)
    ensures
        r == similar(search@, candidate@),
{
    let s = chars_of(search);
    let c = chars_of(candidate);
    if s.len() == c.len() && matches_here(&s, &c, 0) {
        proof {
            assert(s@.subrange(0, c@.len() as int) =~= s@);
        }
        return true;
    }
    proof {
        if s@ == c@ {
            assert(s@.subrange(0, c@.len() as int) =~= s@);
        }
    }
    if find_text(&c, &s, 0).is_some() || find_text(&s, &c, 0).is_some() {
        return true;
    }
    if s.len() >= 3 && c.len() >= 3 && s[0] == c[0] && s[1] == c[1] && s[2] == c[2] {
        assert(s@.take(3) =~= c@.take(3));
        return true;
    }
    proof {
        if s@.len() >= 3 && c@.len() >= 3 && s@.take(3) == c@.take(3) {
            assert(s@.take(3)[0] == s@[0] && s@.take(3)[1] == s@[1] && s@.take(3)[2] == s@[2]);
            assert(c@.take(3)[0] == c@[0] && c@.take(3)[1] == c@[1] && c@.take(3)[2] == c@[2]);
        }
    }
    levenshtein_distance(search, candidate) <= 2
}

/// The names among the first `n` of `names` that look like `search`, in
/// their order.
pub open spec fn matching(names: Seq<Seq<char>>, search: Seq<char>, n: nat) -> Seq<Seq<char>>
    decreases n,
{
    if n == 0 || n > names.len() {
        Seq::empty()
    } else {
        let before = matching(names, search, (n - 1) as nat);
        if similar(search, names[n - 1]) {
            before.push(names[n - 1])
        } else {
            before
        }
    }
}

/// The first five of the names that look like `search`, or all of them
/// where they are fewer.
pub open spec fn shortlist(names: Seq<Seq<char>>, search: Seq<char>) -> Seq<Seq<char>> {
    let all = matching(names, search, names.len());
    if all.len() > 5 {
        all.take(5)
    } else {
        all
    }
}

/// The first ten of the names, or all of them where they are fewer.
pub open spec fn sample(names: Seq<Seq<char>>) -> Seq<Seq<char>> {
    if names.len() > 10 {
        names.take(10)
    } else {
        names
    }
}

/// The names as a list, one to a line, each after two spaces and a dash.
pub open spec fn bullets(names: Seq<Seq<char>>) -> Seq<char>
    decreases names.len(),
{
    if names.len() == 0 {
        Seq::empty()
    } else if names.len() == 1 {
        "  - "@ + names[0]
    } else {
        bullets(names.drop_last()) + "\n"@ + "  - "@ + names.last()
    }
}

/// What is suggested for the name `search` that resolved to nothing, given
/// the known names in the order of the store: the names that look like it,
/// five at most; a sample of the known names where none looks like it; a
/// note where no name is known.
pub open spec fn suggestion_text(names: Seq<Seq<char>>, search: Seq<char>) -> Seq<char> {
    if names.len() == 0 {
        "No variables are available in the current context.\nUse the 'list-variables' command to see what variables are available."@
    } else if shortlist(names, search).len() == 0 {
        "Did you mean one of these variables?\n"@ + bullets(sample(names))
            + "\n\nUse the 'list-variables' command to see all available variables."@
    } else {
        "Did you mean one of these?\n"@ + bullets(shortlist(names, search))
    }
}

/// The texts of `names`.
pub open spec fn names_view(names: Seq<String>) -> Seq<Seq<char>> {
    Seq::new(names.len(), |i: int| names[i]@)
}

/// The names that match among the first `n` open the list of those that
/// match among the first `m`, for `n` up to `m`.
pub proof fn lemma_matching_prefix(names: Seq<Seq<char>>, search: Seq<char>, n: nat, m: nat)
    requires
        n <= m <= names.len(),
    ensures
        matching(names, search, n).len() <= matching(names, search, m).len(),
        matching(names, search, m).take(matching(names, search, n).len() as int) == matching(
            names,
            search,
            n,
        ),
    decreases m,
{
    let short = matching(names, search, n);
    if n == m {
        assert(short.take(short.len() as int) =~= short);
    } else {
        lemma_matching_prefix(names, search, n, (m - 1) as nat);
        let before = matching(names, search, (m - 1) as nat);
        assert(matching(names, search, m).take(short.len() as int) =~= before.take(
            short.len() as int,
        ));
    }
}

/// The names as a list, one to a line.
pub fn bullet_list(names: &Vec<String>, count: usize) -> (r: String)
    requires
        count <= names.len(),
    ensures
        r@ == bullets(names_view(names@).take(count as int)),
{
    let mut r = String::new();
    let mut i: usize = 0;
    let ghost all = names_view(names@);
    proof {
        assert(all.take(0) =~= Seq::empty());
    }
    while i < count
        invariant
            i <= count <= names.len(),
            all == names_view(names@),
            r@ == bullets(all.take(i as int)),
        decreases count - i,
    {
        proof {
            let next = all.take(i + 1);
            assert(next.drop_last() =~= all.take(i as int));
            assert(next.last() == names@[i as int]@);
            if i == 0 {
                assert(Seq::<char>::empty() + "  - "@ + names@[0]@ =~= "  - "@ + next[0]);
            }
        }
        if i > 0 {
            r.append("\n");
        }
        r.append("  - ");
        r.append(names[i].as_str());
        i += 1;
    }
    r
}

/// What is suggested for the name `search`, given the known names in the
/// order of the store.
pub fn suggest(names: &Vec<String>, search: &str) -> (r: String)
    ensures
        r@ == suggestion_text(names_view(names@), search@),
{
    if names.len() == 0 {
        return String::from_str(
            "No variables are available in the current context.\nUse the 'list-variables' command to see what variables are available.",
        );
    }
    let ghost all = names_view(names@);
    let mut found: Vec<String> = Vec::new();
    let mut i: usize = 0;
    proof {
        assert(names_view(found@) =~= matching(all, search@, 0));
    }
    while i < names.len() && found.len() < 5
        invariant
            i <= names.len(),
            all == names_view(names@),
            found.len() <= 5,
            names_view(found@) == matching(all, search@, i as nat),
        decreases names.len() - i,
    {
        let ghost before = names_view(found@);
        if is_similar(search, names[i].as_str()) {
            found.push(names[i].clone());
            proof {
                assert(names_view(found@) =~= before.push(names@[i as int]@));
            }
        }
        i += 1;
    }
    proof {
        lemma_matching_prefix(all, search@, i as nat, names@.len());
        let full = matching(all, search@, names@.len());
        if found.len() == 5 {
            assert(full.take(5) == names_view(found@));
            if full.len() == 5 {
                assert(full.take(5) =~= full);
            }
        } else {
            assert(full.take(full.len() as int) =~= full);
        }
        assert(names_view(found@) == shortlist(all, search@));
        assert(names_view(found@).take(found@.len() as int) =~= names_view(found@));
    }
    if found.len() == 0 {
        let count: usize = if names.len() > 10 {
            10
        } else {
            names.len()
        };
        proof {
            assert(all.take(all.len() as int) =~= all);
        }
        let mut r = String::from_str("Did you mean one of these variables?\n");
        r.append(bullet_list(names, count).as_str());
        r.append("\n\nUse the 'list-variables' command to see all available variables.");
        r
    } else {
        let mut r = String::from_str("Did you mean one of these?\n");
        r.append(bullet_list(&found, found.len()).as_str());
        r
    }
}

/// `b` is `a` after one edit: one character deleted, inserted or replaced.
pub open spec fn one_edit(a: Seq<char>, b: Seq<char>) -> bool {
    ||| exists|i: int| 0 <= i < a.len() && b == #[trigger] a.remove(i)
    ||| exists|i: int, c: char| 0 <= i <= a.len() && b == #[trigger] a.insert(i, c)
    ||| exists|i: int, c: char| 0 <= i < a.len() && b == #[trigger] a.update(i, c)
}

/// A text has distance zero from itself.
pub proof fn lemma_edit_distance_same(a: Seq<char>)
    ensures
        edit_distance(a, a) == 0,
    decreases a.len(),
{
    if a.len() > 0 {
        lemma_edit_distance_same(a.drop_last());
    }
}

/// A common ending does not add to the distance.
pub proof fn lemma_edit_distance_suffix(a: Seq<char>, b: Seq<char>, end: Seq<char>)
    ensures
        edit_distance(a + end, b + end) <= edit_distance(a, b),
    decreases end.len(),
{
    if end.len() == 0 {
        assert(a + end =~= a);
        assert(b + end =~= b);
    } else {
        let shorter = end.drop_last();
        lemma_edit_distance_suffix(a, b, shorter);
        assert((a + end).drop_last() =~= a + shorter);
        assert((b + end).drop_last() =~= b + shorter);
        assert((a + end).last() == (b + end).last());
    }
}

/// One edit makes an edit distance of one at most.
pub proof fn lemma_one_edit_distance(a: Seq<char>, b: Seq<char>)
    requires
        one_edit(a, b),
    ensures
        edit_distance(a, b) <= 1,
{
    if exists|i: int| 0 <= i < a.len() && b == #[trigger] a.remove(i) {
        let i = choose|i: int| 0 <= i < a.len() && b == #[trigger] a.remove(i);
        let front = a.take(i);
        let end = a.skip(i + 1);
        assert(a =~= front.push(a[i]) + end);
        assert(b =~= front + end);
        lemma_edit_distance_suffix(front.push(a[i]), front, end);
        lemma_edit_distance_same(front);
        assert(front.push(a[i]).drop_last() =~= front);
    } else if exists|i: int, c: char| 0 <= i <= a.len() && b == #[trigger] a.insert(i, c) {
        let (i, c) = choose|i: int, c: char| 0 <= i <= a.len() && b == #[trigger] a.insert(i, c);
        let front = a.take(i);
        let end = a.skip(i);
        assert(a =~= front + end);
        assert(b =~= front.push(c) + end);
        lemma_edit_distance_suffix(front, front.push(c), end);
        lemma_edit_distance_same(front);
        assert(front.push(c).drop_last() =~= front);
    } else {
        let (i, c) = choose|i: int, c: char| 0 <= i < a.len() && b == #[trigger] a.update(i, c);
        let front = a.take(i);
        let end = a.skip(i + 1);
        assert(a =~= front.push(a[i]) + end);
        assert(b =~= front.push(c) + end);
        lemma_edit_distance_suffix(front.push(a[i]), front.push(c), end);
        lemma_edit_distance_same(front);
        assert(front.push(a[i]).drop_last() =~= front);
        assert(front.push(c).drop_last() =~= front);
    }
}

/// The relevance law. Let a known name be one edit away from the name
/// that was searched for, and let fewer than five names that look like
/// the searched one stand before it in the order of the store. Then it is
/// among the names suggested, which are five at most.
pub proof fn lemma_suggestion_relevance(names: Seq<Seq<char>>, search: Seq<char>, at: int)
    requires
        0 <= at < names.len(),
        one_edit(names[at], search) || one_edit(search, names[at]),
        matching(names, search, at as nat).len() < 5,
    ensures
        shortlist(names, search).contains(names[at]),
        shortlist(names, search).len() <= 5,
{
    lemma_edit_distance_symmetric(search, names[at]);
    if one_edit(names[at], search) {
        lemma_one_edit_distance(names[at], search);
    } else {
        lemma_one_edit_distance(search, names[at]);
    }
    assert(similar(search, names[at]));
    let before = matching(names, search, at as nat);
    let with = matching(names, search, (at + 1) as nat);
    assert(with == before.push(names[at]));
    lemma_matching_prefix(names, search, (at + 1) as nat, names.len());
    let all = matching(names, search, names.len());
    assert(all.take(with.len() as int)[before.len() as int] == names[at]);
    assert(shortlist(names, search)[before.len() as int] == names[at]);
}

/// The edit distance is the same both ways.
pub proof fn lemma_edit_distance_symmetric(a: Seq<char>, b: Seq<char>)
    ensures
        edit_distance(a, b) == edit_distance(b, a),
    decreases a.len() + b.len(),
{
    if a.len() > 0 && b.len() > 0 {
        lemma_edit_distance_symmetric(a.drop_last(), b);
        lemma_edit_distance_symmetric(a, b.drop_last());
        lemma_edit_distance_symmetric(a.drop_last(), b.drop_last());
    }
}

} // verus!
