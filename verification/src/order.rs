//! The order of texts, and lists kept in that order.

use crate::text::chars_of;
use vstd::prelude::*;

verus! {

/// `left` comes before `right` or equals it, character by character.
pub open spec fn not_after(left: Seq<char>, right: Seq<char>) -> bool
    decreases left.len(),
{
    if left.len() == 0 {
        true
    } else if right.len() == 0 {
        false
    } else if left[0] == right[0] {
        not_after(left.skip(1), right.skip(1))
    } else {
        left[0] < right[0]
    }
}

/// The texts are in order.
pub open spec fn ascending(texts: Seq<Seq<char>>) -> bool {
    forall|i: int, j: int|
        0 <= i < j < texts.len() ==> not_after(#[trigger] texts[i], #[trigger] texts[j])
}

proof fn lemma_total(left: Seq<char>, right: Seq<char>)
    ensures
        not_after(left, right) || not_after(right, left),
    decreases left.len(),
{
    if left.len() > 0 && right.len() > 0 && left[0] == right[0] {
        lemma_total(left.skip(1), right.skip(1));
    }
}

proof fn lemma_transitive(first: Seq<char>, second: Seq<char>, third: Seq<char>)
    requires
        not_after(first, second),
        not_after(second, third),
    ensures
        not_after(first, third),
    decreases first.len(),
{
    if first.len() > 0 && second.len() > 0 && third.len() > 0 && first[0] == second[0] && second[0]
        == third[0] {
        lemma_transitive(first.skip(1), second.skip(1), third.skip(1));
    }
}

/// Whether `left` comes before `right` or equals it.
pub fn is_not_after(left: &str, right: &str) -> (ordered: bool)
    ensures
        ordered == not_after(left@, right@),
{
    let a: Vec<char> = chars_of(left);
    let b: Vec<char> = chars_of(right);
    let mut i: usize = 0;
    assert(left@.skip(0) =~= left@);
    assert(right@.skip(0) =~= right@);
    while i < a.len() && i < b.len()
        invariant
            a@ == left@,
            b@ == right@,
            i <= a@.len(),
            i <= b@.len(),
            not_after(left@, right@) == not_after(left@.skip(i as int), right@.skip(i as int)),
        decreases a@.len() - i,
    {
        if a[i] != b[i] {
            return a[i] < b[i];
        }
        assert(left@.skip(i as int).skip(1) =~= left@.skip(i + 1));
        assert(right@.skip(i as int).skip(1) =~= right@.skip(i + 1));
        i = i + 1;
    }
    i == a.len()
}

/// Puts `name` into its place in a list that is in order.
pub fn insert_name(names: &mut Vec<String>, name: String)
    requires
        ascending(crate::text::texts(old(names)@)),
    ensures
        ascending(crate::text::texts(final(names)@)),
        crate::text::texts(final(names)@).to_multiset() == crate::text::texts(
            old(names)@,
        ).to_multiset().insert(name@),
{
    let ghost before = crate::text::texts(names@);
    let mut at: usize = 0;
    while at < names.len() && is_not_after(names[at].as_str(), name.as_str())
        invariant
            before == crate::text::texts(names@),
            at <= names@.len(),
            forall|i: int| 0 <= i < at ==> not_after(#[trigger] before[i], name@),
        decreases names@.len() - at,
    {
        at = at + 1;
    }
    let ghost text = name@;
    names.insert(at, name);
    let ghost after = crate::text::texts(names@);
    proof {
        assert(after =~= before.insert(at as int, text));
        before.to_multiset_ensures();
        lemma_insert_multiset(before, at as int, text);
        assert forall|i: int, j: int| 0 <= i < j < after.len() implies not_after(
            #[trigger] after[i],
            #[trigger] after[j],
        ) by {
            if at < before.len() {
                lemma_total(before[at as int], text);
            }
            if i == at {
                if j > at + 1 {
                    assert(not_after(before[at as int], before[j - 1]));
                    lemma_transitive(text, before[at as int], before[j - 1]);
                }
            } else if j == at {
                assert(after[i] == before[i]);
            } else {
                let from = if i < at {
                    i
                } else {
                    i - 1
                };
                let to = if j < at {
                    j
                } else {
                    j - 1
                };
                assert(after[i] == before[from] && after[j] == before[to]);
            }
        }
    }
}

proof fn lemma_insert_multiset(texts: Seq<Seq<char>>, at: int, text: Seq<char>)
    requires
        0 <= at <= texts.len(),
    ensures
        texts.insert(at, text).to_multiset() == texts.to_multiset().insert(text),
{
    texts.insert(at, text).to_multiset_ensures();
    assert(texts.insert(at, text).remove(at) =~= texts);
    assert(texts.to_multiset().insert(text) =~= texts.insert(at, text).to_multiset());
}

} // verus!
