//! Small helpers on strings and lists of strings.

use vstd::prelude::*;
use vstd::seq_lib::seq_to_set_is_finite;
use vstd::set_lib::lemma_len_subset;

verus! {

/// The views of a list of strings, in order.
pub open spec fn string_views(strings: Seq<String>) -> Seq<Seq<char>> {
    strings.map_values(|s: String| s@)
}

/// The view of an optional string.
pub open spec fn option_view(s: Option<String>) -> Option<Seq<char>> {
    match s {
        Some(text) => Some(text@),
        None => None,
    }
}

/// Whether `list` holds a string equal to `s`.
pub fn list_contains(list: &Vec<String>, s: &String) -> (found: bool)
    ensures
        found == string_views(list@).contains(s@),
{
    let mut i: usize = 0;
    while i < list.len()
        invariant
            i <= list.len(),
            forall|j: int| 0 <= j < i ==> string_views(list@)[j] != s@,
        decreases list.len() - i,
    {
        if list[i] == *s {
            assert(string_views(list@)[i as int] == s@);
            return true;
        }
        i = i + 1;
    }
    false
}

/// A copy of an optional string.
pub fn clone_option(s: &Option<String>) -> (copy: Option<String>)
    ensures
        copy == *s,
{
    match s {
        Some(text) => Some(text.clone()),
        None => None,
    }
}

/// A list without repetition, drawn from `pool`, is no longer than `pool`.
pub proof fn lemma_distinct_within<A>(list: Seq<A>, pool: Seq<A>)
    requires
        list.no_duplicates(),
        forall|j: int| 0 <= j < list.len() ==> pool.contains(#[trigger] list[j]),
    ensures
        list.len() <= pool.len(),
{
    list.unique_seq_to_set();
    pool.lemma_cardinality_of_set();
    assert(list.to_set().subset_of(pool.to_set())) by {
        assert forall|x: A| list.to_set().contains(x) implies pool.to_set().contains(x) by {
            let j = choose|j: int| 0 <= j < list.len() && list[j] == x;
            assert(pool.contains(list[j]));
        }
    }
    seq_to_set_is_finite(pool);
    lemma_len_subset(list.to_set(), pool.to_set());
}

} // verus!
