//! What strings and lists of strings hold, as sequences of characters.
use vstd::prelude::*;

verus! {

/// The contents of a list of strings.
pub open spec fn views(list: Seq<String>) -> Seq<Seq<char>> {
    list.map_values(|s: String| s@)
}

/// Appending a string appends its contents.
pub broadcast proof fn lemma_views_push(list: Seq<String>, s: String)
    ensures
        #[trigger] views(list.push(s)) == views(list).push(s@),
{
    assert(views(list.push(s)) =~= views(list).push(s@));
}

/// The contents of an optional string.
pub open spec fn view_option(value: Option<String>) -> Option<Seq<char>> {
    match value {
        Some(s) => Some(s@),
        None => None,
    }
}

/// The contents of an optional pair of strings.
pub open spec fn view_pair(value: Option<(String, String)>) -> Option<(Seq<char>, Seq<char>)> {
    match value {
        Some((a, b)) => Some((a@, b@)),
        None => None,
    }
}

/// The contents of an optional list of strings.
pub open spec fn view_list(value: Option<Vec<String>>) -> Option<Seq<Seq<char>>> {
    match value {
        Some(list) => Some(views(list@)),
        None => None,
    }
}

/// The positions held by a list of indices.
pub open spec fn positions(list: Seq<usize>) -> Seq<int> {
    list.map_values(|i: usize| i as int)
}

/// Appending an index appends its position.
pub broadcast proof fn lemma_positions_push(list: Seq<usize>, i: usize)
    ensures
        #[trigger] positions(list.push(i)) == positions(list).push(i as int),
{
    assert(positions(list.push(i)) =~= positions(list).push(i as int));
}

/// An empty list holds no contents.
pub broadcast proof fn lemma_views_empty()
    ensures
        #[trigger] views(Seq::empty()) == Seq::<Seq<char>>::empty(),
{
    assert(views(Seq::empty()) =~= Seq::<Seq<char>>::empty());
}

/// An empty list of indices holds no position.
pub broadcast proof fn lemma_positions_empty()
    ensures
        #[trigger] positions(Seq::empty()) == Seq::<int>::empty(),
{
    assert(positions(Seq::empty()) =~= Seq::<int>::empty());
}

/// What lists of strings and of indices hold when they are empty and when one is appended to.
pub broadcast group group_contents {
    lemma_views_empty,
    lemma_positions_empty,
    lemma_views_push,
    lemma_positions_push,
}

/// The optional position as a mathematical integer.
pub open spec fn view_position(value: Option<usize>) -> Option<int> {
    match value {
        Some(i) => Some(i as int),
        None => None,
    }
}

} // verus!
