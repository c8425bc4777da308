//! Names of entries in catalogues.
use vstd::prelude::*;
use crate::text;

verus! {

/// The name holds more than white space, and no control character.
pub open spec fn spec_is_usable_id(id: Seq<char>) -> bool {
    &&& text::spec_trim(id).len() > 0
    &&& forall|i: int| 0 <= i < id.len() ==> !text::spec_is_control(#[trigger] id[i])
}

/// Whether the name holds more than white space, and no control character.
pub fn is_usable_id(id: &str) -> (r: bool)
    ensures
        r == spec_is_usable_id(id@),
{
    if text::char_count(&text::trim(id)) == 0 {
        return false;
    }
    let chars: Vec<char> = text::to_chars(id);
    let mut i: usize = 0;
    while i < chars.len()
        invariant
            chars@ == id@,
            i <= chars@.len(),
            forall|j: int| 0 <= j < i ==> !text::spec_is_control(#[trigger] id@[j]),
        decreases chars@.len() - i,
    {
        if text::is_control(chars[i]) {
            assert(text::spec_is_control(id@[i as int]));
            return false;
        }
        i = i + 1;
    }
    true
}

/// The first of the names from a position on that cannot be used.
pub open spec fn spec_first_unusable(ids: Seq<Seq<char>>, i: int) -> Option<Seq<char>>
    decreases ids.len() - i,
{
    if i >= ids.len() {
        None
    } else if !spec_is_usable_id(ids[i]) {
        Some(ids[i])
    } else {
        spec_first_unusable(ids, i + 1)
    }
}

/// A name can be used where it holds a character that is no white space, and no control character:
/// none up to `U+001F`, and none from `U+007F` to `U+009F`.
pub proof fn usable_names(id: Seq<char>)
    ensures
        spec_is_usable_id(id) <==> {
            &&& exists|i: int| 0 <= i < id.len() && !text::spec_is_whitespace(#[trigger] id[i])
            &&& forall|i: int|
                0 <= i < id.len() ==> '\u{20}' <= #[trigger] id[i] <= '\u{7e}' || id[i] >= '\u{a0}'
        },
{
    text::texts_with_more_than_white_space(id);
    if spec_is_usable_id(id) {
        assert forall|i: int| 0 <= i < id.len() implies '\u{20}' <= #[trigger] id[i] <= '\u{7e}'
            || id[i] >= '\u{a0}' by {
            assert(!text::spec_is_control(id[i]));
        }
    }
}

/// No name is found from a position on where all of them can be used, and only there.
pub proof fn names_are_all_usable(ids: Seq<Seq<char>>, i: int)
    requires
        0 <= i,
    ensures
        spec_first_unusable(ids, i) is None <==> forall|k: int|
            i <= k < ids.len() ==> spec_is_usable_id(#[trigger] ids[k]),
    decreases ids.len() - i,
{
    if i < ids.len() {
        names_are_all_usable(ids, i + 1);
    }
}

} // verus!
