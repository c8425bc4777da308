//! Facts about the parts of texts: what is held in whatever case, where tokens and quoted texts
//! stand, and what lists and joined texts hold.
use vstd::prelude::*;
use crate::text;

verus! {

/// The text holds the word, in whatever case of ASCII letters.
pub open spec fn holds_in_some_case(text: Seq<char>, word: Seq<char>) -> bool {
    exists|i: int|
        0 <= i <= text.len() - word.len() && text::spec_same_ignoring_case(
            #[trigger] text.subrange(i, i + word.len()),
            word,
        )
}

/// Lower case is given character by character, so that the case of a part is that of the whole.
pub proof fn lowercase_of_a_part(text: Seq<char>, start: int, end: int)
    requires
        0 <= start <= end <= text.len(),
    ensures
        text::spec_lowercase(text).len() == text.len(),
        text::spec_lowercase(text.subrange(start, end)) == text::spec_lowercase(text).subrange(
            start,
            end,
        ),
{
    assert(text::spec_lowercase(text.subrange(start, end)) =~= text::spec_lowercase(text).subrange(
        start,
        end,
    ));
}

/// A text holds a word in some case exactly where its lower case holds that of the word.
pub proof fn held_in_lower_case(text: Seq<char>, word: Seq<char>)
    ensures
        holds_in_some_case(text, word) <==> text::spec_contains(
            text::spec_lowercase(text),
            text::spec_lowercase(word),
        ),
{
    let lower = text::spec_lowercase(text);
    let wanted = text::spec_lowercase(word);
    if holds_in_some_case(text, word) {
        let i = choose|i: int|
            0 <= i <= text.len() - word.len() && text::spec_same_ignoring_case(
                #[trigger] text.subrange(i, i + word.len()),
                word,
            );
        lowercase_of_a_part(text, i, i + word.len());
        assert(text::occurs_at(lower, wanted, i));
    }
    if text::spec_contains(lower, wanted) {
        let i = choose|i: int| #[trigger] text::occurs_at(lower, wanted, i);
        lowercase_of_a_part(text, i, i + word.len());
        assert(text::spec_same_ignoring_case(text.subrange(i, i + word.len()), word));
    }
}

/// A text that is in lower case stays as it is.
pub open spec fn is_in_lower_case(text: Seq<char>) -> bool {
    forall|i: int| 0 <= i < text.len() ==> !text::spec_is_upper(#[trigger] text[i])
}

/// A text that is in lower case stays as it is.
pub proof fn lower_case_stays(text: Seq<char>)
    requires
        is_in_lower_case(text),
    ensures
        text::spec_lowercase(text) == text,
{
    assert(text::spec_lowercase(text) =~= text);
}

/// A part of a text is held by it.
pub proof fn parts_are_held(before: Seq<char>, part: Seq<char>, after: Seq<char>)
    ensures
        text::spec_contains(before + part + after, part),
{
    let whole = before + part + after;
    assert(whole.subrange(before.len() as int, (before.len() + part.len()) as int) =~= part);
    assert(text::occurs_at(whole, part, before.len() as int));
}

/// What a part holds, the whole text holds.
pub proof fn held_by_the_whole(
    before: Seq<char>,
    part: Seq<char>,
    after: Seq<char>,
    pattern: Seq<char>,
)
    requires
        text::spec_contains(part, pattern),
    ensures
        text::spec_contains(before + part + after, pattern),
{
    let whole = before + part + after;
    let i = choose|i: int| #[trigger] text::occurs_at(part, pattern, i);
    let k = before.len() + i;
    assert(whole.subrange(k, k + pattern.len()) =~= part.subrange(i, i + pattern.len()));
    assert(text::occurs_at(whole, pattern, k));
}

/// What a text holds, it is made of: something before it, it, and something after it.
pub proof fn held_texts_have_a_place(text: Seq<char>, pattern: Seq<char>) -> (place: (
    Seq<char>,
    Seq<char>,
))
    requires
        text::spec_contains(text, pattern),
    ensures
        text == place.0 + pattern + place.1,
{
    let i = choose|i: int| #[trigger] text::occurs_at(text, pattern, i);
    let before = text.take(i);
    let after = text.skip(i + pattern.len());
    assert(before + pattern + after =~= text) by {
        assert(text.subrange(i, i + pattern.len()) == pattern);
    }
    (before, after)
}

/// A joined text holds each of its texts.
pub proof fn joined_texts_are_held(list: Seq<Seq<char>>, separator: Seq<char>, k: int)
    requires
        0 <= k < list.len(),
    ensures
        text::spec_contains(text::spec_join(list, separator), list[k]),
    decreases list.len(),
{
    let nothing = Seq::<char>::empty();
    if list.len() == 1 {
        parts_are_held(nothing, list[0], nothing);
        assert(nothing + list[0] + nothing =~= list[0]);
    } else if k == list.len() - 1 {
        let before = text::spec_join(list.drop_last(), separator) + separator;
        parts_are_held(before, list[k], nothing);
        assert(before + list[k] + nothing =~= text::spec_join(list, separator));
    } else {
        joined_texts_are_held(list.drop_last(), separator, k);
        assert(list.drop_last()[k] == list[k]);
        let part = text::spec_join(list.drop_last(), separator);
        held_by_the_whole(nothing, part, separator + list.last(), list[k]);
        assert(nothing + part + (separator + list.last()) =~= text::spec_join(list, separator));
    }
}

/// A list with one more text is joined as it was, with the separator and that text after it.
pub proof fn joined_with_one_more(list: Seq<Seq<char>>, last: Seq<char>, separator: Seq<char>)
    requires
        list.len() > 0,
    ensures
        text::spec_join(list.push(last), separator) == text::spec_join(list, separator) + separator
            + last,
{
    assert(list.push(last).drop_last() =~= list);
}

/// What stays of a list after some of its items were taken out stood in it, and satisfied what it
/// was kept for.
pub proof fn kept_items_were_listed<T>(list: Seq<T>, stays: spec_fn(T) -> bool, item: T)
    ensures
        list.filter(stays).contains(item) <==> list.contains(item) && stays(item),
    decreases list.len(),
{
    reveal(Seq::filter);
    if list.len() > 0 {
        let earlier = list.drop_last();
        let before = earlier.filter(stays);
        let kept = list.filter(stays);
        kept_items_were_listed(earlier, stays, item);
        pushed_item(earlier, list.last(), item);
        assert(earlier.push(list.last()) =~= list);
        if stays(list.last()) {
            assert(kept == before.push(list.last()));
            pushed_item(before, list.last(), item);
        }
    }
}

/// A list with one more item holds that one and those that it held.
pub proof fn pushed_item<T>(list: Seq<T>, last: T, item: T)
    ensures
        list.push(last).contains(item) <==> list.contains(item) || item == last,
{
    let longer = list.push(last);
    if list.contains(item) {
        let k = choose|k: int| 0 <= k < list.len() && list[k] == item;
        assert(longer[k] == item);
    }
    if longer.contains(item) && item != last {
        let k = choose|k: int| 0 <= k < longer.len() && longer[k] == item;
        assert(list[k] == item);
    }
    assert(longer[list.len() as int] == last);
}

/// A token of the text stands from one position up to another: characters of tokens alone, with
/// none before and none after them.
pub open spec fn is_token_at(text: Seq<char>, extra: Seq<char>, start: int, end: int) -> bool {
    &&& 0 <= start < end <= text.len()
    &&& forall|i: int|
        start <= i < end ==> text::spec_is_token_char(#[trigger] text[i], extra)
    &&& start > 0 ==> !text::spec_is_token_char(text[start - 1], extra)
    &&& end < text.len() ==> !text::spec_is_token_char(text[end], extra)
}

/// Splitting a text into tokens gives at least one piece.
proof fn tokens_are_there(text: Seq<char>, extra: Seq<char>)
    ensures
        text::spec_split_tokens(text, extra).len() >= 1,
    decreases text.len(),
{
    if text.len() > 0 {
        tokens_are_there(text.drop_last(), extra);
    }
}

/// The last piece of a text split into tokens is the token that the text ends with.
proof fn last_token(text: Seq<char>, extra: Seq<char>, start: int)
    requires
        0 <= start <= text.len(),
        forall|i: int|
            start <= i < text.len() ==> text::spec_is_token_char(#[trigger] text[i], extra),
        start > 0 ==> !text::spec_is_token_char(text[start - 1], extra),
    ensures
        text::spec_split_tokens(text, extra).len() >= 1,
        text::spec_split_tokens(text, extra).last() == text.skip(start),
    decreases text.len(),
{
    tokens_are_there(text, extra);
    if text.len() == 0 {
        assert(text.skip(start) =~= Seq::empty());
    } else {
        let shorter = text.drop_last();
        tokens_are_there(shorter, extra);
        if start == text.len() {
            assert(text.last() == text[start - 1]);
            assert(text.skip(start) =~= Seq::empty());
        } else {
            last_token(shorter, extra, start);
            assert(shorter.skip(start).push(text.last()) =~= text.skip(start));
        }
    }
}

/// A token that stands in a text is one of the pieces that splitting it into tokens gives.
pub proof fn tokens_are_pieces(text: Seq<char>, extra: Seq<char>, start: int, end: int)
    requires
        is_token_at(text, extra, start, end),
    ensures
        text::spec_split_tokens(text, extra).contains(text.subrange(start, end)),
{
    let k = token_has_its_piece(text, extra, start, end);
    assert(text::spec_split_tokens(text, extra)[k] == text.subrange(start, end));
}

/// The index of the piece that a token is.
proof fn token_has_its_piece(text: Seq<char>, extra: Seq<char>, start: int, end: int) -> (k: int)
    requires
        is_token_at(text, extra, start, end),
    ensures
        0 <= k < text::spec_split_tokens(text, extra).len(),
        text::spec_split_tokens(text, extra)[k] == text.subrange(start, end),
        end < text.len() ==> k < text::spec_split_tokens(text, extra).len() - 1,
    decreases text.len(),
{
    let pieces = text::spec_split_tokens(text, extra);
    tokens_are_there(text, extra);
    if end == text.len() {
        last_token(text, extra, start);
        assert(text.skip(start) =~= text.subrange(start, end));
        pieces.len() - 1
    } else {
        let shorter = text.drop_last();
        assert(is_token_at(shorter, extra, start, end));
        let k = token_has_its_piece(shorter, extra, start, end);
        assert(shorter.subrange(start, end) =~= text.subrange(start, end));
        k
    }
}

/// A place of a pattern that no earlier place overlaps is among its matches from a position on.
proof fn free_place_is_matched(text: Seq<char>, pattern: Seq<char>, from: int, place: int)
    requires
        pattern.len() > 0,
        0 <= from <= place,
        text::occurs_at(text, pattern, place),
        forall|j: int|
            from <= j < place && place < j + pattern.len() ==> !#[trigger] text::occurs_at(
                text,
                pattern,
                j,
            ),
    ensures
        text::matches_from(text, pattern, from).contains(place),
    decreases place - from,
{
    text::lemma_find_from(text, pattern, from);
    let k = text::find_from(text, pattern, from)->Some_0;
    let rest = text::matches_from(text, pattern, k + pattern.len());
    let all = text::matches_from(text, pattern, from);
    assert(all == seq![k] + rest);
    if k == place {
        assert(all[0] == place);
    } else {
        assert(k + pattern.len() <= place);
        free_place_is_matched(text, pattern, k + pattern.len(), place);
        let n = choose|n: int| 0 <= n < rest.len() && rest[n] == place;
        assert(all[n + 1] == place);
    }
}

/// A place of a pattern that no earlier place overlaps is among its matches.
pub proof fn free_places_are_matched(text: Seq<char>, pattern: Seq<char>, place: int)
    requires
        pattern.len() > 0,
        text::occurs_at(text, pattern, place),
        forall|j: int|
            0 <= j < place && place < j + pattern.len() ==> !#[trigger] text::occurs_at(
                text,
                pattern,
                j,
            ),
    ensures
        text::spec_match_indices(text, pattern).contains(place),
{
    free_place_is_matched(text, pattern, 0, place);
}

/// The place of a token is among the matches of its text.
pub proof fn tokens_are_matched(text: Seq<char>, extra: Seq<char>, start: int, end: int)
    requires
        is_token_at(text, extra, start, end),
    ensures
        text::spec_match_indices(text, text.subrange(start, end)).contains(start),
{
    let token = text.subrange(start, end);
    assert(text::occurs_at(text, token, start));
    assert forall|j: int|
        0 <= j < start && start < j + token.len() implies !#[trigger] text::occurs_at(
        text,
        token,
        j,
    ) by {
        if text::occurs_at(text, token, j) {
            let offset = start - 1 - j;
            assert(text.subrange(j, j + token.len())[offset] == text[start - 1]);
            assert(token[offset] == text[start + offset]);
        }
    }
    free_place_is_matched(text, token, 0, start);
}

/// The first place of a character is where it is found.
pub proof fn first_place(text: Seq<char>, c: char, k: int)
    requires
        0 <= k < text.len(),
        text[k] == c,
        forall|j: int| 0 <= j < k ==> #[trigger] text[j] != c,
    ensures
        text::spec_find(text, seq![c]) == Some(k),
        text::spec_split_once(text, seq![c]) == Some((text.take(k), text.skip(k + 1))),
{
    let mark = seq![c];
    text::lemma_find_from(text, mark, 0);
    assert(text.subrange(k, k + 1) =~= mark);
    assert(text::occurs_at(text, mark, k));
    match text::spec_find(text, mark) {
        Some(found) => {
            assert(text.subrange(found, found + 1)[0] == text[found]);
        },
        None => {},
    }
}

/// The first position from one on at which the text has the character, where it has it there.
pub proof fn first_place_from(text: Seq<char>, c: char, from: int, known: int) -> (k: int)
    requires
        0 <= from <= known < text.len(),
        text[known] == c,
    ensures
        from <= k <= known,
        text[k] == c,
        forall|j: int| from <= j < k ==> #[trigger] text[j] != c,
    decreases known - from,
{
    if text[from] == c {
        from
    } else {
        first_place_from(text, c, from + 1, known)
    }
}

/// A part of a text that stands between two characters of a set, or reaches to an end of the text,
/// and holds none of them.
pub open spec fn is_piece_at(text: Seq<char>, set: Seq<char>, start: int, end: int) -> bool {
    &&& 0 <= start <= end <= text.len()
    &&& start > 0 ==> set.contains(text[start - 1])
    &&& end < text.len() ==> set.contains(text[end])
    &&& forall|i: int| start <= i < end ==> !set.contains(#[trigger] text[i])
}

/// A part between characters of a set is a piece of the text. It is the last one where it reaches
/// to the end.
proof fn piece_is_found(text: Seq<char>, set: Seq<char>, start: int, end: int) -> (k: int)
    requires
        is_piece_at(text, set, start, end),
    ensures
        0 <= k < text::spec_split_any(text, set).len(),
        text::spec_split_any(text, set)[k] == text.subrange(start, end),
        end == text.len() ==> k == text::spec_split_any(text, set).len() - 1,
        end < text.len() ==> k < text::spec_split_any(text, set).len() - 1,
    decreases text.len(),
{
    let pieces = text::spec_split_any(text, set);
    text::lemma_split_any_len(text, set);
    if text.len() == 0 {
        assert(pieces[0] =~= text.subrange(start, end));
        0
    } else {
        let before = text.drop_last();
        let earlier = text::spec_split_any(before, set);
        text::lemma_split_any_len(before, set);
        let last = text.len() - 1;
        if start == text.len() {
            assert(set.contains(text[start - 1]));
            assert(pieces[pieces.len() - 1] =~= text.subrange(start, end));
            pieces.len() - 1
        } else if end == text.len() {
            assert(!set.contains(text[last]));
            assert forall|i: int| start <= i < last implies !set.contains(#[trigger] before[i]) by {
                assert(!set.contains(text[i]));
            }
            let k = piece_is_found(before, set, start, last);
            assert(pieces[k] =~= text.subrange(start, end)) by {
                assert(text.subrange(start, end) =~= before.subrange(start, last).push(text[last]));
            }
            k
        } else {
            assert forall|i: int| start <= i < end implies !set.contains(#[trigger] before[i]) by {
                assert(!set.contains(text[i]));
            }
            if end < last {
                assert(before[end] == text[end]);
            }
            let k = piece_is_found(before, set, start, end);
            assert(text.subrange(start, end) =~= before.subrange(start, end));
            k
        }
    }
}

/// The segments of a text are the parts of it between characters of the set, without the white space
/// around them. A blank part is none.
pub proof fn parts_between_marks_are_segments(text: Seq<char>, set: Seq<char>, start: int, end: int)
    requires
        is_piece_at(text, set, start, end),
        text::spec_trim(text.subrange(start, end)).len() > 0,
    ensures
        text::spec_segments(text, set).contains(text::spec_trim(text.subrange(start, end))),
{
    let k = piece_is_found(text, set, start, end);
    let trimmed = text::spec_split_any(text, set).map_values(
        |piece: Seq<char>| text::spec_trim(piece),
    );
    let piece = text::spec_trim(text.subrange(start, end));
    assert(trimmed[k] == piece);
    kept_items_were_listed(trimmed, |piece: Seq<char>| piece.len() > 0, piece);
}

/// Each segment of a text stands in it, is not empty, and has no white space around it.
pub proof fn segments_are_parts(text: Seq<char>, set: Seq<char>, k: int)
    requires
        0 <= k < text::spec_segments(text, set).len(),
    ensures
        text::spec_contains(text, text::spec_segments(text, set)[k]),
        text::spec_segments(text, set)[k].len() > 0,
        text::spec_trim(text::spec_segments(text, set)[k]) == text::spec_segments(text, set)[k],
{
    let pieces = text::spec_split_any(text, set);
    let trimmed = pieces.map_values(|piece: Seq<char>| text::spec_trim(piece));
    let segment = text::spec_segments(text, set)[k];
    assert(text::spec_segments(text, set).contains(segment));
    kept_items_were_listed(trimmed, |piece: Seq<char>| piece.len() > 0, segment);
    let j = choose|j: int| 0 <= j < trimmed.len() && trimmed[j] == segment;
    let piece = pieces[j];
    assert(segment == text::spec_trim(piece));
    text::trim_is_idempotent(piece);
    let (start, end) = text::piece_has_its_place(text, set, j);
    let (low, high) = text::trimmed_texts_are_parts(piece);
    assert(segment =~= text.subrange(start + low, start + low + segment.len()));
    assert(text::occurs_at(text, segment, start + low));
}

/// What stands in a part of a text stands in the text.
pub proof fn held_parts_are_held(text: Seq<char>, part: Seq<char>, pattern: Seq<char>)
    requires
        text::spec_contains(text, part),
        text::spec_contains(part, pattern),
    ensures
        text::spec_contains(text, pattern),
{
    let (before, after) = held_texts_have_a_place(text, part);
    held_by_the_whole(before, part, after, pattern);
}

/// A trimmed text stands in the text.
pub proof fn trimmed_texts_are_held(text: Seq<char>)
    ensures
        text::spec_contains(text, text::spec_trim(text)),
{
    let (low, high) = text::trimmed_texts_are_parts(text);
    assert(text::occurs_at(text, text::spec_trim(text), low));
}

} // verus!
