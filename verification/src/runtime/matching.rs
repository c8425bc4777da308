//! Matching of markers and terms in text, without regard to the case of ASCII letters.
use vstd::prelude::*;
use crate::contents;
use crate::parts;
use crate::text;

verus! {

broadcast use crate::contents::group_contents;

/// The condition of [`contains_any_marker`]: the text holds one of the markers, whatever the case
/// of ASCII letters.
pub open spec fn spec_contains_any_marker(text: Seq<char>, markers: Seq<&str>) -> bool {
    let normalized = text::spec_lowercase(text);
    exists|i: int|
        #![trigger markers[i]] 0 <= i < markers.len()
        && text::spec_contains(normalized, text::spec_lowercase(markers[i]@))
}

/// Whether the text holds one of the markers, whatever the case of ASCII letters.
pub fn contains_any_marker(text: &str, markers: &[&str]) -> (r: bool)
    ensures
        r == spec_contains_any_marker(text@, markers@),
{
    let normalized: String = text::lowercase(text);
    let mut i: usize = 0;
    while i < markers.len()
        invariant
            i <= markers@.len(),
            normalized@ == text::spec_lowercase(text@),
            forall|j: int|
                #![trigger markers@[j]] 0 <= j < i ==> !(text::spec_contains(
                    normalized@,
                    text::spec_lowercase(markers@[j]@),
                )),
        decreases markers@.len() - i,
    {
        let marker: &str = markers[i];
        if text::contains(&normalized, &text::lowercase(marker)) {
            return true;
        }
        i = i + 1;
    }
    false
}

/// The condition of [`holds_marker`]: the text holds one of the markers as it is written.
pub open spec fn spec_holds_marker(text: Seq<char>, markers: Seq<&str>) -> bool {
    exists|i: int|
        #![trigger markers[i]] 0 <= i < markers.len()
        && text::spec_contains(text, markers[i]@)
}

/// Whether the text holds one of the markers as it is written.
pub fn holds_marker(text: &str, markers: &[&str]) -> (r: bool)
    ensures
        r == spec_holds_marker(text@, markers@),
{
    let mut i: usize = 0;
    while i < markers.len()
        invariant
            i <= markers@.len(),
            forall|j: int|
                #![trigger markers@[j]] 0 <= j < i ==> !(text::spec_contains(text@, markers@[j]@)),
        decreases markers@.len() - i,
    {
        let marker: &str = markers[i];
        if text::contains(text, marker) {
            return true;
        }
        i = i + 1;
    }
    false
}

/// The condition of [`starts_with_marker`]: the text begins with one of the markers.
pub open spec fn spec_starts_with_marker(text: Seq<char>, markers: Seq<&str>) -> bool {
    exists|i: int|
        #![trigger markers[i]] 0 <= i < markers.len()
        && text::spec_starts_with(text, markers[i]@)
}

/// Whether the text begins with one of the markers.
pub fn starts_with_marker(text: &str, markers: &[&str]) -> (r: bool)
    ensures
        r == spec_starts_with_marker(text@, markers@),
{
    let mut i: usize = 0;
    while i < markers.len()
        invariant
            i <= markers@.len(),
            forall|j: int|
                #![trigger markers@[j]] 0 <= j < i ==> !(text::spec_starts_with(text@, markers@[j]@)),
        decreases markers@.len() - i,
    {
        let marker: &str = markers[i];
        if text::starts_with(text, marker) {
            return true;
        }
        i = i + 1;
    }
    false
}

/// The condition of [`ends_with_marker`]: the text ends with one of the markers.
pub open spec fn spec_ends_with_marker(text: Seq<char>, markers: Seq<&str>) -> bool {
    exists|i: int|
        #![trigger markers[i]] 0 <= i < markers.len()
        && text::spec_ends_with(text, markers[i]@)
}

/// Whether the text ends with one of the markers.
pub fn ends_with_marker(text: &str, markers: &[&str]) -> (r: bool)
    ensures
        r == spec_ends_with_marker(text@, markers@),
{
    let mut i: usize = 0;
    while i < markers.len()
        invariant
            i <= markers@.len(),
            forall|j: int|
                #![trigger markers@[j]] 0 <= j < i ==> !(text::spec_ends_with(text@, markers@[j]@)),
        decreases markers@.len() - i,
    {
        let marker: &str = markers[i];
        if text::ends_with(text, marker) {
            return true;
        }
        i = i + 1;
    }
    false
}

/// The condition of [`any_digit`]: the text holds an ASCII digit.
pub open spec fn spec_any_digit(text: Seq<char>) -> bool {
    exists|i: int| #![trigger text[i]] 0 <= i < text.len() && text::spec_is_digit(text[i])
}

/// Whether the text holds an ASCII digit.
pub fn any_digit(text: &str) -> (r: bool)
    ensures
        r == spec_any_digit(text@),
{
    let characters: Vec<char> = text::to_chars(text);
    let mut i: usize = 0;
    while i < characters.len()
        invariant
            i <= characters@.len(),
            characters@ == text@,
            forall|j: int|
                #![trigger characters@[j]] 0 <= j < i ==> !(text::spec_is_digit(characters@[j])),
        decreases characters@.len() - i,
    {
        let c: char = characters[i];
        if text::is_digit(c) {
            return true;
        }
        i = i + 1;
    }
    false
}

/// The condition of [`any_alpha`]: the text holds an ASCII letter.
pub open spec fn spec_any_alpha(text: Seq<char>) -> bool {
    exists|i: int| #![trigger text[i]] 0 <= i < text.len() && text::spec_is_alpha(text[i])
}

/// Whether the text holds an ASCII letter.
pub fn any_alpha(text: &str) -> (r: bool)
    ensures
        r == spec_any_alpha(text@),
{
    let characters: Vec<char> = text::to_chars(text);
    let mut i: usize = 0;
    while i < characters.len()
        invariant
            i <= characters@.len(),
            characters@ == text@,
            forall|j: int|
                #![trigger characters@[j]] 0 <= j < i ==> !(text::spec_is_alpha(characters@[j])),
        decreases characters@.len() - i,
    {
        let c: char = characters[i];
        if text::is_alpha(c) {
            return true;
        }
        i = i + 1;
    }
    false
}

/// The condition of [`any_alnum`]: the text holds an ASCII letter or digit.
pub open spec fn spec_any_alnum(text: Seq<char>) -> bool {
    exists|i: int| #![trigger text[i]] 0 <= i < text.len() && text::spec_is_alnum(text[i])
}

/// Whether the text holds an ASCII letter or digit.
pub fn any_alnum(text: &str) -> (r: bool)
    ensures
        r == spec_any_alnum(text@),
{
    let characters: Vec<char> = text::to_chars(text);
    let mut i: usize = 0;
    while i < characters.len()
        invariant
            i <= characters@.len(),
            characters@ == text@,
            forall|j: int|
                #![trigger characters@[j]] 0 <= j < i ==> !(text::spec_is_alnum(characters@[j])),
        decreases characters@.len() - i,
    {
        let c: char = characters[i];
        if text::is_alnum(c) {
            return true;
        }
        i = i + 1;
    }
    false
}

/// The condition of [`any_whitespace`]: the text holds a white space character.
pub open spec fn spec_any_whitespace(text: Seq<char>) -> bool {
    exists|i: int| #![trigger text[i]] 0 <= i < text.len() && text::spec_is_whitespace(text[i])
}

/// Whether the text holds a white space character.
pub fn any_whitespace(text: &str) -> (r: bool)
    ensures
        r == spec_any_whitespace(text@),
{
    let characters: Vec<char> = text::to_chars(text);
    let mut i: usize = 0;
    while i < characters.len()
        invariant
            i <= characters@.len(),
            characters@ == text@,
            forall|j: int|
                #![trigger characters@[j]] 0 <= j < i ==> !(text::spec_is_whitespace(characters@[j])),
        decreases characters@.len() - i,
    {
        let c: char = characters[i];
        if text::is_whitespace(c) {
            return true;
        }
        i = i + 1;
    }
    false
}

/// The condition of [`any_of_set`]: the text holds a character of the set.
pub open spec fn spec_any_of_set(text: Seq<char>, set: Seq<char>) -> bool {
    exists|i: int| #![trigger text[i]] 0 <= i < text.len() && set.contains(text[i])
}

/// Whether the text holds a character of the set.
pub fn any_of_set(text: &str, set: &str) -> (r: bool)
    ensures
        r == spec_any_of_set(text@, set@),
{
    let characters: Vec<char> = text::to_chars(text);
    let mut i: usize = 0;
    while i < characters.len()
        invariant
            i <= characters@.len(),
            characters@ == text@,
            forall|j: int|
                #![trigger characters@[j]] 0 <= j < i ==> !(set@.contains(characters@[j])),
        decreases characters@.len() - i,
    {
        let c: char = characters[i];
        if text::char_in(c, set) {
            return true;
        }
        i = i + 1;
    }
    false
}

/// The condition of [`all_identifier`]: the text is made of letters, digits and underscores
/// alone.
pub open spec fn spec_all_identifier(text: Seq<char>) -> bool {
    forall|i: int|
        #![trigger text[i]] 0 <= i < text.len() ==> text::spec_is_ascii_identifier_character(
            text[i],
        )
}

/// Whether the text is made of letters, digits and underscores alone.
pub fn all_identifier(text: &str) -> (r: bool)
    ensures
        r == spec_all_identifier(text@),
{
    let characters: Vec<char> = text::to_chars(text);
    let mut i: usize = 0;
    while i < characters.len()
        invariant
            i <= characters@.len(),
            characters@ == text@,
            forall|j: int|
                #![trigger characters@[j]] 0 <= j < i ==> text::spec_is_ascii_identifier_character(
                    characters@[j],
                ),
        decreases characters@.len() - i,
    {
        let c: char = characters[i];
        if !text::is_ascii_identifier_character(c) {
            return false;
        }
        i = i + 1;
    }
    true
}

/// The condition of [`identifier_before`]: a character of an identifier stands right before the
/// position.
pub open spec fn spec_identifier_before(text: Seq<char>, start: int) -> bool {
    let before = text::spec_take(text, start);
    before.len() > 0 && text::spec_is_ascii_identifier_character(before[before.len() - 1])
}

/// Whether a character of an identifier stands right before the position.
pub fn identifier_before(text: &str, start: usize) -> (r: bool)
    ensures
        r == spec_identifier_before(text@, start as int),
{
    let before: Vec<char> = text::to_chars(&text::take(text, start));
    before.len() > 0 && text::is_ascii_identifier_character(before[before.len() - 1])
}

/// The condition of [`identifier_at`]: a character of an identifier stands at the position.
pub open spec fn spec_identifier_at(text: Seq<char>, start: int) -> bool {
    let after = text::spec_skip(text, start);
    after.len() > 0 && text::spec_is_ascii_identifier_character(after[0])
}

/// Whether a character of an identifier stands at the position.
pub fn identifier_at(text: &str, start: usize) -> (r: bool)
    ensures
        r == spec_identifier_at(text@, start as int),
{
    let after: Vec<char> = text::to_chars(&text::skip(text, start));
    after.len() > 0 && text::is_ascii_identifier_character(after[0])
}

/// The condition of [`stands_alone`]: the `width` characters from `start` on touch no character
/// of an identifier.
#[verifier::opaque]
pub open spec fn spec_stands_alone(text: Seq<char>, start: int, width: int) -> bool {
    !spec_identifier_before(text, start) && !spec_identifier_after(text, start, width)
}

/// Whether the `width` characters from `start` on touch no character of an identifier.
pub fn stands_alone(text: &str, start: usize, width: usize) -> (r: bool)
    ensures
        r == spec_stands_alone(text@, start as int, width as int),
{
    proof {
        reveal(spec_stands_alone);
    }
    !identifier_before(text, start) && !identifier_after(text, start, width)
}

/// The condition of [`identifier_after`]: a character of an identifier stands right after the
/// `width` characters from `start` on.
#[verifier::opaque]
pub open spec fn spec_identifier_after(text: Seq<char>, start: int, width: int) -> bool {
    spec_identifier_at(text::spec_skip(text, start), width)
}

/// Whether a character of an identifier stands right after the `width` characters from `start`
/// on.
pub fn identifier_after(text: &str, start: usize, width: usize) -> (r: bool)
    ensures
        r == spec_identifier_after(text@, start as int, width as int),
{
    proof {
        reveal(spec_identifier_after);
    }
    identifier_at(&text::skip(text, start), width)
}

/// The condition of [`contains_word`]: the term stands in the text as a word of its own.
#[verifier::opaque]
pub open spec fn spec_contains_word(text: Seq<char>, term: Seq<char>) -> bool {
    let starts = text::spec_match_indices(text, term);
    let width: int = term.len() as int;
    exists|i: int|
        #![trigger starts[i]] 0 <= i < starts.len()
        && spec_stands_alone(text, starts[i], width)
}

/// Whether the term stands in the text as a word of its own.
pub fn contains_word(text: &str, term: &str) -> (r: bool)
    ensures
        r == spec_contains_word(text@, term@),
{
    proof {
        reveal(spec_contains_word);
    }
    let starts: Vec<usize> = text::match_indices(text, term);
    let width: usize = text::char_count(term);
    let mut i: usize = 0;
    while i < starts.len()
        invariant
            i <= starts@.len(),
            contents::positions(starts@) == text::spec_match_indices(text@, term@),
            width == term@.len(),
            forall|j: int|
                #![trigger contents::positions(starts@)[j]] 0 <= j < i ==> !(spec_stands_alone(
                    text@,
                    contents::positions(starts@)[j],
                    (width as int),
                )),
        decreases starts@.len() - i,
    {
        proof {
            reveal(spec_contains_word);
        }
        let start: usize = starts[i];
        assert(contents::positions(starts@)[i as int] == starts@[i as int]);
        if stands_alone(text, start, width) {
            return true;
        }
        i = i + 1;
    }
    false
}

/// The condition of [`contains_required_term_match`]: the text holds the term: an identifier as a
/// word of its own, another term anywhere.
#[verifier::opaque]
pub open spec fn spec_contains_required_term_match(text: Seq<char>, term: Seq<char>) -> bool {
    if !spec_all_identifier(term) {
        text::spec_contains(text, term)
    } else {
        spec_contains_word(text, term)
    }
}

/// Whether the text holds the term: an identifier as a word of its own, another term anywhere.
pub fn contains_required_term_match(text: &str, term: &str) -> (r: bool)
    ensures
        r == spec_contains_required_term_match(text@, term@),
{
    proof {
        reveal(spec_contains_required_term_match);
    }
    if !all_identifier(term) {
        return text::contains(text, term);
    }
    contains_word(text, term)
}

/// The condition of [`all_parts_present`]: the text holds every part, as written or up to white
/// space.
pub open spec fn spec_all_parts_present(parts: Seq<Seq<char>>, text: Seq<char>) -> bool {
    let compact_text = text::spec_compact_all_whitespace(text);
    forall|i: int|
        #![trigger parts[i]] 0 <= i < parts.len() ==> (text::spec_contains(text, parts[i])
                || text::spec_contains(compact_text, text::spec_compact_all_whitespace(parts[i])))
}

/// Whether the text holds every part, as written or up to white space.
pub fn all_parts_present(parts: &Vec<String>, text: &str) -> (r: bool)
    ensures
        r == spec_all_parts_present(contents::views(parts@), text@),
{
    let compact_text: String = text::compact_all_whitespace(text);
    let mut i: usize = 0;
    while i < parts.len()
        invariant
            i <= parts@.len(),
            compact_text@ == text::spec_compact_all_whitespace(text@),
            forall|j: int|
                #![trigger contents::views(parts@)[j]] 0 <= j < i ==> (text::spec_contains(
                    text@,
                    contents::views(parts@)[j],
                )
                    || text::spec_contains(
                        compact_text@,
                        text::spec_compact_all_whitespace(contents::views(parts@)[j]),
                    )),
        decreases parts@.len() - i,
    {
        let part: &str = &parts[i];
        assert(contents::views(parts@)[i as int] == parts@[i as int]@);
        if !(text::contains(text, part)
            || text::contains(&compact_text, &text::compact_all_whitespace(part))) {
            return false;
        }
        i = i + 1;
    }
    true
}

/// The condition of [`any_not_ascii`]: some part holds a character outside ASCII.
pub open spec fn spec_any_not_ascii(parts: Seq<Seq<char>>) -> bool {
    exists|i: int| #![trigger parts[i]] 0 <= i < parts.len() && !text::spec_is_ascii(parts[i])
}

/// Whether some part holds a character outside ASCII.
pub fn any_not_ascii(parts: &Vec<String>) -> (r: bool)
    ensures
        r == spec_any_not_ascii(contents::views(parts@)),
{
    let mut i: usize = 0;
    while i < parts.len()
        invariant
            i <= parts@.len(),
            forall|j: int|
                #![trigger contents::views(parts@)[j]] 0 <= j < i ==> !(!text::spec_is_ascii(
                    contents::views(parts@)[j],
                )),
        decreases parts@.len() - i,
    {
        let part: &str = &parts[i];
        assert(contents::views(parts@)[i as int] == parts@[i as int]@);
        if !text::is_ascii(part) {
            return true;
        }
        i = i + 1;
    }
    false
}

/// The condition of [`contains_natural_compound_required_term`]: the text holds every word of a
/// term of several words, not all of them ASCII.
#[verifier::opaque]
pub open spec fn spec_contains_natural_compound_required_term(
    text: Seq<char>,
    term: Seq<char>,
) -> bool {
    let parts = text::spec_words(term);
    if parts.len() < 2 || !spec_any_not_ascii(parts) {
        false
    } else {
        spec_all_parts_present(parts, text)
    }
}

/// Whether the text holds every word of a term of several words, not all of them ASCII.
pub fn contains_natural_compound_required_term(text: &str, term: &str) -> (r: bool)
    ensures
        r == spec_contains_natural_compound_required_term(text@, term@),
{
    proof {
        reveal(spec_contains_natural_compound_required_term);
    }
    let parts: Vec<String> = text::words(term);
    if parts.len() < 2 || !any_not_ascii(&parts) {
        return false;
    }
    all_parts_present(&parts, text)
}

/// The condition of [`contains_ascii_case_insensitive`]: the text holds the required term: as a
/// word, up to white space, or word by word.
#[verifier::opaque]
pub open spec fn spec_contains_ascii_case_insensitive(text: Seq<char>, term: Seq<char>) -> bool {
    let lower_text = text::spec_lowercase(text);
    let lower_term = text::spec_lowercase(term);
    spec_contains_required_term_match(lower_text, lower_term)
        || (spec_any_whitespace(lower_term)
            && text::spec_contains(
                text::spec_compact_all_whitespace(lower_text),
                text::spec_compact_all_whitespace(lower_term),
            ))
        || spec_contains_natural_compound_required_term(lower_text, lower_term)
}

/// Whether the text holds the required term: as a word, up to white space, or word by word.
pub fn contains_ascii_case_insensitive(text: &str, term: &str) -> (r: bool)
    ensures
        r == spec_contains_ascii_case_insensitive(text@, term@),
{
    proof {
        reveal(spec_contains_ascii_case_insensitive);
    }
    let lower_text: String = text::lowercase(text);
    let lower_term: String = text::lowercase(term);
    contains_required_term_match(&lower_text, &lower_term)
        || (any_whitespace(&lower_term)
            && text::contains(
                &text::compact_all_whitespace(&lower_text),
                &text::compact_all_whitespace(&lower_term),
            ))
        || contains_natural_compound_required_term(&lower_text, &lower_term)
}

/// The condition of [`all_terms_present`]: the text holds every term.
#[verifier::opaque]
pub open spec fn spec_all_terms_present(terms: Seq<Seq<char>>, text: Seq<char>) -> bool {
    forall|i: int|
        #![trigger terms[i]] 0 <= i < terms.len() ==> spec_contains_ascii_case_insensitive(
            text,
            terms[i],
        )
}

/// Whether the text holds every term.
pub fn all_terms_present(terms: &Vec<String>, text: &str) -> (r: bool)
    ensures
        r == spec_all_terms_present(contents::views(terms@), text@),
{
    proof {
        reveal(spec_all_terms_present);
    }
    let mut i: usize = 0;
    while i < terms.len()
        invariant
            i <= terms@.len(),
            forall|j: int|
                #![trigger contents::views(terms@)[j]] 0 <= j < i ==> spec_contains_ascii_case_insensitive(
                    text@,
                    contents::views(terms@)[j],
                ),
        decreases terms@.len() - i,
    {
        proof {
            reveal(spec_all_terms_present);
        }
        let term: &str = &terms[i];
        assert(contents::views(terms@)[i as int] == terms@[i as int]@);
        if !contains_ascii_case_insensitive(text, term) {
            return false;
        }
        i = i + 1;
    }
    true
}

/// Value of [`absent_terms`].
#[verifier::opaque]
pub open spec fn spec_absent_terms(terms: Seq<Seq<char>>, text: Seq<char>) -> Seq<Seq<char>> {
    terms.filter(|term: Seq<char>| !spec_contains_ascii_case_insensitive(text, term))
}

/// The terms that the text does not hold, in their order.
pub fn absent_terms(terms: &Vec<String>, text: &str) -> (r: Vec<String>)
    ensures
        contents::views(r@) == spec_absent_terms(contents::views(terms@), text@),
{
    proof {
        reveal(spec_absent_terms);
        reveal(Seq::filter);
    }
    let mut out: Vec<String> = Vec::new();
    let mut i: usize = 0;
    while i < terms.len()
        invariant
            i <= terms@.len(),
            contents::views(out@) == spec_absent_terms(
                contents::views(terms@).take(i as int),
                text@,
            ),
        decreases terms@.len() - i,
    {
        proof {
            reveal(spec_absent_terms);
            reveal(Seq::filter);
        }
        assert(contents::views(terms@).take(i + 1).drop_last()
            =~= contents::views(terms@).take(i as int));
        let term: &str = &terms[i];
        i = i + 1;
        if !contains_ascii_case_insensitive(text, term) {
            out.push(term.to_owned());
        }
    }
    assert(contents::views(terms@).take(terms@.len() as int) =~= contents::views(terms@));
    out
}

/// Phrases by which a model describes the request in place of carrying it out.
pub const META_TASK_MARKERS: [&'static str; 7] = [
    "given a natural language description",
    "create a prompt",
    "summarize the task",
    "the user wants",
    "ユーザーの依頼",
    "プロンプトを作成",
    "タスクを要約",
];

/// The condition of [`is_meta_task_restatement`]: the output describes the request in place of
/// carrying it out.
#[verifier::opaque]
pub open spec fn spec_is_meta_task_restatement(output: Seq<char>) -> bool {
    spec_holds_marker(text::spec_lowercase(text::spec_trim(output)), META_TASK_MARKERS@)
}

/// Whether the output describes the request in place of carrying it out.
pub fn is_meta_task_restatement(output: &str) -> (r: bool)
    ensures
        r == spec_is_meta_task_restatement(output@),
{
    proof {
        reveal(spec_is_meta_task_restatement);
    }
    holds_marker(&text::lowercase(&text::trim(output)), &META_TASK_MARKERS)
}

/// The condition of [`is_japanese_character`]: the character is a kana or a common ideograph.
pub open spec fn spec_is_japanese_character(c: char) -> bool {
    text::spec_char_between(c, 12352, 12543) || text::spec_char_between(c, 13312, 40959)
}

/// Whether the character is a kana or a common ideograph.
pub fn is_japanese_character(c: char) -> (r: bool)
    ensures
        r == spec_is_japanese_character(c),
{
    text::char_between(c, 12352, 12543) || text::char_between(c, 13312, 40959)
}

/// The condition of [`contains_japanese_text`]: the text holds a kana or a common ideograph.
#[verifier::opaque]
pub open spec fn spec_contains_japanese_text(text: Seq<char>) -> bool {
    exists|i: int| #![trigger text[i]] 0 <= i < text.len() && spec_is_japanese_character(text[i])
}

/// Whether the text holds a kana or a common ideograph.
pub fn contains_japanese_text(text: &str) -> (r: bool)
    ensures
        r == spec_contains_japanese_text(text@),
{
    proof {
        reveal(spec_contains_japanese_text);
    }
    let characters: Vec<char> = text::to_chars(text);
    let mut i: usize = 0;
    while i < characters.len()
        invariant
            i <= characters@.len(),
            characters@ == text@,
            forall|j: int|
                #![trigger characters@[j]] 0 <= j < i ==> !(spec_is_japanese_character(
                    characters@[j],
                )),
        decreases characters@.len() - i,
    {
        proof {
            reveal(spec_contains_japanese_text);
        }
        let c: char = characters[i];
        if is_japanese_character(c) {
            return true;
        }
        i = i + 1;
    }
    false
}

/// The term stands at the position as a word of its own.
pub open spec fn is_word_at(text: Seq<char>, term: Seq<char>, start: int) -> bool {
    &&& text::occurs_at(text, term, start)
    &&& start > 0 ==> !text::spec_is_ascii_identifier_character(text[start - 1])
    &&& start + term.len() < text.len() ==> !text::spec_is_ascii_identifier_character(
        text[start + term.len()],
    )
}

/// Touching no identifier is standing as a word.
pub proof fn words_stand_alone(text: Seq<char>, term: Seq<char>, start: int)
    requires
        text::occurs_at(text, term, start),
    ensures
        spec_stands_alone(text, start, term.len() as int) == is_word_at(text, term, start),
{
    reveal(spec_stands_alone);
    reveal(spec_identifier_after);
    let end = start + term.len();
    if start > 0 {
        assert(text::spec_take(text, start)[start - 1] == text[start - 1]);
    }
    let rest = text::spec_skip(text, start);
    if start < text.len() {
        assert(rest == text.skip(start));
        if end < text.len() {
            assert(text::spec_skip(rest, term.len() as int) == rest.skip(term.len() as int));
            assert(rest.skip(term.len() as int)[0] == text[end]);
        }
    }
}

/// A word that is an identifier is among the matches from a position before it on.
proof fn words_are_matched(text: Seq<char>, term: Seq<char>, i: int, start: int)
    requires
        term.len() > 0,
        spec_all_identifier(term),
        is_word_at(text, term, start),
        0 <= i <= start,
    ensures
        text::matches_from(text, term, i).contains(start),
    decreases start - i,
{
    text::lemma_find_from(text, term, i);
    let found = text::find_from(text, term, i);
    assert(text::occurs_at(text, term, start));
    let k = found->0;
    let later = text::matches_from(text, term, k + term.len());
    let all = text::matches_from(text, term, i);
    assert(all == seq![k] + later);
    if k == start {
        assert(all[0] == start);
    } else {
        if k + term.len() > start {
            assert(text.subrange(k, k + term.len()) == term);
            assert(text.subrange(k, k + term.len())[start - 1 - k] == text[start - 1]);
            assert(text::spec_is_ascii_identifier_character(term[start - 1 - k]));
        }
        words_are_matched(text, term, k + term.len(), start);
        let n = choose|n: int| 0 <= n < later.len() && later[n] == start;
        assert(all[n + 1] == start);
    }
}

/// Matches are where the term stands.
proof fn matches_are_found(text: Seq<char>, term: Seq<char>, i: int, n: int)
    requires
        0 <= i,
        0 <= n < text::matches_from(text, term, i).len(),
    ensures
        text::occurs_at(text, term, text::matches_from(text, term, i)[n]),
    decreases n,
{
    text::lemma_find_from(text, term, i);
    if n > 0 {
        let k = text::find_from(text, term, i)->0;
        matches_are_found(text, term, k + text::match_step(term), n - 1);
    }
}

/// A text holds an identifier as a word where it stands somewhere and touches no other character
/// of an identifier.
pub proof fn identifiers_are_held_as_words(text: Seq<char>, term: Seq<char>)
    requires
        term.len() > 0,
        spec_all_identifier(term),
    ensures
        spec_contains_word(text, term) <==> exists|start: int| #[trigger]
            is_word_at(text, term, start),
{
    reveal(spec_contains_word);
    let starts = text::spec_match_indices(text, term);
    if spec_contains_word(text, term) {
        let n = choose|n: int|
            #![trigger starts[n]]
            0 <= n < starts.len() && spec_stands_alone(text, starts[n], term.len() as int);
        matches_are_found(text, term, 0, n);
        words_stand_alone(text, term, starts[n]);
    }
    if exists|start: int| #[trigger] is_word_at(text, term, start) {
        let start = choose|start: int| #[trigger] is_word_at(text, term, start);
        words_are_matched(text, term, 0, start);
        let n = choose|n: int| 0 <= n < starts.len() && starts[n] == start;
        words_stand_alone(text, term, starts[n]);
    }
}

/// What stands in the end of a text stands in the text.
proof fn found_after_more(before: Seq<char>, text: Seq<char>, pattern: Seq<char>, start: int)
    requires
        text::occurs_at(text, pattern, start),
    ensures
        text::occurs_at(before + text, pattern, before.len() + start),
{
    let whole = before + text;
    let from = before.len() + start;
    assert(whole.subrange(from, from + pattern.len()) =~= text.subrange(
        start,
        start + pattern.len(),
    ));
}

/// What the end of a text holds, the text holds.
proof fn contained_after_more(before: Seq<char>, text: Seq<char>, pattern: Seq<char>)
    requires
        text::spec_contains(text, pattern),
    ensures
        text::spec_contains(before + text, pattern),
{
    let start = choose|start: int| #[trigger] text::occurs_at(text, pattern, start);
    found_after_more(before, text, pattern, start);
}

/// White space is taken out of both parts of a text.
proof fn compacted_in_parts(before: Seq<char>, text: Seq<char>)
    ensures
        text::spec_compact_all_whitespace(before + text) == text::spec_compact_all_whitespace(before)
            + text::spec_compact_all_whitespace(text),
    decreases text.len(),
{
    if text.len() == 0 {
        assert(before + text =~= before);
        assert(text::spec_compact_all_whitespace(before) + Seq::<char>::empty()
            =~= text::spec_compact_all_whitespace(before));
    } else {
        compacted_in_parts(before, text.drop_last());
        assert((before + text).drop_last() =~= before + text.drop_last());
        assert((before + text).last() == text.last());
        assert(text::spec_compact_all_whitespace(before + text)
            =~= text::spec_compact_all_whitespace(before) + text::spec_compact_all_whitespace(text));
    }
}

/// A text still holds a term after something is put before it, as long as no identifier touches
/// it.
pub proof fn terms_are_held_after_more(before: Seq<char>, text: Seq<char>, term: Seq<char>)
    requires
        term.len() > 0,
        before.len() > 0,
        !text::spec_is_ascii_identifier_character(before.last()),
        spec_contains_ascii_case_insensitive(text, term),
    ensures
        spec_contains_ascii_case_insensitive(before + text, term),
{
    reveal(spec_contains_ascii_case_insensitive);
    reveal(spec_contains_required_term_match);
    reveal(spec_contains_natural_compound_required_term);
    let lower_before = text::spec_lowercase(before);
    let lower_text = text::spec_lowercase(text);
    let lower_term = text::spec_lowercase(term);
    let whole = text::spec_lowercase(before + text);
    assert(whole =~= lower_before + lower_text);
    assert(lower_before.last() == before.last());
    compacted_in_parts(lower_before, lower_text);
    let compact_before = text::spec_compact_all_whitespace(lower_before);
    let compact_text = text::spec_compact_all_whitespace(lower_text);
    if spec_contains_required_term_match(lower_text, lower_term) {
        if !spec_all_identifier(lower_term) {
            contained_after_more(lower_before, lower_text, lower_term);
        } else {
            identifiers_are_held_as_words(lower_text, lower_term);
            let start = choose|start: int| #[trigger] is_word_at(lower_text, lower_term, start);
            found_after_more(lower_before, lower_text, lower_term, start);
            let moved = lower_before.len() + start;
            assert(is_word_at(whole, lower_term, moved)) by {
                if start > 0 {
                    assert(whole[moved - 1] == lower_text[start - 1]);
                } else {
                    assert(whole[moved - 1] == lower_before.last());
                }
                if moved + lower_term.len() < whole.len() {
                    assert(whole[moved + lower_term.len()] == lower_text[start + lower_term.len()]);
                }
            }
            identifiers_are_held_as_words(whole, lower_term);
        }
    } else if spec_any_whitespace(lower_term) && text::spec_contains(
        compact_text,
        text::spec_compact_all_whitespace(lower_term),
    ) {
        contained_after_more(
            compact_before,
            compact_text,
            text::spec_compact_all_whitespace(lower_term),
        );
    } else {
        let parts = text::spec_words(lower_term);
        assert forall|i: int| #![trigger parts[i]] 0 <= i < parts.len() implies (
        text::spec_contains(whole, parts[i]) || text::spec_contains(
            text::spec_compact_all_whitespace(whole),
            text::spec_compact_all_whitespace(parts[i]),
        )) by {
            if text::spec_contains(lower_text, parts[i]) {
                contained_after_more(lower_before, lower_text, parts[i]);
            } else {
                contained_after_more(
                    compact_before,
                    compact_text,
                    text::spec_compact_all_whitespace(parts[i]),
                );
            }
        }
    }
}

/// A text holds a term that stands in it and touches no character of an identifier.
pub proof fn words_are_held(text: Seq<char>, term: Seq<char>, start: int)
    requires
        term.len() > 0,
        is_word_at(text, term, start),
    ensures
        spec_contains_ascii_case_insensitive(text, term),
{
    reveal(spec_contains_ascii_case_insensitive);
    reveal(spec_contains_required_term_match);
    let lower_text = text::spec_lowercase(text);
    let lower_term = text::spec_lowercase(term);
    assert(lower_text.subrange(start, start + lower_term.len()) =~= lower_term) by {
        assert forall|i: int| 0 <= i < term.len() implies lower_text[start + i] == lower_term[i] by {
            assert(text.subrange(start, start + term.len())[i] == text[start + i]);
        }
    }
    assert(text::occurs_at(lower_text, lower_term, start));
    if spec_all_identifier(lower_term) {
        assert(is_word_at(lower_text, lower_term, start));
        identifiers_are_held_as_words(lower_text, lower_term);
    }
}

/// Where each text of a list stands among them all, joined by a separator.
proof fn joined_texts_have_places(list: Seq<Seq<char>>, separator: Seq<char>, k: int) -> (start: int)
    requires
        0 <= k < list.len(),
    ensures
        ({
            let joined = text::spec_join(list, separator);
            &&& text::occurs_at(joined, list[k], start)
            &&& start == 0 || (start >= separator.len() && text::occurs_at(
                joined,
                separator,
                start - separator.len(),
            ))
            &&& start + list[k].len() == joined.len() || text::occurs_at(
                joined,
                separator,
                start + list[k].len(),
            )
        }),
    decreases list.len(),
{
    let joined = text::spec_join(list, separator);
    if list.len() == 1 {
        assert(joined.subrange(0, joined.len() as int) =~= list[0]);
        0
    } else {
        let head = text::spec_join(list.drop_last(), separator);
        assert(joined == head + separator + list.last());
        if k == list.len() - 1 {
            let start = (head.len() + separator.len()) as int;
            assert(joined.subrange(start, start + list[k].len()) =~= list[k]);
            assert(joined.subrange(head.len() as int, start) =~= separator);
            assert(text::occurs_at(joined, separator, head.len() as int));
            start
        } else {
            let start = joined_texts_have_places(list.drop_last(), separator, k);
            let end = start + list[k].len();
            assert(list.drop_last()[k] == list[k]);
            assert(joined.subrange(start, end) =~= head.subrange(start, end));
            if start > 0 {
                assert(joined.subrange(start - separator.len(), start) =~= head.subrange(
                    start - separator.len(),
                    start,
                ));
            }
            if end == head.len() {
                assert(joined.subrange(end, end + separator.len()) =~= separator);
            } else {
                assert(joined.subrange(end, end + separator.len()) =~= head.subrange(
                    end,
                    end + separator.len(),
                ));
            }
            start
        }
    }
}

/// A list of terms with strokes between them, put before a text with a colon, holds each term.
pub proof fn listed_terms_are_held(list: Seq<Seq<char>>, output: Seq<char>, k: int)
    requires
        0 <= k < list.len(),
        list[k].len() > 0,
    ensures
        spec_contains_ascii_case_insensitive(
            text::spec_join(list, "/"@) + ": "@ + output,
            list[k],
        ),
{
    reveal_strlit("/");
    reveal_strlit(": ");
    let joined = text::spec_join(list, "/"@);
    let whole = joined + ": "@ + output;
    let start = joined_texts_have_places(list, "/"@, k);
    let end = start + list[k].len();
    assert(whole.subrange(start, end) =~= joined.subrange(start, end));
    if start > 0 {
        assert(joined.subrange(start - 1, start)[0] == joined[start - 1]);
        assert(whole[start - 1] == '/');
    }
    if end < joined.len() {
        assert(joined.subrange(end, end + 1)[0] == joined[end]);
        assert(whole[end] == '/');
    } else {
        assert(whole[end] == ':');
    }
    assert(is_word_at(whole, list[k], start));
    words_are_held(whole, list[k], start);
}

/// The absent terms are those that the text does not hold.
pub proof fn absent_terms_are_not_held(terms: Seq<Seq<char>>, text: Seq<char>, term: Seq<char>)
    ensures
        spec_absent_terms(terms, text).contains(term) <==> terms.contains(term)
            && !spec_contains_ascii_case_insensitive(text, term),
    decreases terms.len(),
{
    reveal(spec_absent_terms);
    reveal(Seq::filter);
    if terms.len() > 0 {
        let earlier = terms.drop_last();
        absent_terms_are_not_held(earlier, text, term);
        let out = spec_absent_terms(earlier, text);
        let all = spec_absent_terms(terms, text);
        assert(terms.contains(term) <==> earlier.contains(term) || term == terms.last()) by {
            if earlier.contains(term) {
                let n = choose|n: int| 0 <= n < earlier.len() && earlier[n] == term;
                assert(terms[n] == term);
            }
            if terms.contains(term) && term != terms.last() {
                let n = choose|n: int| 0 <= n < terms.len() && terms[n] == term;
                assert(earlier[n] == term);
            }
            assert(terms[terms.len() - 1] == terms.last());
        }
        if !spec_contains_ascii_case_insensitive(text, terms.last()) {
            assert(all == out.push(terms.last()));
            assert(all.contains(term) <==> out.contains(term) || term == terms.last()) by {
                if out.contains(term) {
                    let n = choose|n: int| 0 <= n < out.len() && out[n] == term;
                    assert(all[n] == term);
                }
                if all.contains(term) && term != terms.last() {
                    let n = choose|n: int| 0 <= n < all.len() && all[n] == term;
                    assert(out[n] == term);
                }
                assert(all[all.len() - 1] == terms.last());
            }
        }
    }
}

/// Whether a text holds a term does not depend on the case of ASCII letters in either.
pub proof fn terms_are_held_in_either_case(
    text: Seq<char>,
    other_text: Seq<char>,
    term: Seq<char>,
    other_term: Seq<char>,
)
    requires
        text::spec_same_ignoring_case(text, other_text),
        text::spec_same_ignoring_case(term, other_term),
    ensures
        spec_contains_ascii_case_insensitive(text, term) == spec_contains_ascii_case_insensitive(
            other_text,
            other_term,
        ),
{
    reveal(spec_contains_ascii_case_insensitive);
}

/// A text without white space is one word at most.
proof fn unbroken_text_is_one_word(text: Seq<char>)
    requires
        forall|i: int| 0 <= i < text.len() ==> !text::spec_is_whitespace(#[trigger] text[i]),
    ensures
        text.len() > 0 ==> text::spec_words(text) == seq![text],
        text.len() == 0 ==> text::spec_words(text).len() == 0,
    decreases text.len(),
{
    if text.len() > 0 {
        let shorter = text.drop_last();
        assert forall|i: int| 0 <= i < shorter.len() implies !text::spec_is_whitespace(
            #[trigger] shorter[i],
        ) by {
            assert(shorter[i] == text[i]);
        }
        unbroken_text_is_one_word(shorter);
        assert(text.last() == text[text.len() - 1]);
        if text.len() == 1 {
            assert(seq![text.last()] =~= text);
            assert(text::spec_words(shorter) =~= Seq::empty());
            assert(text::spec_words(text) =~= seq![text]);
        } else {
            assert(!text::spec_is_whitespace(text[text.len() - 2]));
            assert(shorter.push(text.last()) =~= text);
            assert(seq![shorter].drop_last().push(text) =~= seq![text]);
        }
    }
}

/// An identifier is held exactly where it stands in the text as a word of its own, in whatever case:
/// a longer word that begins or ends with it does not hold it.
pub proof fn identifiers_are_held_whole(text: Seq<char>, term: Seq<char>)
    requires
        term.len() > 0,
        spec_all_identifier(text::spec_lowercase(term)),
    ensures
        spec_contains_ascii_case_insensitive(text, term) <==> exists|start: int| #[trigger]
            is_word_at(text::spec_lowercase(text), text::spec_lowercase(term), start),
{
    reveal(spec_contains_ascii_case_insensitive);
    reveal(spec_contains_required_term_match);
    reveal(spec_contains_natural_compound_required_term);
    let lower_text = text::spec_lowercase(text);
    let lower_term = text::spec_lowercase(term);
    assert(lower_term.len() == term.len());
    assert forall|i: int| 0 <= i < lower_term.len() implies !text::spec_is_whitespace(
        #[trigger] lower_term[i],
    ) by {
        assert(text::spec_is_ascii_identifier_character(lower_term[i]));
    }
    unbroken_text_is_one_word(lower_term);
    assert(!spec_any_whitespace(lower_term));
    identifiers_are_held_as_words(lower_text, lower_term);
}

/// The text tells what a request is about in place of carrying it out: it holds, in whatever case, a
/// phrase that speaks of the user, the task or the prompt.
pub open spec fn speaks_of_the_request(text: Seq<char>) -> bool {
    ||| parts::holds_in_some_case(text, "given a natural language description"@)
    ||| parts::holds_in_some_case(text, "create a prompt"@)
    ||| parts::holds_in_some_case(text, "summarize the task"@)
    ||| parts::holds_in_some_case(text, "the user wants"@)
    ||| parts::holds_in_some_case(text, "ユーザーの依頼"@)
    ||| parts::holds_in_some_case(text, "プロンプトを作成"@)
    ||| parts::holds_in_some_case(text, "タスクを要約"@)
}

/// An output describes its request exactly where it speaks of the user, the task or the prompt.
pub proof fn descriptions_speak_of_the_request(output: Seq<char>)
    ensures
        spec_is_meta_task_restatement(output) <==> speaks_of_the_request(text::spec_trim(output)),
{
    reveal(spec_is_meta_task_restatement);
    reveal_strlit("given a natural language description");
    reveal_strlit("create a prompt");
    reveal_strlit("summarize the task");
    reveal_strlit("the user wants");
    reveal_strlit("ユーザーの依頼");
    reveal_strlit("プロンプトを作成");
    reveal_strlit("タスクを要約");
    let trimmed = text::spec_trim(output);
    let words = META_TASK_MARKERS@;
    assert forall|k: int| 0 <= k < words.len() implies (parts::holds_in_some_case(
        trimmed,
        #[trigger] words[k]@,
    ) <==> text::spec_contains(text::spec_lowercase(trimmed), words[k]@)) by {
        parts::held_in_lower_case(trimmed, words[k]@);
        parts::lower_case_stays(words[k]@);
    }
    assert(words[0]@ == "given a natural language description"@ && words[1]@ == "create a prompt"@
        && words[2]@ == "summarize the task"@ && words[3]@ == "the user wants"@ && words[4]@
        == "ユーザーの依頼"@ && words[5]@ == "プロンプトを作成"@ && words[6]@ == "タスクを要約"@);
}

/// A text is Japanese exactly where it holds a kana or an ideograph.
pub proof fn japanese_texts_hold_kana_or_ideographs(text: Seq<char>)
    ensures
        spec_contains_japanese_text(text) <==> exists|i: int|
            0 <= i < text.len() && ('\u{3040}' <= #[trigger] text[i] <= '\u{30ff}' || '\u{3400}'
                <= text[i] <= '\u{9fff}'),
{
    reveal(spec_contains_japanese_text);
    if spec_contains_japanese_text(text) {
        let i = choose|i: int|
            #![trigger text[i]]
            0 <= i < text.len() && spec_is_japanese_character(text[i]);
        assert('\u{3040}' <= text[i] <= '\u{30ff}' || '\u{3400}' <= text[i] <= '\u{9fff}');
    }
    if exists|i: int|
        0 <= i < text.len() && ('\u{3040}' <= #[trigger] text[i] <= '\u{30ff}' || '\u{3400}'
            <= text[i] <= '\u{9fff}') {
        let i = choose|i: int|
            0 <= i < text.len() && ('\u{3040}' <= #[trigger] text[i] <= '\u{30ff}' || '\u{3400}'
                <= text[i] <= '\u{9fff}');
        assert(spec_is_japanese_character(text[i]));
    }
}

/// A text holds one of the markers exactly where it holds one of them in whatever case.
pub proof fn markers_are_found_in_some_case(text: Seq<char>, markers: Seq<&str>)
    ensures
        spec_contains_any_marker(text, markers) <==> exists|i: int|
            0 <= i < markers.len() && parts::holds_in_some_case(text, #[trigger] markers[i]@),
{
    assert forall|i: int| 0 <= i < markers.len() implies (parts::holds_in_some_case(
        text,
        #[trigger] markers[i]@,
    ) <==> text::spec_contains(text::spec_lowercase(text), text::spec_lowercase(markers[i]@))) by {
        parts::held_in_lower_case(text, markers[i]@);
    }
    if spec_contains_any_marker(text, markers) {
        let i = choose|i: int|
            #![trigger markers[i]]
            0 <= i < markers.len() && text::spec_contains(
                text::spec_lowercase(text),
                text::spec_lowercase(markers[i]@),
            );
        assert(parts::holds_in_some_case(text, markers[i]@));
    }
    if exists|i: int|
        0 <= i < markers.len() && parts::holds_in_some_case(text, #[trigger] markers[i]@) {
        let i = choose|i: int|
            0 <= i < markers.len() && parts::holds_in_some_case(text, #[trigger] markers[i]@);
        assert(text::spec_contains(text::spec_lowercase(text), text::spec_lowercase(markers[i]@)));
    }
}

/// A term of several words, not all of them ASCII, is held where the text holds each of its words,
/// in upper or lower case and wherever they stand.
pub proof fn compound_terms_are_held_by_their_words(text: Seq<char>, term: Seq<char>, k: int)
    requires
        text::spec_words(text::spec_lowercase(term)).len() >= 2,
        0 <= k < text::spec_words(text::spec_lowercase(term)).len(),
        exists|i: int|
            0 <= i < text::spec_words(text::spec_lowercase(term))[k].len()
                && #[trigger] text::spec_words(text::spec_lowercase(term))[k][i] > '\u{7f}',
        forall|n: int|
            0 <= n < text::spec_words(text::spec_lowercase(term)).len() ==> text::spec_contains(
                text::spec_lowercase(text),
                #[trigger] text::spec_words(text::spec_lowercase(term))[n],
            ),
    ensures
        spec_contains_ascii_case_insensitive(text, term),
{
    reveal(spec_contains_ascii_case_insensitive);
    reveal(spec_contains_natural_compound_required_term);
    let words = text::spec_words(text::spec_lowercase(term));
    let i = choose|i: int| 0 <= i < words[k].len() && #[trigger] words[k][i] > '\u{7f}';
    assert(!text::spec_is_ascii(words[k]));
}

/// A phrase of ASCII words is held only where the text holds it as a whole, with or without its
/// white space.
pub proof fn ascii_phrases_are_held_as_a_whole(text: Seq<char>, term: Seq<char>)
    requires
        forall|k: int|
            0 <= k < text::spec_words(text::spec_lowercase(term)).len() ==> text::spec_is_ascii(
                #[trigger] text::spec_words(text::spec_lowercase(term))[k],
            ),
        spec_contains_ascii_case_insensitive(text, term),
    ensures
        text::spec_contains(text::spec_lowercase(text), text::spec_lowercase(term))
            || text::spec_contains(
            text::spec_compact_all_whitespace(text::spec_lowercase(text)),
            text::spec_compact_all_whitespace(text::spec_lowercase(term)),
        ),
{
    reveal(spec_contains_ascii_case_insensitive);
    reveal(spec_contains_natural_compound_required_term);
    reveal(spec_contains_required_term_match);
    let lower = text::spec_lowercase(text);
    let word = text::spec_lowercase(term);
    if spec_all_identifier(word) && spec_contains_word(lower, word) {
        reveal(spec_contains_word);
        let starts = text::spec_match_indices(lower, word);
        let n = choose|n: int|
            #![trigger starts[n]]
            0 <= n < starts.len() && spec_stands_alone(lower, starts[n], word.len() as int);
        matches_are_found(lower, word, 0, n);
        assert(text::occurs_at(lower, word, starts[n]));
    }
}

} // verus!
