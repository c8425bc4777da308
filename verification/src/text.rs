//! Text as sequences of characters: the operations on strings that the rest of the library
//! is written in, each with its value over `Seq<char>`.
use vstd::prelude::*;
use crate::contents;

verus! {

broadcast use crate::contents::group_contents;

/// `String::push` appends the character to the end of the string.
pub assume_specification[ String::push ](s: &mut String, c: char)
    ensures
        final(s)@ == old(s)@.push(c),
;

// ---------------------------------------------------------------------------------------
// Characters
// ---------------------------------------------------------------------------------------

/// The characters of the Unicode property `White_Space`.
pub open spec fn spec_is_whitespace(c: char) -> bool {
    ||| '\u{9}' <= c && c <= '\u{d}'
    ||| c == ' '
    ||| c == '\u{85}'
    ||| c == '\u{a0}'
    ||| c == '\u{1680}'
    ||| '\u{2000}' <= c && c <= '\u{200a}'
    ||| c == '\u{2028}'
    ||| c == '\u{2029}'
    ||| c == '\u{202f}'
    ||| c == '\u{205f}'
    ||| c == '\u{3000}'
}

/// Whether the character has the Unicode property `White_Space`.
pub fn is_whitespace(c: char) -> (r: bool)
    ensures
        r == spec_is_whitespace(c),
{
    ('\u{9}' <= c && c <= '\u{d}') || c == ' ' || c == '\u{85}' || c == '\u{a0}' || c == '\u{1680}'
        || ('\u{2000}' <= c && c <= '\u{200a}') || c == '\u{2028}' || c == '\u{2029}'
        || c == '\u{202f}' || c == '\u{205f}' || c == '\u{3000}'
}

/// The control characters of the categories C0, C1 and DEL.
pub open spec fn spec_is_control(c: char) -> bool {
    c <= '\u{1f}' || ('\u{7f}' <= c && c <= '\u{9f}')
}

/// Whether the character is a control character.
pub fn is_control(c: char) -> (r: bool)
    ensures
        r == spec_is_control(c),
{
    c <= '\u{1f}' || ('\u{7f}' <= c && c <= '\u{9f}')
}

/// An ASCII decimal digit.
pub open spec fn spec_is_digit(c: char) -> bool {
    '0' <= c && c <= '9'
}

/// Whether the character is an ASCII decimal digit.
pub fn is_digit(c: char) -> (r: bool)
    ensures
        r == spec_is_digit(c),
{
    '0' <= c && c <= '9'
}

/// An ASCII lower case letter.
pub open spec fn spec_is_lower(c: char) -> bool {
    'a' <= c && c <= 'z'
}

/// Whether the character is an ASCII lower case letter.
pub fn is_lower(c: char) -> (r: bool)
    ensures
        r == spec_is_lower(c),
{
    'a' <= c && c <= 'z'
}

/// An ASCII upper case letter.
pub open spec fn spec_is_upper(c: char) -> bool {
    'A' <= c && c <= 'Z'
}

/// Whether the character is an ASCII upper case letter.
pub fn is_upper(c: char) -> (r: bool)
    ensures
        r == spec_is_upper(c),
{
    'A' <= c && c <= 'Z'
}

/// An ASCII letter.
pub open spec fn spec_is_alpha(c: char) -> bool {
    spec_is_lower(c) || spec_is_upper(c)
}

/// Whether the character is an ASCII letter.
pub fn is_alpha(c: char) -> (r: bool)
    ensures
        r == spec_is_alpha(c),
{
    is_lower(c) || is_upper(c)
}

/// An ASCII letter or digit.
pub open spec fn spec_is_alnum(c: char) -> bool {
    spec_is_alpha(c) || spec_is_digit(c)
}

/// Whether the character is an ASCII letter or digit.
pub fn is_alnum(c: char) -> (r: bool)
    ensures
        r == spec_is_alnum(c),
{
    is_alpha(c) || is_digit(c)
}

/// A letter, digit or underscore: what an ASCII identifier is made of.
pub open spec fn spec_is_ascii_identifier_character(c: char) -> bool {
    spec_is_alnum(c) || c == '_'
}

/// Whether an ASCII identifier may hold the character.
pub fn is_ascii_identifier_character(c: char) -> (r: bool)
    ensures
        r == spec_is_ascii_identifier_character(c),
{
    is_alnum(c) || c == '_'
}

/// The code of the character lies between the bounds.
pub open spec fn spec_char_between(c: char, low: int, high: int) -> bool {
    low <= c as int && c as int <= high
}

/// Whether the code of the character lies between the bounds.
pub fn char_between(c: char, low: usize, high: usize) -> (r: bool)
    ensures
        r == spec_char_between(c, low as int, high as int),
{
    let code: u32 = c as u32;
    low <= code as usize && code as usize <= high
}

/// The lower case form of an ASCII letter; any other character itself.
pub open spec fn spec_lower_char(c: char) -> char {
    if spec_is_upper(c) {
        ((c as u32) + 32) as char
    } else {
        c
    }
}

/// The upper case form of an ASCII letter; any other character itself.
pub open spec fn spec_upper_char(c: char) -> char {
    if spec_is_lower(c) {
        ((c as u32) - 32) as char
    } else {
        c
    }
}

/// Maps an ASCII letter to lower case and leaves any other character.
pub fn lower_char(c: char) -> (r: char)
    ensures
        r == spec_lower_char(c),
{
    if is_upper(c) {
        let byte: u8 = c as u8;
        (byte + 32) as char
    } else {
        c
    }
}

/// Maps an ASCII letter to upper case and leaves any other character.
pub fn upper_char(c: char) -> (r: char)
    ensures
        r == spec_upper_char(c),
{
    if is_lower(c) {
        let byte: u8 = c as u8;
        (byte - 32) as char
    } else {
        c
    }
}

// ---------------------------------------------------------------------------------------
// Strings and character vectors
// ---------------------------------------------------------------------------------------

/// The characters of a string.
pub fn to_chars(text: &str) -> (r: Vec<char>)
    ensures
        r@ == text@,
{
    let mut out: Vec<char> = Vec::new();
    for c in it: text.chars()
        invariant
            out@ == text@.take(it.index() as int),
            it.seq() == text@,
    {
        out.push(c);
    }
    out
}

/// The string made of the characters from `start` up to `end`.
pub fn from_range(chars: &[char], start: usize, end: usize) -> (r: String)
    requires
        start <= end <= chars@.len(),
    ensures
        r@ == chars@.subrange(start as int, end as int),
{
    let mut out: String = String::new();
    let mut i: usize = start;
    while i < end
        invariant
            start <= i <= end <= chars@.len(),
            out@ == chars@.subrange(start as int, i as int),
        decreases end - i,
    {
        out.push(chars[i]);
        i = i + 1;
    }
    out
}

/// The number of characters.
pub fn char_count(text: &str) -> (r: usize)
    ensures
        r == text@.len(),
{
    text.unicode_len()
}

/// Whether two texts hold the same characters.
pub fn same(a: &str, b: &str) -> (r: bool)
    ensures
        r == (a@ == b@),
{
    let left: String = a.to_owned();
    let right: String = b.to_owned();
    left == right
}

/// The texts one after the other.
pub fn concat2(a: &str, b: &str) -> (r: String)
    ensures
        r@ == a@ + b@,
{
    a.to_owned().concat(b)
}

/// The texts one after the other.
pub fn concat3(a: &str, b: &str, c: &str) -> (r: String)
    ensures
        r@ == a@ + b@ + c@,
{
    a.to_owned().concat(b).concat(c)
}

/// The texts one after the other.
pub fn concat4(a: &str, b: &str, c: &str, d: &str) -> (r: String)
    ensures
        r@ == a@ + b@ + c@ + d@,
{
    a.to_owned().concat(b).concat(c).concat(d)
}

/// The texts one after the other.
pub fn concat5(a: &str, b: &str, c: &str, d: &str, e: &str) -> (r: String)
    ensures
        r@ == a@ + b@ + c@ + d@ + e@,
{
    a.to_owned().concat(b).concat(c).concat(d).concat(e)
}

/// A copy of a list of strings.
pub fn copy_list(list: &Vec<String>) -> (r: Vec<String>)
    ensures
        contents::views(r@) == contents::views(list@),
{
    let mut out: Vec<String> = Vec::new();
    for i in 0..list.len()
        invariant
            contents::views(out@) == contents::views(list@).take(i as int),
    {
        out.push(list[i].clone());
        assert(contents::views(out@) =~= contents::views(list@).take(i + 1));
    }
    assert(contents::views(list@).take(list@.len() as int) =~= contents::views(list@));
    out
}

/// Whether the list holds the text.
pub fn list_has(list: &Vec<String>, text: &str) -> (r: bool)
    ensures
        r == contents::views(list@).contains(text@),
{
    for i in 0..list.len()
        invariant
            forall|j: int| 0 <= j < i ==> contents::views(list@)[j] != text@,
    {
        if same(&list[i], text) {
            assert(contents::views(list@)[i as int] == text@);
            return true;
        }
    }
    false
}

// ---------------------------------------------------------------------------------------
// Searching
// ---------------------------------------------------------------------------------------

/// The pattern stands in the text at the position.
pub open spec fn occurs_at(text: Seq<char>, pattern: Seq<char>, i: int) -> bool {
    &&& 0 <= i
    &&& i + pattern.len() <= text.len()
    &&& text.subrange(i, i + pattern.len()) == pattern
}

/// The first position from `i` on at which the pattern stands in the text.
pub open spec fn find_from(text: Seq<char>, pattern: Seq<char>, i: int) -> Option<int>
    decreases text.len() - i + 1,
{
    if i + pattern.len() > text.len() {
        None
    } else if occurs_at(text, pattern, i) {
        Some(i)
    } else {
        find_from(text, pattern, i + 1)
    }
}

/// The first position at which the pattern stands in the text.
pub open spec fn spec_find(text: Seq<char>, pattern: Seq<char>) -> Option<int> {
    find_from(text, pattern, 0)
}

/// The text holds the pattern.
pub open spec fn spec_contains(text: Seq<char>, pattern: Seq<char>) -> bool {
    exists|i: int| #[trigger] occurs_at(text, pattern, i)
}

/// A found position is the first one, and nothing is found only where nothing stands.
pub proof fn lemma_find_from(text: Seq<char>, pattern: Seq<char>, i: int)
    requires
        0 <= i,
    ensures
        match find_from(text, pattern, i) {
            Some(k) => i <= k && occurs_at(text, pattern, k) && forall|j: int|
                i <= j < k ==> !#[trigger] occurs_at(text, pattern, j),
            None => forall|j: int| i <= j ==> !#[trigger] occurs_at(text, pattern, j),
        },
    decreases text.len() - i + 1,
{
    if i + pattern.len() > text.len() {
    } else if occurs_at(text, pattern, i) {
    } else {
        lemma_find_from(text, pattern, i + 1);
    }
}

/// Whether the pattern stands at the position.
pub fn matches_at(text: &[char], pattern: &[char], i: usize) -> (r: bool)
    ensures
        r == occurs_at(text@, pattern@, i as int),
{
    if pattern.len() > text.len() || i > text.len() - pattern.len() {
        return false;
    }
    let total: usize = text.len();
    let mut k: usize = 0;
    while k < pattern.len()
        invariant
            k <= pattern@.len(),
            total == text@.len(),
            i + pattern@.len() <= text@.len(),
            forall|j: int| 0 <= j < k ==> text@[i + j] == pattern@[j],
        decreases pattern@.len() - k,
    {
        if text[i + k] != pattern[k] {
            assert(text@.subrange(i as int, i + pattern@.len())[k as int] != pattern@[k as int]);
            return false;
        }
        k = k + 1;
    }
    assert(text@.subrange(i as int, i + pattern@.len()) =~= pattern@);
    true
}

/// The first position from `start` on at which the pattern stands.
pub fn find_chars(text: &[char], pattern: &[char], start: usize) -> (r: Option<usize>)
    ensures
        contents::view_position(r) == find_from(text@, pattern@, start as int),
{
    if pattern.len() > text.len() {
        return None;
    }
    let last: usize = text.len() - pattern.len();
    let mut i: usize = start;
    while i <= last
        invariant
            last + pattern@.len() == text@.len(),
            find_from(text@, pattern@, start as int) == find_from(text@, pattern@, i as int),
        decreases last + 1 - i,
    {
        if matches_at(text, pattern, i) {
            return Some(i);
        }
        if i == last {
            assert(find_from(text@, pattern@, i + 1) is None);
            return None;
        }
        i = i + 1;
    }
    None
}

/// The first position at which the pattern stands in the text.
pub fn find(text: &str, pattern: &str) -> (r: Option<usize>)
    ensures
        contents::view_position(r) == spec_find(text@, pattern@),
{
    find_chars(&to_chars(text), &to_chars(pattern), 0)
}

/// Whether the text holds the pattern.
pub fn contains(text: &str, pattern: &str) -> (r: bool)
    ensures
        r == spec_contains(text@, pattern@),
{
    proof {
        lemma_find_from(text@, pattern@, 0);
    }
    find(text, pattern).is_some()
}

/// The last position not after `i` at which the pattern stands in the text.
pub open spec fn rfind_from(text: Seq<char>, pattern: Seq<char>, i: int) -> Option<int>
    decreases i + 1,
{
    if i < 0 {
        None
    } else if occurs_at(text, pattern, i) {
        Some(i)
    } else {
        rfind_from(text, pattern, i - 1)
    }
}

/// The last position at which the pattern stands in the text.
pub open spec fn spec_rfind(text: Seq<char>, pattern: Seq<char>) -> Option<int> {
    rfind_from(text, pattern, text.len() as int)
}

/// A position found from the end is the last one.
pub proof fn lemma_rfind_from(text: Seq<char>, pattern: Seq<char>, i: int)
    ensures
        match rfind_from(text, pattern, i) {
            Some(k) => 0 <= k <= i && occurs_at(text, pattern, k) && forall|j: int|
                k < j <= i ==> !#[trigger] occurs_at(text, pattern, j),
            None => forall|j: int| j <= i ==> !#[trigger] occurs_at(text, pattern, j),
        },
    decreases i + 1,
{
    if i < 0 {
    } else if occurs_at(text, pattern, i) {
    } else {
        lemma_rfind_from(text, pattern, i - 1);
    }
}

/// The last position at which the pattern stands in the text.
pub fn rfind(text: &str, pattern: &str) -> (r: Option<usize>)
    ensures
        contents::view_position(r) == spec_rfind(text@, pattern@),
{
    let chars: Vec<char> = to_chars(text);
    let wanted: Vec<char> = to_chars(pattern);
    let mut i: usize = chars.len();
    loop
        invariant
            chars@ == text@,
            wanted@ == pattern@,
            i <= chars@.len(),
            spec_rfind(text@, pattern@) == rfind_from(text@, pattern@, i as int),
        decreases i,
    {
        if matches_at(&chars, &wanted, i) {
            return Some(i);
        }
        if i == 0 {
            assert(rfind_from(text@, pattern@, -1) is None);
            return None;
        }
        i = i - 1;
    }
}

/// The distance from one match to the earliest place of the next one.
pub open spec fn match_step(pattern: Seq<char>) -> int {
    if pattern.len() == 0 {
        1
    } else {
        pattern.len() as int
    }
}

/// The positions from `i` on of the matches that do not overlap, taken from the left.
pub open spec fn matches_from(text: Seq<char>, pattern: Seq<char>, i: int) -> Seq<int>
    decreases
            (if i > text.len() {
                0int
            } else {
                text.len() - i + 1
            }),
{
    if i > text.len() {
        Seq::empty()
    } else {
        match find_from(text, pattern, i) {
            None => Seq::empty(),
            Some(k) => if k < i {
                Seq::empty()
            } else {
                seq![k] + matches_from(text, pattern, k + match_step(pattern))
            },
        }
    }
}

/// The positions of the matches that do not overlap, taken from the left.
pub open spec fn spec_match_indices(text: Seq<char>, pattern: Seq<char>) -> Seq<int> {
    matches_from(text, pattern, 0)
}

/// The positions of the matches that do not overlap, taken from the left.
pub fn match_indices(text: &str, pattern: &str) -> (r: Vec<usize>)
    ensures
        contents::positions(r@) == spec_match_indices(text@, pattern@),
        forall|j: int| 0 <= j < r@.len() ==> occurs_at(text@, pattern@, #[trigger] r@[j] as int),
{
    let chars: Vec<char> = to_chars(text);
    let wanted: Vec<char> = to_chars(pattern);
    let step: usize = if wanted.len() == 0 {
        1
    } else {
        wanted.len()
    };
    let mut out: Vec<usize> = Vec::new();
    let mut i: usize = 0;
    while i <= chars.len()
        invariant
            chars@ == text@,
            wanted@ == pattern@,
            step == match_step(pattern@),
            spec_match_indices(text@, pattern@) == contents::positions(out@) + matches_from(
                text@,
                pattern@,
                i as int,
            ),
            forall|j: int|
                0 <= j < out@.len() ==> occurs_at(text@, pattern@, #[trigger] out@[j] as int),
        decreases chars@.len() + 1 - i,
    {
        proof {
            lemma_find_from(text@, pattern@, i as int);
        }
        match find_chars(&chars, &wanted, i) {
            None => {
                return out;
            },
            Some(k) => {
                let ghost before = contents::positions(out@);
                out.push(k);
                assert(contents::positions(out@) =~= before.push(k as int));
                assert(before + matches_from(text@, pattern@, i as int) =~= before.push(k as int)
                    + matches_from(text@, pattern@, k + step));
                if k >= chars.len() {
                    assert(matches_from(text@, pattern@, k + step) =~= Seq::empty());
                    return out;
                }
                if step > chars.len() - k {
                    assert(matches_from(text@, pattern@, k + step) =~= Seq::empty());
                    return out;
                }
                i = k + step;
            },
        }
    }
    out
}

/// The text begins with the pattern.
pub open spec fn spec_starts_with(text: Seq<char>, pattern: Seq<char>) -> bool {
    occurs_at(text, pattern, 0)
}

/// The text ends with the pattern.
pub open spec fn spec_ends_with(text: Seq<char>, pattern: Seq<char>) -> bool {
    occurs_at(text, pattern, text.len() - pattern.len())
}

/// Whether the text begins with the pattern.
pub fn starts_with(text: &str, pattern: &str) -> (r: bool)
    ensures
        r == spec_starts_with(text@, pattern@),
{
    matches_at(&to_chars(text), &to_chars(pattern), 0)
}

/// Whether the text ends with the pattern.
pub fn ends_with(text: &str, pattern: &str) -> (r: bool)
    ensures
        r == spec_ends_with(text@, pattern@),
{
    let chars: Vec<char> = to_chars(text);
    let wanted: Vec<char> = to_chars(pattern);
    wanted.len() <= chars.len() && matches_at(&chars, &wanted, chars.len() - wanted.len())
}

/// What follows the pattern, where the text begins with it.
pub open spec fn spec_strip_prefix(text: Seq<char>, pattern: Seq<char>) -> Option<Seq<char>> {
    if spec_starts_with(text, pattern) {
        Some(text.skip(pattern.len() as int))
    } else {
        None
    }
}

/// What precedes the pattern, where the text ends with it.
pub open spec fn spec_strip_suffix(text: Seq<char>, pattern: Seq<char>) -> Option<Seq<char>> {
    if spec_ends_with(text, pattern) {
        Some(text.take(text.len() - pattern.len()))
    } else {
        None
    }
}

/// What follows the pattern, where the text begins with it.
pub fn strip_prefix(text: &str, pattern: &str) -> (r: Option<String>)
    ensures
        contents::view_option(r) == spec_strip_prefix(text@, pattern@),
{
    let chars: Vec<char> = to_chars(text);
    let wanted: Vec<char> = to_chars(pattern);
    if matches_at(&chars, &wanted, 0) {
        Some(from_range(&chars, wanted.len(), chars.len()))
    } else {
        None
    }
}

/// What precedes the pattern, where the text ends with it.
pub fn strip_suffix(text: &str, pattern: &str) -> (r: Option<String>)
    ensures
        contents::view_option(r) == spec_strip_suffix(text@, pattern@),
{
    let chars: Vec<char> = to_chars(text);
    let wanted: Vec<char> = to_chars(pattern);
    if wanted.len() <= chars.len() && matches_at(&chars, &wanted, chars.len() - wanted.len()) {
        Some(from_range(&chars, 0, chars.len() - wanted.len()))
    } else {
        None
    }
}

/// The first `n` characters, or all of them where there are fewer.
pub open spec fn spec_take(text: Seq<char>, n: int) -> Seq<char> {
    if n >= text.len() {
        text
    } else {
        text.take(n)
    }
}

/// What follows the first `n` characters.
pub open spec fn spec_skip(text: Seq<char>, n: int) -> Seq<char> {
    if n >= text.len() {
        Seq::empty()
    } else {
        text.skip(n)
    }
}

/// The first `n` characters, or all of them where there are fewer.
pub fn take(text: &str, n: usize) -> (r: String)
    ensures
        r@ == spec_take(text@, n as int),
{
    let chars: Vec<char> = to_chars(text);
    if n >= chars.len() {
        text.to_owned()
    } else {
        from_range(&chars, 0, n)
    }
}

/// What follows the first `n` characters.
pub fn skip(text: &str, n: usize) -> (r: String)
    ensures
        r@ == spec_skip(text@, n as int),
{
    let chars: Vec<char> = to_chars(text);
    if n >= chars.len() {
        String::new()
    } else {
        from_range(&chars, n, chars.len())
    }
}

/// The parts before and after the first place of the separator.
pub open spec fn spec_split_once(text: Seq<char>, separator: Seq<char>) -> Option<
    (Seq<char>, Seq<char>),
> {
    match spec_find(text, separator) {
        Some(k) => Some((text.take(k), text.skip(k + separator.len()))),
        None => None,
    }
}

/// The parts before and after the last place of the separator.
pub open spec fn spec_rsplit_once(text: Seq<char>, separator: Seq<char>) -> Option<
    (Seq<char>, Seq<char>),
> {
    match spec_rfind(text, separator) {
        Some(k) => Some((text.take(k), text.skip(k + separator.len()))),
        None => None,
    }
}

/// The parts before and after the first place of the separator.
pub fn split_once(text: &str, separator: &str) -> (r: Option<(String, String)>)
    ensures
        contents::view_pair(r) == spec_split_once(text@, separator@),
{
    proof {
        lemma_find_from(text@, separator@, 0);
    }
    match find(text, separator) {
        Some(k) => {
            let chars: Vec<char> = to_chars(text);
            let width: usize = char_count(separator);
            let total: usize = chars.len();
            Some((from_range(&chars, 0, k), from_range(&chars, k + width, total)))
        },
        None => None,
    }
}

/// The parts before and after the last place of the separator.
pub fn rsplit_once(text: &str, separator: &str) -> (r: Option<(String, String)>)
    ensures
        contents::view_pair(r) == spec_rsplit_once(text@, separator@),
{
    proof {
        lemma_rfind_from(text@, separator@, text@.len() as int);
    }
    match rfind(text, separator) {
        Some(k) => {
            let chars: Vec<char> = to_chars(text);
            let width: usize = char_count(separator);
            let total: usize = chars.len();
            Some((from_range(&chars, 0, k), from_range(&chars, k + width, total)))
        },
        None => None,
    }
}

// ---------------------------------------------------------------------------------------
// Replacing
// ---------------------------------------------------------------------------------------

/// The text from `i` on with every match of the pattern, taken from the left, replaced.
pub open spec fn replaced_from(
    text: Seq<char>,
    pattern: Seq<char>,
    replacement: Seq<char>,
    i: int,
) -> Seq<char>
    decreases text.len() - i,
{
    if i >= text.len() || pattern.len() == 0 {
        text.skip(i)
    } else if occurs_at(text, pattern, i) {
        replacement + replaced_from(text, pattern, replacement, i + pattern.len())
    } else {
        seq![text[i]] + replaced_from(text, pattern, replacement, i + 1)
    }
}

/// The text with every match of the pattern, taken from the left, replaced. An empty pattern
/// replaces nothing.
pub open spec fn spec_replace(
    text: Seq<char>,
    pattern: Seq<char>,
    replacement: Seq<char>,
) -> Seq<char> {
    replaced_from(text, pattern, replacement, 0)
}

/// The text with every match of the pattern, taken from the left, replaced. An empty pattern
/// replaces nothing.
pub fn replace(text: &str, pattern: &str, replacement: &str) -> (r: String)
    ensures
        r@ == spec_replace(text@, pattern@, replacement@),
{
    let chars: Vec<char> = to_chars(text);
    let wanted: Vec<char> = to_chars(pattern);
    if wanted.len() == 0 {
        assert(text@.skip(0) =~= text@);
        return text.to_owned();
    }
    let mut out: String = String::new();
    let mut i: usize = 0;
    while i < chars.len()
        invariant
            chars@ == text@,
            wanted@ == pattern@,
            wanted@.len() > 0,
            i <= chars@.len(),
            spec_replace(text@, pattern@, replacement@) == out@ + replaced_from(
                text@,
                pattern@,
                replacement@,
                i as int,
            ),
        decreases chars@.len() - i,
    {
        if matches_at(&chars, &wanted, i) {
            let ghost before = out@;
            out.append(replacement);
            assert(before + (replacement@ + replaced_from(
                text@,
                pattern@,
                replacement@,
                i + wanted@.len(),
            )) =~= out@ + replaced_from(text@, pattern@, replacement@, i + wanted@.len()));
            i = i + wanted.len();
        } else {
            let ghost before = out@;
            out.push(chars[i]);
            assert(before + (seq![text@[i as int]] + replaced_from(
                text@,
                pattern@,
                replacement@,
                i + 1,
            )) =~= out@ + replaced_from(text@, pattern@, replacement@, i + 1));
            i = i + 1;
        }
    }
    assert(out@ + text@.skip(i as int) =~= out@);
    out
}

/// The replacements of a table applied one after the other.
pub open spec fn spec_replace_all(text: Seq<char>, table: Seq<(&str, &str)>) -> Seq<char>
    decreases table.len(),
{
    if table.len() == 0 {
        text
    } else {
        let (from, to) = table.last();
        spec_replace(spec_replace_all(text, table.drop_last()), from@, to@)
    }
}

/// Applies the replacements of a table one after the other.
pub fn replace_all(text: &str, table: &[(&str, &str)]) -> (r: String)
    ensures
        r@ == spec_replace_all(text@, table@),
{
    let mut out: String = text.to_owned();
    for i in 0..table.len()
        invariant
            out@ == spec_replace_all(text@, table@.take(i as int)),
    {
        assert(table@.take(i + 1).drop_last() =~= table@.take(i as int));
        out = replace(&out, table[i].0, table[i].1);
    }
    assert(table@.take(table@.len() as int) =~= table@);
    out
}

// ---------------------------------------------------------------------------------------
// Trimming
// ---------------------------------------------------------------------------------------

/// What remains when white space at the start is dropped.
pub open spec fn spec_trim_start(text: Seq<char>) -> Seq<char>
    decreases text.len(),
{
    if text.len() > 0 && spec_is_whitespace(text.first()) {
        spec_trim_start(text.drop_first())
    } else {
        text
    }
}

/// What remains when white space at the end is dropped.
pub open spec fn spec_trim_end(text: Seq<char>) -> Seq<char>
    decreases text.len(),
{
    if text.len() > 0 && spec_is_whitespace(text.last()) {
        spec_trim_end(text.drop_last())
    } else {
        text
    }
}

/// What remains when white space at both ends is dropped.
pub open spec fn spec_trim(text: Seq<char>) -> Seq<char> {
    spec_trim_end(spec_trim_start(text))
}

/// What stays of a text trimmed at its start is an end of it that begins with no white space.
pub proof fn trim_start_of(text: Seq<char>)
    ensures
        spec_trim_start(text).len() <= text.len(),
        spec_trim_start(text) == text.skip(text.len() - spec_trim_start(text).len()),
        spec_trim_start(text).len() == 0 || !spec_is_whitespace(spec_trim_start(text)[0]),
    decreases text.len(),
{
    if text.len() > 0 && spec_is_whitespace(text[0]) {
        trim_start_of(text.skip(1));
    }
    assert(spec_trim_start(text) =~= text.skip(text.len() - spec_trim_start(text).len()));
}

/// What stays of a text trimmed at its end is a start of it that ends with no white space.
pub proof fn trim_end_of(text: Seq<char>)
    ensures
        spec_trim_end(text).len() <= text.len(),
        spec_trim_end(text) == text.take(spec_trim_end(text).len() as int),
        spec_trim_end(text).len() == 0 || !spec_is_whitespace(spec_trim_end(text).last()),
    decreases text.len(),
{
    if text.len() > 0 && spec_is_whitespace(text.last()) {
        trim_end_of(text.drop_last());
    }
    assert(spec_trim_end(text) =~= text.take(spec_trim_end(text).len() as int));
}

/// A trimmed text stays the same when it is trimmed again.
pub proof fn trim_is_idempotent(text: Seq<char>)
    ensures
        spec_trim(spec_trim(text)) == spec_trim(text),
{
    let start = spec_trim_start(text);
    let end = spec_trim_end(start);
    trim_start_of(text);
    trim_end_of(start);
    trim_start_of(end);
    trim_end_of(end);
    if end.len() > 0 {
        assert(end[0] == start[0]);
        assert(spec_trim_start(end) == end);
        assert(spec_trim_end(end) == end);
    }
}

/// Drops white space at the start.
pub fn trim_start(text: &str) -> (r: String)
    ensures
        r@ == spec_trim_start(text@),
{
    let chars: Vec<char> = to_chars(text);
    let mut i: usize = 0;
    assert(text@.skip(0) =~= text@);
    while i < chars.len() && is_whitespace(chars[i])
        invariant
            chars@ == text@,
            i <= chars@.len(),
            spec_trim_start(text@) == spec_trim_start(text@.skip(i as int)),
        decreases chars@.len() - i,
    {
        assert(text@.skip(i as int).drop_first() =~= text@.skip(i + 1));
        i = i + 1;
    }
    from_range(&chars, i, chars.len())
}

/// Drops white space at the end.
pub fn trim_end(text: &str) -> (r: String)
    ensures
        r@ == spec_trim_end(text@),
{
    let chars: Vec<char> = to_chars(text);
    let mut end: usize = chars.len();
    assert(text@.take(end as int) =~= text@);
    while end > 0 && is_whitespace(chars[end - 1])
        invariant
            chars@ == text@,
            end <= chars@.len(),
            spec_trim_end(text@) == spec_trim_end(text@.take(end as int)),
        decreases end,
    {
        assert(text@.take(end as int).drop_last() =~= text@.take(end - 1));
        end = end - 1;
    }
    from_range(&chars, 0, end)
}

/// Drops white space at both ends.
pub fn trim(text: &str) -> (r: String)
    ensures
        r@ == spec_trim(text@),
{
    trim_end(&trim_start(text))
}

/// What remains when characters of the set at the start are dropped.
pub open spec fn spec_trim_start_any(text: Seq<char>, set: Seq<char>) -> Seq<char>
    decreases text.len(),
{
    if text.len() > 0 && set.contains(text.first()) {
        spec_trim_start_any(text.drop_first(), set)
    } else {
        text
    }
}

/// What remains when characters of the set at the end are dropped.
pub open spec fn spec_trim_end_any(text: Seq<char>, set: Seq<char>) -> Seq<char>
    decreases text.len(),
{
    if text.len() > 0 && set.contains(text.last()) {
        spec_trim_end_any(text.drop_last(), set)
    } else {
        text
    }
}

/// What remains when characters of the set at both ends are dropped.
pub open spec fn spec_trim_any(text: Seq<char>, set: Seq<char>) -> Seq<char> {
    spec_trim_end_any(spec_trim_start_any(text, set), set)
}

/// Whether the set holds the character.
pub fn set_has(set: &[char], c: char) -> (r: bool)
    ensures
        r == set@.contains(c),
{
    for i in 0..set.len()
        invariant
            forall|j: int| 0 <= j < i ==> set@[j] != c,
    {
        if set[i] == c {
            return true;
        }
    }
    false
}

/// Drops characters of the set at the start.
pub fn trim_start_any(text: &str, set: &str) -> (r: String)
    ensures
        r@ == spec_trim_start_any(text@, set@),
{
    let chars: Vec<char> = to_chars(text);
    let dropped: Vec<char> = to_chars(set);
    let mut i: usize = 0;
    assert(text@.skip(0) =~= text@);
    while i < chars.len() && set_has(&dropped, chars[i])
        invariant
            chars@ == text@,
            dropped@ == set@,
            i <= chars@.len(),
            spec_trim_start_any(text@, set@) == spec_trim_start_any(text@.skip(i as int), set@),
        decreases chars@.len() - i,
    {
        assert(text@.skip(i as int).drop_first() =~= text@.skip(i + 1));
        i = i + 1;
    }
    from_range(&chars, i, chars.len())
}

/// Drops characters of the set at the end.
pub fn trim_end_any(text: &str, set: &str) -> (r: String)
    ensures
        r@ == spec_trim_end_any(text@, set@),
{
    let chars: Vec<char> = to_chars(text);
    let dropped: Vec<char> = to_chars(set);
    let mut end: usize = chars.len();
    assert(text@.take(end as int) =~= text@);
    while end > 0 && set_has(&dropped, chars[end - 1])
        invariant
            chars@ == text@,
            dropped@ == set@,
            end <= chars@.len(),
            spec_trim_end_any(text@, set@) == spec_trim_end_any(text@.take(end as int), set@),
        decreases end,
    {
        assert(text@.take(end as int).drop_last() =~= text@.take(end - 1));
        end = end - 1;
    }
    from_range(&chars, 0, end)
}

/// Drops characters of the set at both ends.
pub fn trim_any(text: &str, set: &str) -> (r: String)
    ensures
        r@ == spec_trim_any(text@, set@),
{
    trim_end_any(&trim_start_any(text, set), set)
}

/// What remains when white space and characters of the set at the start are dropped.
pub open spec fn spec_trim_start_space_or(text: Seq<char>, set: Seq<char>) -> Seq<char>
    decreases text.len(),
{
    if text.len() > 0 && (spec_is_whitespace(text.first()) || set.contains(text.first())) {
        spec_trim_start_space_or(text.drop_first(), set)
    } else {
        text
    }
}

/// What remains when white space and characters of the set at the end are dropped.
pub open spec fn spec_trim_end_space_or(text: Seq<char>, set: Seq<char>) -> Seq<char>
    decreases text.len(),
{
    if text.len() > 0 && (spec_is_whitespace(text.last()) || set.contains(text.last())) {
        spec_trim_end_space_or(text.drop_last(), set)
    } else {
        text
    }
}

/// Drops white space and characters of the set at the start.
pub fn trim_start_space_or(text: &str, set: &str) -> (r: String)
    ensures
        r@ == spec_trim_start_space_or(text@, set@),
{
    let chars: Vec<char> = to_chars(text);
    let dropped: Vec<char> = to_chars(set);
    let mut i: usize = 0;
    assert(text@.skip(0) =~= text@);
    while i < chars.len() && (is_whitespace(chars[i]) || set_has(&dropped, chars[i]))
        invariant
            chars@ == text@,
            dropped@ == set@,
            i <= chars@.len(),
            spec_trim_start_space_or(text@, set@) == spec_trim_start_space_or(
                text@.skip(i as int),
                set@,
            ),
        decreases chars@.len() - i,
    {
        assert(text@.skip(i as int).drop_first() =~= text@.skip(i + 1));
        i = i + 1;
    }
    from_range(&chars, i, chars.len())
}

/// Drops white space and characters of the set at the end.
pub fn trim_end_space_or(text: &str, set: &str) -> (r: String)
    ensures
        r@ == spec_trim_end_space_or(text@, set@),
{
    let chars: Vec<char> = to_chars(text);
    let dropped: Vec<char> = to_chars(set);
    let mut end: usize = chars.len();
    assert(text@.take(end as int) =~= text@);
    while end > 0 && (is_whitespace(chars[end - 1]) || set_has(&dropped, chars[end - 1]))
        invariant
            chars@ == text@,
            dropped@ == set@,
            end <= chars@.len(),
            spec_trim_end_space_or(text@, set@) == spec_trim_end_space_or(
                text@.take(end as int),
                set@,
            ),
        decreases end,
    {
        assert(text@.take(end as int).drop_last() =~= text@.take(end - 1));
        end = end - 1;
    }
    from_range(&chars, 0, end)
}

/// What remains when the suffix is dropped as often as the text ends with it.
pub open spec fn spec_trim_end_text(text: Seq<char>, suffix: Seq<char>) -> Seq<char>
    decreases text.len(),
{
    if suffix.len() > 0 && spec_ends_with(text, suffix) {
        spec_trim_end_text(text.take(text.len() - suffix.len()), suffix)
    } else {
        text
    }
}

/// What remains when the prefix is dropped as often as the text begins with it.
pub open spec fn spec_trim_start_text(text: Seq<char>, prefix: Seq<char>) -> Seq<char>
    decreases text.len(),
{
    if prefix.len() > 0 && spec_starts_with(text, prefix) {
        spec_trim_start_text(text.skip(prefix.len() as int), prefix)
    } else {
        text
    }
}

/// Drops the suffix as often as the text ends with it.
pub fn trim_end_text(text: &str, suffix: &str) -> (r: String)
    ensures
        r@ == spec_trim_end_text(text@, suffix@),
{
    let mut out: String = text.to_owned();
    if char_count(suffix) == 0 {
        return out;
    }
    while ends_with(&out, suffix)
        invariant
            suffix@.len() > 0,
            spec_trim_end_text(text@, suffix@) == spec_trim_end_text(out@, suffix@),
        decreases out@.len(),
    {
        let chars: Vec<char> = to_chars(&out);
        let width: usize = char_count(suffix);
        out = from_range(&chars, 0, chars.len() - width);
    }
    out
}

/// Drops the prefix as often as the text begins with it.
pub fn trim_start_text(text: &str, prefix: &str) -> (r: String)
    ensures
        r@ == spec_trim_start_text(text@, prefix@),
{
    let mut out: String = text.to_owned();
    if char_count(prefix) == 0 {
        return out;
    }
    while starts_with(&out, prefix)
        invariant
            prefix@.len() > 0,
            spec_trim_start_text(text@, prefix@) == spec_trim_start_text(out@, prefix@),
        decreases out@.len(),
    {
        let chars: Vec<char> = to_chars(&out);
        let width: usize = char_count(prefix);
        out = from_range(&chars, width, chars.len());
    }
    out
}

// ---------------------------------------------------------------------------------------
// Letter case
// ---------------------------------------------------------------------------------------

/// The text with ASCII letters in lower case.
pub open spec fn spec_lowercase(text: Seq<char>) -> Seq<char> {
    text.map_values(|c: char| spec_lower_char(c))
}

/// The text with ASCII letters in upper case.
pub open spec fn spec_uppercase(text: Seq<char>) -> Seq<char> {
    text.map_values(|c: char| spec_upper_char(c))
}

/// The text with ASCII letters in lower case.
pub fn lowercase(text: &str) -> (r: String)
    ensures
        r@ == spec_lowercase(text@),
{
    let chars: Vec<char> = to_chars(text);
    let mut out: String = String::new();
    for i in 0..chars.len()
        invariant
            chars@ == text@,
            out@ == spec_lowercase(text@).take(i as int),
    {
        out.push(lower_char(chars[i]));
        assert(out@ =~= spec_lowercase(text@).take(i + 1));
    }
    assert(spec_lowercase(text@).take(chars@.len() as int) =~= spec_lowercase(text@));
    out
}

/// The text with ASCII letters in upper case.
pub fn uppercase(text: &str) -> (r: String)
    ensures
        r@ == spec_uppercase(text@),
{
    let chars: Vec<char> = to_chars(text);
    let mut out: String = String::new();
    for i in 0..chars.len()
        invariant
            chars@ == text@,
            out@ == spec_uppercase(text@).take(i as int),
    {
        out.push(upper_char(chars[i]));
        assert(out@ =~= spec_uppercase(text@).take(i + 1));
    }
    assert(spec_uppercase(text@).take(chars@.len() as int) =~= spec_uppercase(text@));
    out
}

/// The texts are the same up to the case of ASCII letters.
pub open spec fn spec_same_ignoring_case(a: Seq<char>, b: Seq<char>) -> bool {
    spec_lowercase(a) == spec_lowercase(b)
}

/// Whether the texts are the same up to the case of ASCII letters.
pub fn same_ignoring_case(a: &str, b: &str) -> (r: bool)
    ensures
        r == spec_same_ignoring_case(a@, b@),
{
    lowercase(a) == lowercase(b)
}

/// A text is the same as its form in lower case, and as its form in upper case, up to the case of
/// ASCII letters.
pub proof fn case_forms_are_the_same(text: Seq<char>)
    ensures
        spec_same_ignoring_case(text, spec_lowercase(text)),
        spec_same_ignoring_case(text, spec_uppercase(text)),
{
    assert(spec_lowercase(spec_lowercase(text)) =~= spec_lowercase(text));
    assert(spec_lowercase(spec_uppercase(text)) =~= spec_lowercase(text));
}

/// Some text of the list is the given one up to the case of ASCII letters.
pub open spec fn spec_list_has_ignoring_case(list: Seq<Seq<char>>, text: Seq<char>) -> bool {
    exists|i: int| 0 <= i < list.len() && spec_same_ignoring_case(#[trigger] list[i], text)
}

/// Whether some text of the list is the given one up to the case of ASCII letters.
pub fn list_has_ignoring_case(list: &Vec<String>, text: &str) -> (r: bool)
    ensures
        r == spec_list_has_ignoring_case(contents::views(list@), text@),
{
    for i in 0..list.len()
        invariant
            forall|j: int| 0 <= j < i ==> !spec_same_ignoring_case(contents::views(list@)[j], text@),
    {
        if same_ignoring_case(&list[i], text) {
            assert(spec_same_ignoring_case(contents::views(list@)[i as int], text@));
            return true;
        }
    }
    false
}

// ---------------------------------------------------------------------------------------
// Splitting and joining
// ---------------------------------------------------------------------------------------

/// The pieces between the characters of the set; one piece more than there are separators.
pub open spec fn spec_split_any(text: Seq<char>, set: Seq<char>) -> Seq<Seq<char>>
    decreases text.len(),
{
    if text.len() == 0 {
        seq![Seq::empty()]
    } else {
        let pieces = spec_split_any(text.drop_last(), set);
        if set.contains(text.last()) {
            pieces.push(Seq::empty())
        } else {
            pieces.drop_last().push(pieces.last().push(text.last()))
        }
    }
}

/// A split text has at least one piece.
pub proof fn lemma_split_any_len(text: Seq<char>, set: Seq<char>)
    ensures
        spec_split_any(text, set).len() >= 1,
    decreases text.len(),
{
    if text.len() > 0 {
        lemma_split_any_len(text.drop_last(), set);
    }
}

/// A piece of a split text stands between two separators, or reaches to an end of the text.
pub open spec fn piece_lies_at(
    text: Seq<char>,
    set: Seq<char>,
    k: int,
    start: int,
    end: int,
) -> bool {
    let pieces = spec_split_any(text, set);
    &&& 0 <= start <= end <= text.len()
    &&& text.subrange(start, end) == pieces[k]
    &&& start > 0 ==> set.contains(text[start - 1])
    &&& if k == pieces.len() - 1 {
        end == text.len()
    } else {
        end < text.len() && set.contains(text[end])
    }
}

/// Every piece of a split text has its place in it.
pub proof fn piece_has_its_place(text: Seq<char>, set: Seq<char>, k: int) -> (place: (int, int))
    requires
        0 <= k < spec_split_any(text, set).len(),
    ensures
        piece_lies_at(text, set, k, place.0, place.1),
    decreases text.len(),
{
    let pieces = spec_split_any(text, set);
    if text.len() == 0 {
        assert(text.subrange(0, 0) =~= pieces[k]);
        (0, 0)
    } else {
        let before = text.drop_last();
        let earlier = spec_split_any(before, set);
        lemma_split_any_len(before, set);
        if set.contains(text.last()) && k == pieces.len() - 1 {
            let end = text.len() as int;
            assert(text.subrange(end, end) =~= pieces[k]);
            (end, end)
        } else {
            let (start, end) = piece_has_its_place(before, set, k);
            assert(start > 0 ==> before[start - 1] == text[start - 1]);
            assert(end < before.len() ==> before[end] == text[end]);
            if k == pieces.len() - 1 {
                assert(text.subrange(start, end + 1) =~= pieces[k]);
                (start, end + 1)
            } else {
                assert(text.subrange(start, end) =~= pieces[k]);
                (start, end)
            }
        }
    }
}

/// Splits the text at the characters of the set.
pub fn split_any(text: &str, set: &str) -> (r: Vec<String>)
    ensures
        contents::views(r@) == spec_split_any(text@, set@),
{
    let chars: Vec<char> = to_chars(text);
    let separators: Vec<char> = to_chars(set);
    let mut out: Vec<String> = Vec::new();
    let mut piece: String = String::new();
    assert(contents::views(out@).push(piece@) =~= seq![Seq::<char>::empty()]);
    for i in 0..chars.len()
        invariant
            chars@ == text@,
            separators@ == set@,
            contents::views(out@).push(piece@) == spec_split_any(text@.take(i as int), set@),
    {
        let ghost pieces = contents::views(out@);
        assert(text@.take(i + 1).drop_last() =~= text@.take(i as int));
        if set_has(&separators, chars[i]) {
            out.push(piece);
            piece = String::new();
            assert(contents::views(out@) =~= spec_split_any(text@.take(i as int), set@));
            assert(contents::views(out@).push(piece@) =~= spec_split_any(text@.take(i + 1), set@));
        } else {
            piece.push(chars[i]);
            assert(contents::views(out@).push(piece@) =~= spec_split_any(text@.take(i + 1), set@));
        }
    }
    assert(text@.take(chars@.len() as int) =~= text@);
    out.push(piece);
    assert(contents::views(out@) =~= spec_split_any(text@, set@));
    out
}

/// The character belongs to a token: a letter, a digit or one of the extra characters.
pub open spec fn spec_is_token_char(c: char, extra: Seq<char>) -> bool {
    spec_is_alnum(c) || extra.contains(c)
}

/// The pieces between characters that belong to no token.
pub open spec fn spec_split_tokens(text: Seq<char>, extra: Seq<char>) -> Seq<Seq<char>>
    decreases text.len(),
{
    if text.len() == 0 {
        seq![Seq::empty()]
    } else {
        let pieces = spec_split_tokens(text.drop_last(), extra);
        if spec_is_token_char(text.last(), extra) {
            pieces.drop_last().push(pieces.last().push(text.last()))
        } else {
            pieces.push(Seq::empty())
        }
    }
}

/// Splits the text at the characters that belong to no token.
pub fn split_tokens(text: &str, extra: &str) -> (r: Vec<String>)
    ensures
        contents::views(r@) == spec_split_tokens(text@, extra@),
{
    let chars: Vec<char> = to_chars(text);
    let allowed: Vec<char> = to_chars(extra);
    let mut out: Vec<String> = Vec::new();
    let mut piece: String = String::new();
    assert(contents::views(out@).push(piece@) =~= seq![Seq::<char>::empty()]);
    for i in 0..chars.len()
        invariant
            chars@ == text@,
            allowed@ == extra@,
            contents::views(out@).push(piece@) == spec_split_tokens(text@.take(i as int), extra@),
    {
        assert(text@.take(i + 1).drop_last() =~= text@.take(i as int));
        if is_alnum(chars[i]) || set_has(&allowed, chars[i]) {
            piece.push(chars[i]);
            assert(contents::views(out@).push(piece@)
                =~= spec_split_tokens(text@.take(i + 1), extra@));
        } else {
            out.push(piece);
            piece = String::new();
            assert(contents::views(out@) =~= spec_split_tokens(text@.take(i as int), extra@));
            assert(contents::views(out@).push(piece@)
                =~= spec_split_tokens(text@.take(i + 1), extra@));
        }
    }
    assert(text@.take(chars@.len() as int) =~= text@);
    out.push(piece);
    assert(contents::views(out@) =~= spec_split_tokens(text@, extra@));
    out
}

/// The runs of characters that are not white space.
pub open spec fn spec_words(text: Seq<char>) -> Seq<Seq<char>>
    decreases text.len(),
{
    if text.len() == 0 {
        Seq::empty()
    } else {
        let words = spec_words(text.drop_last());
        if spec_is_whitespace(text.last()) {
            words
        } else if text.len() == 1 || spec_is_whitespace(text[text.len() - 2]) {
            words.push(seq![text.last()])
        } else {
            words.drop_last().push(words.last().push(text.last()))
        }
    }
}

/// The runs of characters that are not white space.
pub fn words(text: &str) -> (r: Vec<String>)
    ensures
        contents::views(r@) == spec_words(text@),
{
    let chars: Vec<char> = to_chars(text);
    let mut out: Vec<String> = Vec::new();
    let mut word: String = String::new();
    for i in 0..chars.len()
        invariant
            chars@ == text@,
            word@.len() == 0 ==> contents::views(out@) == spec_words(text@.take(i as int)),
            word@.len() > 0 ==> contents::views(out@).push(word@) == spec_words(text@.take(i as int)),
            (word@.len() == 0) == (i == 0 || spec_is_whitespace(text@[i - 1])),
    {
        assert(text@.take(i + 1).drop_last() =~= text@.take(i as int));
        if is_whitespace(chars[i]) {
            if char_count(&word) > 0 {
                out.push(word);
                assert(contents::views(out@) =~= spec_words(text@.take(i as int)));
                word = String::new();
            }
        } else {
            let ghost before = word@;
            word.push(chars[i]);
            assert(before.len() == 0 ==> word@ =~= seq![chars@[i as int]]);
            assert(contents::views(out@).push(word@) =~= spec_words(text@.take(i + 1)));
        }
    }
    assert(text@.take(chars@.len() as int) =~= text@);
    if char_count(&word) > 0 {
        out.push(word);
        assert(contents::views(out@) =~= spec_words(text@));
    }
    out
}

/// The pieces between the places of the separator.
pub open spec fn spec_split_text(text: Seq<char>, separator: Seq<char>) -> Seq<Seq<char>>
    decreases text.len(),
{
    match spec_split_once(text, separator) {
        Some((head, tail)) => if tail.len() < text.len() {
            seq![head] + spec_split_text(tail, separator)
        } else {
            seq![text]
        },
        None => seq![text],
    }
}

/// The pieces between the places of the separator.
pub fn split_text(text: &str, separator: &str) -> (r: Vec<String>)
    ensures
        contents::views(r@) == spec_split_text(text@, separator@),
{
    let mut out: Vec<String> = Vec::new();
    let mut rest: String = text.to_owned();
    loop
        invariant
            spec_split_text(text@, separator@) == contents::views(out@) + spec_split_text(
                rest@,
                separator@,
            ),
        decreases rest@.len(),
    {
        match split_once(&rest, separator) {
            Some((head, tail)) => {
                if char_count(&tail) < char_count(&rest) {
                    assert(contents::views(out@.push(head)) + spec_split_text(tail@, separator@)
                        =~= contents::views(out@) + (seq![head@] + spec_split_text(
                        tail@,
                        separator@,
                    )));
                    out.push(head);
                    rest = tail;
                } else {
                    assert(contents::views(out@.push(rest))
                        =~= contents::views(out@) + seq![rest@]);
                    out.push(rest);
                    return out;
                }
            },
            None => {
                assert(contents::views(out@.push(rest)) =~= contents::views(out@) + seq![rest@]);
                out.push(rest);
                return out;
            },
        }
    }
}

/// The pieces trimmed, without those that hold nothing else than white space.
pub open spec fn spec_trimmed_pieces(pieces: Seq<Seq<char>>) -> Seq<Seq<char>> {
    pieces.map_values(|piece: Seq<char>| spec_trim(piece)).filter(
        |piece: Seq<char>| piece.len() > 0,
    )
}

/// The pieces trimmed, without those that hold nothing else than white space.
pub fn trimmed_pieces(pieces: &Vec<String>) -> (r: Vec<String>)
    ensures
        contents::views(r@) == spec_trimmed_pieces(contents::views(pieces@)),
{
    let mut out: Vec<String> = Vec::new();
    let ghost trimmed = contents::views(pieces@).map_values(|piece: Seq<char>| spec_trim(piece));
    let ghost holds_more = |piece: Seq<char>| piece.len() > 0;
    proof {
        reveal(Seq::filter);
    }
    for i in 0..pieces.len()
        invariant
            trimmed == contents::views(pieces@).map_values(|piece: Seq<char>| spec_trim(piece)),
            holds_more == (|piece: Seq<char>| piece.len() > 0),
            contents::views(out@) == trimmed.take(i as int).filter(holds_more),
    {
        proof {
            reveal(Seq::filter);
        }
        assert(trimmed.take(i + 1).drop_last() =~= trimmed.take(i as int));
        let piece: String = trim(&pieces[i]);
        if char_count(&piece) > 0 {
            let ghost before = contents::views(out@);
            out.push(piece);
            assert(contents::views(out@) =~= before.push(piece@));
        }
    }
    assert(trimmed.take(trimmed.len() as int) =~= trimmed);
    out
}

/// The trimmed pieces between the characters of the set that hold more than white space.
pub open spec fn spec_segments(text: Seq<char>, set: Seq<char>) -> Seq<Seq<char>> {
    spec_trimmed_pieces(spec_split_any(text, set))
}

/// The trimmed pieces between the characters of the set that hold more than white space.
pub fn segments(text: &str, set: &str) -> (r: Vec<String>)
    ensures
        contents::views(r@) == spec_segments(text@, set@),
{
    trimmed_pieces(&split_any(text, set))
}

/// A line without the carriage return that may stand before its line feed.
pub open spec fn spec_strip_return(line: Seq<char>) -> Seq<char> {
    if line.len() > 0 && line.last() == '\r' {
        line.drop_last()
    } else {
        line
    }
}

/// The first `count` pieces, each without the carriage return at its end.
pub open spec fn spec_strip_returns(pieces: Seq<Seq<char>>) -> Seq<Seq<char>> {
    pieces.map_values(|line: Seq<char>| spec_strip_return(line))
}

/// The lines of the text: what stands before each line feed, without a carriage return there,
/// and what follows the last line feed, unless that is empty.
pub open spec fn spec_lines(text: Seq<char>) -> Seq<Seq<char>> {
    let pieces = spec_split_any(text, seq!['\n']);
    if pieces.last().len() == 0 {
        spec_strip_returns(pieces.drop_last())
    } else {
        spec_strip_returns(pieces.drop_last()).push(pieces.last())
    }
}

/// The lines of the text: what stands before each line feed, without a carriage return there,
/// and what follows the last line feed, unless that is empty.
pub fn lines(text: &str) -> (r: Vec<String>)
    ensures
        contents::views(r@) == spec_lines(text@),
{
    proof {
        reveal_strlit("\n");
        assert("\n"@ =~= seq!['\n']);
        lemma_split_any_len(text@, "\n"@);
    }
    let pieces: Vec<String> = split_any(text, "\n");
    let last: usize = pieces.len() - 1;
    let mut out: Vec<String> = Vec::new();
    for i in 0..last
        invariant
            last == pieces@.len() - 1,
            contents::views(out@) == spec_strip_returns(contents::views(pieces@).drop_last()).take(i as int),
    {
        let chars: Vec<char> = to_chars(&pieces[i]);
        let end: usize = if chars.len() > 0 && chars[chars.len() - 1] == '\r' {
            chars.len() - 1
        } else {
            chars.len()
        };
        let line: String = from_range(&chars, 0, end);
        assert(line@ =~= spec_strip_return(contents::views(pieces@)[i as int]));
        out.push(line);
        assert(contents::views(out@)
            =~= spec_strip_returns(contents::views(pieces@).drop_last()).take(i + 1));
    }
    assert(contents::views(out@) =~= spec_strip_returns(contents::views(pieces@).drop_last()));
    assert(contents::views(pieces@).last() == pieces@[last as int]@);
    if char_count(&pieces[last]) > 0 {
        out.push(pieces[last].clone());
        assert(contents::views(out@) =~= spec_lines(text@));
    }
    out
}

/// The texts of the list with the separator between each two.
pub open spec fn spec_join(list: Seq<Seq<char>>, separator: Seq<char>) -> Seq<char>
    decreases list.len(),
{
    if list.len() == 0 {
        Seq::empty()
    } else if list.len() == 1 {
        list[0]
    } else {
        spec_join(list.drop_last(), separator) + separator + list.last()
    }
}

/// Joins the texts of the list with the separator between each two.
pub fn join(list: &Vec<String>, separator: &str) -> (r: String)
    ensures
        r@ == spec_join(contents::views(list@), separator@),
{
    let mut out: String = String::new();
    for i in 0..list.len()
        invariant
            out@ == spec_join(contents::views(list@).take(i as int), separator@),
    {
        assert(contents::views(list@).take(i + 1).drop_last()
            =~= contents::views(list@).take(i as int));
        if i > 0 {
            out.append(separator);
        }
        out.append(&list[i]);
        assert(out@ =~= spec_join(contents::views(list@).take(i + 1), separator@));
    }
    assert(contents::views(list@).take(list@.len() as int) =~= contents::views(list@));
    out
}

/// The characters that are not white space.
pub open spec fn spec_compact_all_whitespace(text: Seq<char>) -> Seq<char> {
    text.filter(|c: char| !spec_is_whitespace(c))
}

/// Drops every white space character.
pub fn compact_all_whitespace(text: &str) -> (r: String)
    ensures
        r@ == spec_compact_all_whitespace(text@),
{
    proof {
        reveal(Seq::filter);
    }
    let chars: Vec<char> = to_chars(text);
    let mut out: String = String::new();
    for i in 0..chars.len()
        invariant
            chars@ == text@,
            out@ == spec_compact_all_whitespace(text@.take(i as int)),
    {
        proof {
            reveal(Seq::filter);
        }
        assert(text@.take(i + 1).drop_last() =~= text@.take(i as int));
        if !is_whitespace(chars[i]) {
            out.push(chars[i]);
        }
    }
    assert(text@.take(chars@.len() as int) =~= text@);
    out
}

// ---------------------------------------------------------------------------------------
// Membership
// ---------------------------------------------------------------------------------------

/// The text is one of the given ones.
pub open spec fn spec_is_one_of(text: Seq<char>, choices: Seq<&str>) -> bool {
    exists|i: int| 0 <= i < choices.len() && #[trigger] choices[i]@ == text
}

/// Whether the text is one of the given ones.
pub fn is_one_of(text: &str, choices: &[&str]) -> (r: bool)
    ensures
        r == spec_is_one_of(text@, choices@),
{
    for i in 0..choices.len()
        invariant
            forall|j: int| 0 <= j < i ==> #[trigger] choices@[j]@ != text@,
    {
        if same(choices[i], text) {
            return true;
        }
    }
    false
}

/// Whether the set holds the character.
pub fn char_in(c: char, set: &str) -> (r: bool)
    ensures
        r == set@.contains(c),
{
    for d in it: set.chars()
        invariant
            it.seq() == set@,
            forall|j: int| 0 <= j < it.index() ==> set@[j] != c,
    {
        if d == c {
            return true;
        }
    }
    false
}

/// Whether the list holds the position.
pub fn index_in(list: &Vec<usize>, position: usize) -> (r: bool)
    ensures
        r == contents::positions(list@).contains(position as int),
{
    for i in 0..list.len()
        invariant
            forall|j: int| 0 <= j < i ==> contents::positions(list@)[j] != position,
    {
        if list[i] == position {
            assert(contents::positions(list@)[i as int] == position);
            return true;
        }
    }
    false
}

/// Appends copies of the texts of another list.
pub fn extend(list: &mut Vec<String>, more: &Vec<String>)
    ensures
        contents::views(final(list)@) == contents::views(old(list)@) + contents::views(more@),
{
    let ghost before = contents::views(list@);
    assert(before + contents::views(more@).take(0) =~= before);
    for i in 0..more.len()
        invariant
            contents::views(list@) == before + contents::views(more@).take(i as int),
    {
        list.push(more[i].clone());
        assert(contents::views(list@) =~= before + contents::views(more@).take(i + 1));
    }
    assert(contents::views(more@).take(more@.len() as int) =~= contents::views(more@));
}

/// Every character is an ASCII one.
pub open spec fn spec_is_ascii(text: Seq<char>) -> bool {
    forall|i: int| 0 <= i < text.len() ==> #[trigger] text[i] <= '\u{7f}'
}

/// Whether every character is an ASCII one.
pub fn is_ascii(text: &str) -> (r: bool)
    ensures
        r == spec_is_ascii(text@),
{
    for c in it: text.chars()
        invariant
            it.seq() == text@,
            forall|j: int| 0 <= j < it.index() ==> text@[j] <= '\u{7f}',
    {
        if c > '\u{7f}' {
            return false;
        }
    }
    true
}

/// The last position before `end` of a character of the set.
pub open spec fn last_of_set(text: Seq<char>, set: Seq<char>, end: int) -> Option<int>
    decreases end,
{
    if end <= 0 {
        None
    } else if set.contains(text[end - 1]) {
        Some(end - 1)
    } else {
        last_of_set(text, set, end - 1)
    }
}

/// The parts before and after the last character of the set.
pub open spec fn spec_rsplit_once_any(text: Seq<char>, set: Seq<char>) -> Option<
    (Seq<char>, Seq<char>),
> {
    match last_of_set(text, set, text.len() as int) {
        Some(k) => Some((text.take(k), text.skip(k + 1))),
        None => None,
    }
}

/// The parts before and after the last character of the set.
pub fn rsplit_once_any(text: &str, set: &str) -> (r: Option<(String, String)>)
    ensures
        contents::view_pair(r) == spec_rsplit_once_any(text@, set@),
{
    let chars: Vec<char> = to_chars(text);
    let separators: Vec<char> = to_chars(set);
    let mut end: usize = chars.len();
    while end > 0
        invariant
            chars@ == text@,
            separators@ == set@,
            end <= chars@.len(),
            last_of_set(text@, set@, text@.len() as int) == last_of_set(text@, set@, end as int),
        decreases end,
    {
        if set_has(&separators, chars[end - 1]) {
            return Some((from_range(&chars, 0, end - 1), from_range(&chars, end, chars.len())));
        }
        end = end - 1;
    }
    None
}

/// The characters before the first one of the set.
pub open spec fn spec_head_until(text: Seq<char>, set: Seq<char>) -> Seq<char>
    decreases text.len(),
{
    if text.len() == 0 || set.contains(text.first()) {
        Seq::empty()
    } else {
        seq![text.first()] + spec_head_until(text.drop_first(), set)
    }
}

/// The characters before the first one of the set.
pub fn head_until(text: &str, set: &str) -> (r: String)
    ensures
        r@ == spec_head_until(text@, set@),
{
    let chars: Vec<char> = to_chars(text);
    let separators: Vec<char> = to_chars(set);
    let mut i: usize = 0;
    assert(text@.skip(0) =~= text@);
    assert(text@.take(0) + spec_head_until(text@, set@) =~= spec_head_until(text@, set@));
    while i < chars.len() && !set_has(&separators, chars[i])
        invariant
            chars@ == text@,
            separators@ == set@,
            i <= chars@.len(),
            spec_head_until(text@, set@) == text@.take(i as int) + spec_head_until(
                text@.skip(i as int),
                set@,
            ),
        decreases chars@.len() - i,
    {
        assert(text@.skip(i as int).drop_first() =~= text@.skip(i + 1));
        assert(text@.take(i as int) + (seq![text@[i as int]] + spec_head_until(
            text@.skip(i + 1),
            set@,
        )) =~= text@.take(i + 1) + spec_head_until(text@.skip(i + 1), set@));
        i = i + 1;
    }
    assert(text@.take(i as int) + Seq::<char>::empty() =~= text@.take(i as int));
    from_range(&chars, 0, i)
}

/// The characters after the last one of the set.
pub open spec fn spec_tail_after(text: Seq<char>, set: Seq<char>) -> Seq<char> {
    match spec_rsplit_once_any(text, set) {
        Some((_, tail)) => tail,
        None => text,
    }
}

/// The characters after the last one of the set.
pub fn tail_after(text: &str, set: &str) -> (r: String)
    ensures
        r@ == spec_tail_after(text@, set@),
{
    match rsplit_once_any(text, set) {
        Some((_, tail)) => tail,
        None => text.to_owned(),
    }
}

/// The list without its first `n` texts.
pub open spec fn spec_skip_list(list: Seq<Seq<char>>, n: int) -> Seq<Seq<char>> {
    if n >= list.len() {
        Seq::empty()
    } else {
        list.skip(n)
    }
}

/// The list without its first `n` texts.
pub fn skip_list(list: &Vec<String>, n: usize) -> (r: Vec<String>)
    ensures
        contents::views(r@) == spec_skip_list(contents::views(list@), n as int),
{
    let mut out: Vec<String> = Vec::new();
    let mut i: usize = n;
    assert(n < list@.len() ==> contents::views(list@).subrange(n as int, n as int)
        =~= contents::views(out@));
    while i < list.len()
        invariant
            n <= i,
            n < list@.len() ==> i <= list@.len(),
            n < list@.len() ==> contents::views(out@) == contents::views(list@).subrange(
                n as int,
                i as int,
            ),
            n >= list@.len() ==> out@.len() == 0,
        decreases list@.len() - i,
    {
        out.push(list[i].clone());
        assert(contents::views(out@) =~= contents::views(list@).subrange(n as int, i + 1));
        i = i + 1;
    }
    assert(contents::views(out@) =~= spec_skip_list(contents::views(list@), n as int));
    out
}

/// The position `width` characters after `start`; no greater than the greatest index.
pub open spec fn spec_span_end(start: int, width: int) -> int {
    if start + width > usize::MAX {
        usize::MAX as int
    } else {
        start + width
    }
}

/// The position `width` characters after `start`; no greater than the greatest index.
pub fn span_end(start: usize, width: usize) -> (r: usize)
    ensures
        r == spec_span_end(start as int, width as int),
{
    start.saturating_add(width)
}

// ---------------------------------------------------------------------------------------
// Numbers
// ---------------------------------------------------------------------------------------

/// The decimal digit of a number below ten.
pub open spec fn digit_char(d: int) -> char {
    ((d + 48) as u32) as char
}

/// The decimal notation of a number.
pub open spec fn spec_decimal(n: nat) -> Seq<char>
    decreases n,
{
    if n < 10 {
        seq![digit_char(n as int)]
    } else {
        spec_decimal(n / 10).push(digit_char((n % 10) as int))
    }
}

/// The decimal notation of a number.
pub fn decimal(n: u64) -> (r: String)
    ensures
        r@ == spec_decimal(n as nat),
    decreases n,
{
    let digit: u8 = (n % 10) as u8;
    let c: char = (digit + 48) as char;
    if n < 10 {
        let mut out: String = String::new();
        out.push(c);
        assert(out@ =~= seq![digit_char(n as int)]);
        out
    } else {
        let mut out: String = decimal(n / 10);
        out.push(c);
        out
    }
}

/// The decimal notation of a count.
pub open spec fn spec_decimal_of(n: int) -> Seq<char> {
    spec_decimal(n as nat)
}

/// The decimal notation of a count.
pub fn decimal_of(n: usize) -> (r: String)
    ensures
        r@ == spec_decimal_of(n as int),
{
    decimal(n as u64)
}

// ---------------------------------------------------------------------------------------
// What texts lack
// ---------------------------------------------------------------------------------------

/// The character does not stand in the text.
pub open spec fn lacks(text: Seq<char>, c: char) -> bool {
    forall|i: int| 0 <= i < text.len() ==> #[trigger] text[i] != c
}

/// No text of the list holds the character.
pub open spec fn all_lack(list: Seq<Seq<char>>, c: char) -> bool {
    forall|k: int| 0 <= k < list.len() ==> lacks(#[trigger] list[k], c)
}

/// A character that is replaced by a text without it is gone.
pub proof fn replaced_character_is_gone(
    text: Seq<char>,
    pattern: Seq<char>,
    replacement: Seq<char>,
    i: int,
)
    requires
        0 <= i <= text.len(),
        pattern.len() == 1,
        lacks(replacement, pattern[0]),
    ensures
        lacks(replaced_from(text, pattern, replacement, i), pattern[0]),
    decreases text.len() - i,
{
    if i < text.len() {
        replaced_character_is_gone(text, pattern, replacement, i + 1);
        if !occurs_at(text, pattern, i) {
            assert(text[i] != pattern[0]) by {
                if text[i] == pattern[0] {
                    assert(text.subrange(i, i + 1) =~= pattern);
                }
            }
        }
    }
}

/// A replacement brings no character that neither the text nor the replacement holds.
pub proof fn replacing_adds_nothing(
    text: Seq<char>,
    pattern: Seq<char>,
    replacement: Seq<char>,
    i: int,
    c: char,
)
    requires
        0 <= i <= text.len(),
        lacks(text, c),
        lacks(replacement, c),
    ensures
        lacks(replaced_from(text, pattern, replacement, i), c),
    decreases text.len() - i,
{
    if i < text.len() && pattern.len() > 0 {
        if occurs_at(text, pattern, i) {
            replacing_adds_nothing(text, pattern, replacement, i + pattern.len(), c);
        } else {
            replacing_adds_nothing(text, pattern, replacement, i + 1, c);
        }
    }
}

/// Where the first character of the pattern does not stand, nothing is replaced.
pub proof fn nothing_is_replaced(
    text: Seq<char>,
    pattern: Seq<char>,
    replacement: Seq<char>,
    i: int,
)
    requires
        0 <= i <= text.len(),
        pattern.len() > 0,
        lacks(text, pattern[0]),
    ensures
        replaced_from(text, pattern, replacement, i) == text.skip(i),
    decreases text.len() - i,
{
    if i < text.len() {
        assert(!occurs_at(text, pattern, i)) by {
            if occurs_at(text, pattern, i) {
                assert(text.subrange(i, i + pattern.len())[0] == text[i]);
            }
        }
        nothing_is_replaced(text, pattern, replacement, i + 1);
        assert(seq![text[i]] + text.skip(i + 1) =~= text.skip(i));
    }
}

/// The pieces of a text hold none of the characters at which it is split, and no character that the
/// text does not hold.
pub proof fn pieces_lack(text: Seq<char>, set: Seq<char>, c: char)
    requires
        set.contains(c) || lacks(text, c),
    ensures
        all_lack(spec_split_any(text, set), c),
    decreases text.len(),
{
    if text.len() > 0 {
        let earlier = text.drop_last();
        let before = spec_split_any(earlier, set);
        let pieces = spec_split_any(text, set);
        if lacks(text, c) {
            assert forall|i: int| 0 <= i < earlier.len() implies #[trigger] earlier[i] != c by {
                assert(earlier[i] == text[i]);
            }
        }
        pieces_lack(earlier, set, c);
        lemma_split_any_len(earlier, set);
        assert forall|k: int| 0 <= k < pieces.len() implies lacks(#[trigger] pieces[k], c) by {
            if k < pieces.len() - 1 {
                assert(pieces[k] == before[k]);
            } else if !set.contains(text.last()) {
                assert(lacks(before[before.len() - 1], c));
                assert(text.last() != c) by {
                    if text.last() == c {
                        assert(text[text.len() - 1] == c);
                    }
                }
            }
        }
    }
}

/// A text after a separator is a piece of its own, where it holds no separator.
proof fn piece_after_separator(before: Seq<char>, separator: char, piece: Seq<char>)
    requires
        lacks(piece, separator),
    ensures
        spec_split_any(before + seq![separator] + piece, seq![separator]) == spec_split_any(
            before,
            seq![separator],
        ).push(piece),
    decreases piece.len(),
{
    let set = seq![separator];
    let whole = before + set + piece;
    assert(set[0] == separator);
    if piece.len() == 0 {
        assert(whole.drop_last() =~= before);
        assert(whole.last() == separator);
        assert(piece =~= Seq::empty());
    } else {
        let shorter = piece.drop_last();
        assert forall|i: int| 0 <= i < shorter.len() implies #[trigger] shorter[i] != separator by {
            assert(shorter[i] == piece[i]);
        }
        piece_after_separator(before, separator, shorter);
        assert(whole.drop_last() =~= before + set + shorter);
        assert(whole.last() == piece[piece.len() - 1]);
        assert(!set.contains(whole.last()));
        assert(shorter.push(piece.last()) =~= piece);
        let pieces = spec_split_any(whole.drop_last(), set);
        assert(pieces.drop_last() =~= spec_split_any(before, set));
    }
}

/// A text without a separator is its only piece.
proof fn only_piece(text: Seq<char>, separator: char)
    requires
        lacks(text, separator),
    ensures
        spec_split_any(text, seq![separator]) == seq![text],
    decreases text.len(),
{
    if text.len() > 0 {
        let shorter = text.drop_last();
        assert forall|i: int| 0 <= i < shorter.len() implies #[trigger] shorter[i] != separator by {
            assert(shorter[i] == text[i]);
        }
        only_piece(shorter, separator);
        assert(text.last() == text[text.len() - 1]);
        assert(!seq![separator].contains(text.last()));
        assert(shorter.push(text.last()) =~= text);
        assert(seq![shorter].drop_last().push(shorter.push(text.last())) =~= seq![text]);
    } else {
        assert(text =~= Seq::empty());
    }
}

/// Texts that were joined at a separator that none of them holds are the pieces between its places.
pub proof fn joined_texts_are_the_pieces(list: Seq<Seq<char>>, separator: char)
    requires
        list.len() > 0,
        all_lack(list, separator),
    ensures
        spec_split_any(spec_join(list, seq![separator]), seq![separator]) == list,
    decreases list.len(),
{
    if list.len() == 1 {
        only_piece(list[0], separator);
        assert(seq![list[0]] =~= list);
    } else {
        let shorter = list.drop_last();
        assert forall|k: int| 0 <= k < shorter.len() implies lacks(
            #[trigger] shorter[k],
            separator,
        ) by {
            assert(shorter[k] == list[k]);
        }
        joined_texts_are_the_pieces(shorter, separator);
        assert(lacks(list[list.len() - 1], separator));
        piece_after_separator(spec_join(shorter, seq![separator]), separator, list.last());
        assert(shorter.push(list.last()) =~= list);
    }
}

/// A joined text lacks what the texts and the separator lack.
pub proof fn joined_text_lacks(list: Seq<Seq<char>>, separator: Seq<char>, c: char)
    requires
        all_lack(list, c),
        lacks(separator, c),
    ensures
        lacks(spec_join(list, separator), c),
    decreases list.len(),
{
    if list.len() == 1 {
        assert(lacks(list[0], c));
    } else if list.len() > 1 {
        let shorter = list.drop_last();
        assert forall|k: int| 0 <= k < shorter.len() implies lacks(#[trigger] shorter[k], c) by {
            assert(shorter[k] == list[k]);
        }
        joined_text_lacks(shorter, separator, c);
        assert(lacks(list[list.len() - 1], c));
    }
}

/// A text without carriage returns has the pieces between its line feeds as lines, but for an empty
/// one at its end.
pub proof fn lines_without_returns(text: Seq<char>)
    requires
        lacks(text, '\r'),
    ensures
        ({
            let pieces = spec_split_any(text, seq!['\n']);
            spec_lines(text) == (if pieces.last().len() == 0 {
                pieces.drop_last()
            } else {
                pieces
            })
        }),
{
    let pieces = spec_split_any(text, seq!['\n']);
    lemma_split_any_len(text, seq!['\n']);
    pieces_lack(text, seq!['\n'], '\r');
    let front = pieces.drop_last();
    assert forall|k: int| 0 <= k < front.len() implies #[trigger] spec_strip_returns(front)[k]
        == front[k] by {
        assert(lacks(pieces[k], '\r'));
        assert(front[k] == pieces[k]);
        if front[k].len() > 0 {
            assert(pieces[k][pieces[k].len() - 1] != '\r');
        }
    }
    assert(spec_strip_returns(front) =~= front);
    assert(front.push(pieces.last()) =~= pieces);
}

// ---------------------------------------------------------------------------------------
// How texts are taken apart
// ---------------------------------------------------------------------------------------

/// The characters of the text from one position to another are all white space.
pub open spec fn is_white_between(text: Seq<char>, start: int, end: int) -> bool {
    forall|i: int| start <= i < end ==> spec_is_whitespace(#[trigger] text[i])
}

/// What is dropped at the start of a text is white space.
proof fn dropped_start_is_white(text: Seq<char>)
    ensures
        is_white_between(text, 0, text.len() - spec_trim_start(text).len()),
    decreases text.len(),
{
    if text.len() > 0 && spec_is_whitespace(text.first()) {
        let rest = text.drop_first();
        dropped_start_is_white(rest);
        trim_start_of(rest);
        assert forall|i: int| 0 <= i < text.len() - spec_trim_start(text).len() implies
            spec_is_whitespace(#[trigger] text[i]) by {
            if i > 0 {
                assert(rest[i - 1] == text[i]);
            }
        }
    }
}

/// What is dropped at the end of a text is white space.
proof fn dropped_end_is_white(text: Seq<char>)
    ensures
        is_white_between(text, spec_trim_end(text).len() as int, text.len() as int),
    decreases text.len(),
{
    if text.len() > 0 && spec_is_whitespace(text.last()) {
        let rest = text.drop_last();
        dropped_end_is_white(rest);
        trim_end_of(rest);
        assert forall|i: int| spec_trim_end(text).len() <= i < text.len() implies
            spec_is_whitespace(#[trigger] text[i]) by {
            if i < rest.len() {
                assert(rest[i] == text[i]);
            }
        }
    }
}

/// A trimmed text is a part of the text with nothing but white space before and after it. It
/// begins and ends with no white space.
pub proof fn trimmed_texts_are_parts(text: Seq<char>) -> (place: (int, int))
    ensures
        0 <= place.0 <= place.1 <= text.len(),
        spec_trim(text) == text.subrange(place.0, place.1),
        is_white_between(text, 0, place.0),
        is_white_between(text, place.1, text.len() as int),
        place.0 < place.1 ==> !spec_is_whitespace(text[place.0]) && !spec_is_whitespace(
            text[place.1 - 1],
        ),
{
    let start = spec_trim_start(text);
    let end = spec_trim_end(start);
    trim_start_of(text);
    trim_end_of(start);
    dropped_start_is_white(text);
    dropped_end_is_white(start);
    let low = text.len() - start.len();
    let high = low + end.len();
    assert(end =~= text.subrange(low, high));
    assert forall|i: int| high <= i < text.len() implies spec_is_whitespace(
        #[trigger] text[i],
    ) by {
        assert(start[i - low] == text[i]);
    }
    if low < high {
        assert(start[0] == text[low]);
        assert(end.last() == text[high - 1]);
    }
    (low, high)
}

/// A text keeps something when it is trimmed where it holds a character that is no white space,
/// and only there.
pub proof fn texts_with_more_than_white_space(text: Seq<char>)
    ensures
        spec_trim(text).len() > 0 <==> exists|i: int|
            0 <= i < text.len() && !spec_is_whitespace(#[trigger] text[i]),
{
    let (low, high) = trimmed_texts_are_parts(text);
    if low < high {
        assert(!spec_is_whitespace(text[low]));
    }
}

/// A text that is split in two at a separator is the first part, the separator and the second part
/// put together. It is split where it holds the separator, and only there; the first of its
/// places is taken, so the separator stands nowhere before it.
pub proof fn split_texts_go_together(text: Seq<char>, separator: Seq<char>)
    ensures
        match spec_split_once(text, separator) {
            Some((head, tail)) => text == head + separator + tail && forall|i: int|
                i < head.len() ==> !#[trigger] occurs_at(text, separator, i),
            None => !spec_contains(text, separator),
        },
{
    lemma_find_from(text, separator, 0);
    match spec_find(text, separator) {
        Some(k) => {
            assert(occurs_at(text, separator, k));
            assert(text =~= text.take(k) + separator + text.skip(k + separator.len())) by {
                assert(text.subrange(k, k + separator.len()) == separator);
                assert forall|i: int| 0 <= i < separator.len() implies text[k + i]
                    == #[trigger] separator[i] by {
                    assert(text.subrange(k, k + separator.len())[i] == text[k + i]);
                }
            }
        },
        None => {},
    }
}

/// A text that is split in two from its end is the first part, the separator and the second part
/// put together. The last place of the separator is taken, so it stands nowhere after it.
pub proof fn texts_split_from_the_end_go_together(text: Seq<char>, separator: Seq<char>)
    ensures
        match spec_rsplit_once(text, separator) {
            Some((head, tail)) => text == head + separator + tail && forall|i: int|
                i > head.len() ==> !#[trigger] occurs_at(text, separator, i),
            None => !spec_contains(text, separator),
        },
{
    lemma_rfind_from(text, separator, text.len() as int);
    match spec_rfind(text, separator) {
        Some(k) => {
            assert(occurs_at(text, separator, k));
            assert(text =~= text.take(k) + separator + text.skip(k + separator.len())) by {
                assert(text.subrange(k, k + separator.len()) == separator);
                assert forall|i: int| 0 <= i < separator.len() implies text[k + i]
                    == #[trigger] separator[i] by {
                    assert(text.subrange(k, k + separator.len())[i] == text[k + i]);
                }
            }
        },
        None => {},
    }
}

/// The pieces between the places of a separator, joined by it, are the text.
pub proof fn pieces_join_to_the_text(text: Seq<char>, separator: char)
    ensures
        spec_join(spec_split_any(text, seq![separator]), seq![separator]) == text,
    decreases text.len(),
{
    let set = seq![separator];
    lemma_split_any_len(text, set);
    if text.len() == 0 {
        assert(spec_join(spec_split_any(text, set), set) =~= text);
    } else {
        let before = text.drop_last();
        let pieces = spec_split_any(before, set);
        pieces_join_to_the_text(before, separator);
        lemma_split_any_len(before, set);
        assert(set[0] == separator);
        if text.last() == separator {
            assert(set.contains(text.last()));
            let more = pieces.push(Seq::empty());
            assert(more.drop_last() =~= pieces);
            assert(spec_join(more, set) =~= before + set);
            assert(before + set =~= text);
        } else {
            assert(!set.contains(text.last()));
            let longer = pieces.last().push(text.last());
            let more = pieces.drop_last().push(longer);
            assert(more.drop_last() =~= pieces.drop_last());
            assert(more.last() == longer);
            if pieces.len() == 1 {
                assert(spec_join(pieces, set) == pieces[0]);
                assert(spec_join(more, set) =~= text);
            } else {
                assert(spec_join(more, set) =~= spec_join(pieces, set).push(text.last()));
                assert(before.push(text.last()) =~= text);
            }
        }
    }
}

/// A word is not empty and holds no white space.
pub open spec fn is_word(word: Seq<char>) -> bool {
    &&& word.len() > 0
    &&& forall|i: int| 0 <= i < word.len() ==> !spec_is_whitespace(#[trigger] word[i])
}

/// A text that ends with no white space has a last word.
proof fn last_word_is_open(text: Seq<char>)
    requires
        text.len() > 0,
        !spec_is_whitespace(text.last()),
    ensures
        spec_words(text).len() > 0,
    decreases text.len(),
{
    if text.len() > 1 && !spec_is_whitespace(text[text.len() - 2]) {
        last_word_is_open(text.drop_last());
    }
}

/// The words of a text hold no white space, and together they are what the text holds beside it,
/// in the same order.
pub proof fn words_are_the_text_without_white_space(text: Seq<char>)
    ensures
        forall|k: int| 0 <= k < spec_words(text).len() ==> is_word(#[trigger] spec_words(text)[k]),
        spec_join(spec_words(text), Seq::empty()) == spec_compact_all_whitespace(text),
    decreases text.len(),
{
    reveal(Seq::filter);
    let none = Seq::<char>::empty();
    if text.len() == 0 {
        assert(spec_compact_all_whitespace(text) =~= Seq::empty());
    } else {
        let before = text.drop_last();
        let words = spec_words(before);
        words_are_the_text_without_white_space(before);
        let last = text.last();
        if spec_is_whitespace(last) {
        } else if text.len() == 1 || spec_is_whitespace(text[text.len() - 2]) {
            let more = words.push(seq![last]);
            assert(spec_words(text) == more);
            assert(more.drop_last() =~= words);
            assert(spec_join(more, none) =~= spec_join(words, none).push(last));
            assert forall|k: int| 0 <= k < more.len() implies is_word(#[trigger] more[k]) by {
                if k < words.len() {
                    assert(more[k] == words[k]);
                }
            }
        } else {
            assert(before.last() == text[text.len() - 2]);
            last_word_is_open(before);
            let longer = words.last().push(last);
            let more = words.drop_last().push(longer);
            assert(spec_words(text) == more);
            assert(more.drop_last() =~= words.drop_last());
            assert(spec_join(more, none) =~= spec_join(words, none).push(last));
            assert forall|k: int| 0 <= k < more.len() implies is_word(#[trigger] more[k]) by {
                if k < words.len() - 1 {
                    assert(more[k] == words[k]);
                } else {
                    assert(is_word(words[words.len() - 1]));
                    assert(more[k] == longer);
                }
            }
        }
    }
}

/// A text is replaced place by place: what stands before the first place of the pattern stays, the
/// replacement comes for the pattern, and what follows is replaced in turn.
pub proof fn first_place_is_replaced(
    before: Seq<char>,
    pattern: Seq<char>,
    after: Seq<char>,
    replacement: Seq<char>,
)
    requires
        pattern.len() > 0,
        forall|i: int| i < before.len() ==> !#[trigger] occurs_at(before + pattern + after, pattern, i),
    ensures
        spec_replace(before + pattern + after, pattern, replacement) == before + replacement
            + spec_replace(after, pattern, replacement),
{
    let text = before + pattern + after;
    let place = before.len() as int;
    replaced_up_to(text, pattern, replacement, 0, place);
    assert(occurs_at(text, pattern, place)) by {
        assert(text.subrange(place, place + pattern.len()) =~= pattern);
    }
    replaced_in_the_rest(text, pattern, replacement, place + pattern.len());
    assert(text.skip(place + pattern.len()) =~= after);
    assert(text.subrange(0, place) =~= before);
    assert(spec_replace(text, pattern, replacement) =~= before + replacement + spec_replace(
        after,
        pattern,
        replacement,
    ));
}

/// What stands before the next place of the pattern stays.
proof fn replaced_up_to(
    text: Seq<char>,
    pattern: Seq<char>,
    replacement: Seq<char>,
    i: int,
    place: int,
)
    requires
        pattern.len() > 0,
        0 <= i <= place < text.len(),
        forall|k: int| i <= k < place ==> !#[trigger] occurs_at(text, pattern, k),
    ensures
        replaced_from(text, pattern, replacement, i) == text.subrange(i, place) + replaced_from(
            text,
            pattern,
            replacement,
            place,
        ),
    decreases place - i,
{
    if i < place {
        replaced_up_to(text, pattern, replacement, i + 1, place);
        assert(!occurs_at(text, pattern, i));
        assert(text.subrange(i, place) =~= seq![text[i]] + text.subrange(i + 1, place));
        assert(replaced_from(text, pattern, replacement, i) =~= text.subrange(i, place)
            + replaced_from(text, pattern, replacement, place));
    } else {
        assert(text.subrange(i, place) + replaced_from(text, pattern, replacement, place)
            =~= replaced_from(text, pattern, replacement, place));
    }
}

/// Replacing from a position on is replacing in what stands from there on.
proof fn replaced_in_the_rest(
    text: Seq<char>,
    pattern: Seq<char>,
    replacement: Seq<char>,
    i: int,
)
    requires
        pattern.len() > 0,
        0 <= i <= text.len(),
    ensures
        replaced_from(text, pattern, replacement, i) == spec_replace(
            text.skip(i),
            pattern,
            replacement,
        ),
{
    shifted(text, pattern, replacement, i, 0);
}

/// Replacing in the rest of a text from a position on is replacing in the text further on.
proof fn shifted(
    text: Seq<char>,
    pattern: Seq<char>,
    replacement: Seq<char>,
    i: int,
    k: int,
)
    requires
        pattern.len() > 0,
        0 <= i,
        0 <= k,
        i + k <= text.len(),
    ensures
        replaced_from(text, pattern, replacement, i + k) == replaced_from(
            text.skip(i),
            pattern,
            replacement,
            k,
        ),
    decreases text.len() - i - k,
{
    let rest = text.skip(i);
    if i + k >= text.len() {
        assert(text.skip(i + k) =~= rest.skip(k));
    } else {
        assert(occurs_at(text, pattern, i + k) <==> occurs_at(rest, pattern, k)) by {
            if i + k + pattern.len() <= text.len() {
                assert(text.subrange(i + k, i + k + pattern.len()) =~= rest.subrange(
                    k,
                    k + pattern.len(),
                ));
            }
        }
        if occurs_at(text, pattern, i + k) {
            shifted(text, pattern, replacement, i, k + pattern.len());
        } else {
            assert(text[i + k] == rest[k]);
            shifted(text, pattern, replacement, i, k + 1);
        }
    }
}

} // verus!
