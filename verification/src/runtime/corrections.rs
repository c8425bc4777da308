//! Corrections that a request makes of itself: only what was meant in the end stays.
use vstd::prelude::*;
use crate::contents;
use crate::runtime::matching;
use crate::runtime::noise;
use crate::runtime::spacing;
use crate::runtime::spans;
use crate::text;
use crate::runtime::typos;

verus! {

broadcast use crate::contents::group_contents;

/// Characters besides letters and digits that a corrected value may hold.
pub const CORRECTION_CHARACTERS: &'static str = "_-./:+#@=<>%±";

/// Particles that may stand between a corrected value and the remark of correction.
pub const CORRECTION_PARTICLES: [&'static str; 7] = ["も", "は", "を", "が", "に", "で", "と"];

/// Remarks between a value and the one that replaces it.
pub const CORRECTION_MARKERS: [&'static str; 8] = [
    "と書きましたが正しくは",
    "と書いたけど正しくは",
    "、いや最終的に",
    "、いや正しくは",
    "、いや",
    "、じゃなくて",
    "じゃなくて",
    "、正しくは",
];

/// Words of doubt before a value that is corrected.
pub const DISCOURSE_WORDS: [&'static str; 4] = ["たぶん", "おそらく", "最初", "当初"];

/// Remarks that begin a confirmation.
pub const CONFIRMATION_MARKERS: [&'static str; 2] = ["、あっ", "、あ、"];

/// Remarks that confirm a value.
pub const CONFIRMATIONS: [&'static str; 4] = [
    "で合ってます",
    "で合っています",
    "で正しいです",
    "で間違いありません",
];

/// Terms that requests tend to correct and then repeat.
pub const REPEATED_TERMS: [&'static str; 28] = [
    "React",
    "useSearchParams",
    "status",
    "AbortController",
    "Vitest",
    "TypeScript",
    "Shift_JIS",
    "UTF-8 BOM",
    "10MB",
    "INVALID_FILE_SIZE",
    "columns",
    "dryRun",
    "Next.js",
    "POST /api/orders",
    "customerId",
    "HTTP 400",
    "INVALID_CUSTOMER",
    "requestId",
    "user-settings.json",
    "application/local/state",
    "WebSocket",
    "2秒",
    "±20%",
    "close code 4001",
    "socket",
    "message handler",
    "10回",
    "fake timer",
];

/// The condition of [`is_correction_token_character`]: a corrected value may hold the character.
pub open spec fn spec_is_correction_token_character(c: char) -> bool {
    text::spec_is_alnum(c) || CORRECTION_CHARACTERS@.contains(c)
}

/// Whether a corrected value may hold the character.
pub fn is_correction_token_character(c: char) -> (r: bool)
    ensures
        r == spec_is_correction_token_character(c),
{
    text::is_alnum(c) || text::char_in(c, CORRECTION_CHARACTERS)
}

/// The state of [`trailing_token`] after the given items.
pub open spec fn spec_token_ending(items: Seq<char>) -> Seq<char>
    decreases items.len(),
{
    if items.len() == 0 {
        Seq::<char>::empty()
    } else {
        let token = spec_token_ending(items.drop_last());
        let c = items.last();
        if spec_is_correction_token_character(c) {
            token.push(c)
        } else {
            Seq::<char>::empty()
        }
    }
}

/// Value of [`trailing_token`].
#[verifier::opaque]
pub open spec fn spec_trailing_token(value: Seq<char>) -> Seq<char> {
    spec_token_ending(value)
}

/// The characters of a corrected value at the end of the text.
pub fn trailing_token(value: &str) -> (r: String)
    ensures
        r@ == spec_trailing_token(value@),
{
    proof {
        reveal(spec_trailing_token);
    }
    let mut token: String = String::new();
    let characters: Vec<char> = text::to_chars(value);
    let mut i: usize = 0;
    while i < characters.len()
        invariant
            i <= characters@.len(),
            token@ == spec_token_ending(characters@.take(i as int)),
        decreases characters@.len() - i,
    {
        assert(characters@.take(i + 1).drop_last() =~= characters@.take(i as int));
        let c: char = characters[i];
        i = i + 1;
        if is_correction_token_character(c) {
            token.push(c);
        } else {
            token = String::new();
        }
    }
    assert(characters@.take(characters@.len() as int) =~= characters@);
    token
}

/// What [`leading_token`] comes to from position `i` of the items on.
pub open spec fn spec_token_beginning(items: Seq<char>, i: int, token: Seq<char>) -> Seq<char>
    decreases items.len() - i,
{
    if i >= items.len() {
        token
    } else {
        let c = items[i];
        if !spec_is_correction_token_character(c) {
            token
        } else {
            let token = token.push(c);
            spec_token_beginning(items, i + 1, token)
        }
    }
}

/// Value of [`leading_token`].
#[verifier::opaque]
pub open spec fn spec_leading_token(value: Seq<char>) -> Seq<char> {
    let token = Seq::<char>::empty();
    spec_token_beginning(value, 0, token)
}

/// The characters of a corrected value at the start of the text.
pub fn leading_token(value: &str) -> (r: String)
    ensures
        r@ == spec_leading_token(value@),
{
    proof {
        reveal(spec_leading_token);
    }
    let mut token: String = String::new();
    let characters: Vec<char> = text::to_chars(value);
    let ghost goal = spec_token_beginning(characters@, 0, token@);
    let mut i: usize = 0;
    while i < characters.len()
        invariant_except_break
            goal == spec_token_beginning(characters@, i as int, token@),
        invariant
            i <= characters@.len(),
        ensures
            goal == token@,
        decreases characters@.len() - i,
    {
        let c: char = characters[i];
        i = i + 1;
        if !is_correction_token_character(c) {
            break;
        }
        token.push(c);
    }
    token
}

/// What [`without_particle`] comes to from position `i` of the items on.
pub open spec fn spec_particle_dropped(items: Seq<&str>, i: int, value: Seq<char>) -> Seq<char>
    decreases items.len() - i,
{
    if i >= items.len() {
        value
    } else {
        let particle = items[i]@;
        match text::spec_strip_suffix(value, particle) {
            Some(stem) => stem,
            None => spec_particle_dropped(items, i + 1, value),
        }
    }
}

/// Value of [`without_particle`].
pub open spec fn spec_without_particle(value: Seq<char>) -> Seq<char> {
    spec_particle_dropped(CORRECTION_PARTICLES@, 0, value)
}

/// The text without one particle at its end.
pub fn without_particle(value: &str) -> (r: String)
    ensures
        r@ == spec_without_particle(value@),
{
    let ghost goal = spec_particle_dropped(CORRECTION_PARTICLES@, 0, value@);
    let mut i: usize = 0;
    while i < CORRECTION_PARTICLES.len()
        invariant
            i <= CORRECTION_PARTICLES@.len(),
            goal == spec_particle_dropped(CORRECTION_PARTICLES@, i as int, value@),
            goal == spec_without_particle(value@),
        decreases CORRECTION_PARTICLES@.len() - i,
    {
        let particle: &str = CORRECTION_PARTICLES[i];
        i = i + 1;
        match text::strip_suffix(value, particle) {
            Some(stem) => {
                return stem;
            },
            None => {
            },
        }
    }
    value.to_owned()
}

/// Value of [`before_correction_token`].
#[verifier::opaque]
pub open spec fn spec_before_correction_token(value: Seq<char>) -> Option<Seq<char>> {
    let token_prefix = spec_without_particle(text::spec_trim_end(value));
    let token = spec_trailing_token(token_prefix);
    if token.len() == 0 || !matching::spec_any_alnum(token) {
        None
    } else {
        text::spec_strip_suffix(token_prefix, token)
    }
}

/// What stands before the value that a correction replaces; nothing where the text ends with no
/// value.
pub fn before_correction_token(value: &str) -> (r: Option<String>)
    ensures
        contents::view_option(r) == spec_before_correction_token(value@),
{
    proof {
        reveal(spec_before_correction_token);
    }
    let token_prefix: String = without_particle(&text::trim_end(value));
    let token: String = trailing_token(&token_prefix);
    if text::char_count(&token) == 0 || !matching::any_alnum(&token) {
        return None;
    }
    text::strip_suffix(&token_prefix, &token)
}

/// Value of [`leading_correction_token`].
#[verifier::opaque]
pub open spec fn spec_leading_correction_token(value: Seq<char>) -> Option<Seq<char>> {
    let token = spec_leading_token(value);
    if token.len() == 0 || !matching::spec_any_alnum(token) {
        None
    } else {
        Some(token)
    }
}

/// The value that the text begins with, where it begins with one.
pub fn leading_correction_token(value: &str) -> (r: Option<String>)
    ensures
        contents::view_option(r) == spec_leading_correction_token(value@),
{
    proof {
        reveal(spec_leading_correction_token);
    }
    let token: String = leading_token(value);
    if text::char_count(&token) == 0 || !matching::any_alnum(&token) {
        return None;
    }
    Some(token)
}

/// The state of [`without_discourse_words`] after the given items.
pub open spec fn spec_discourse_dropped(items: Seq<&str>, retained: Seq<char>) -> Seq<char>
    decreases items.len(),
{
    if items.len() == 0 {
        retained
    } else {
        let retained = spec_discourse_dropped(items.drop_last(), retained);
        let discourse = items.last()@;
        match text::spec_strip_suffix(retained, discourse) {
            Some(stem) => text::spec_trim_end(stem),
            None => retained,
        }
    }
}

/// Value of [`without_discourse_words`].
pub open spec fn spec_without_discourse_words(text: Seq<char>) -> Seq<char> {
    let retained = text::spec_trim_end(text);
    spec_discourse_dropped(DISCOURSE_WORDS@, retained)
}

/// The text without words of doubt at its end.
pub fn without_discourse_words(text: &str) -> (r: String)
    ensures
        r@ == spec_without_discourse_words(text@),
{
    let mut retained: String = text::trim_end(text);
    let ghost initial_retained = retained@;
    let mut i: usize = 0;
    while i < DISCOURSE_WORDS.len()
        invariant
            i <= DISCOURSE_WORDS@.len(),
            retained@ == spec_discourse_dropped(DISCOURSE_WORDS@.take(i as int), initial_retained),
        decreases DISCOURSE_WORDS@.len() - i,
    {
        assert(DISCOURSE_WORDS@.take(i + 1).drop_last() =~= DISCOURSE_WORDS@.take(i as int));
        let discourse: &str = DISCOURSE_WORDS[i];
        i = i + 1;
        match text::strip_suffix(&retained, discourse) {
            Some(stem) => {
                retained = text::trim_end(&stem);
            },
            None => {
            },
        }
    }
    assert(DISCOURSE_WORDS@.take(DISCOURSE_WORDS@.len() as int) =~= DISCOURSE_WORDS@);
    retained
}

/// Value of [`corrected_once`].
#[verifier::opaque]
pub open spec fn spec_corrected_once(text: Seq<char>, marker: Seq<char>) -> Option<Seq<char>> {
    match text::spec_split_once(text, marker) {
        None => None,
        Some(sides) => {
            let after = text::spec_trim_start(sides.1);
            match spec_before_correction_token(sides.0) {
                None => None,
                Some(before) => {
                    if spec_leading_correction_token(after) is None {
                        None
                    } else {
                        Some(spec_without_discourse_words(before) + after)
                    }
                },
            }
        },
    }
}

/// The text with the value before the first place of the marker replaced by the one after it;
/// nothing where there is none to replace.
pub fn corrected_once(text: &str, marker: &str) -> (r: Option<String>)
    ensures
        contents::view_option(r) == spec_corrected_once(text@, marker@),
{
    proof {
        reveal(spec_corrected_once);
    }
    let sides = match text::split_once(text, marker) {
        Some(value) => value,
        None => {
            return None;
        },
    };
    let after: String = text::trim_start(&sides.1);
    let before: String = match before_correction_token(&sides.0) {
        Some(value) => value,
        None => {
            return None;
        },
    };
    if leading_correction_token(&after).is_none() {
        return None;
    }
    Some(text::concat2(&without_discourse_words(&before), &after))
}

/// The text with the corrections that the marker announces carried out, as long as each makes
/// it shorter.
pub open spec fn spec_corrected_at(text: Seq<char>, marker: Seq<char>) -> Seq<char>
    decreases text.len(),
{
    match spec_corrected_once(text, marker) {
        None => text,
        Some(next) => if next.len() < text.len() {
            spec_corrected_at(next, marker)
        } else {
            next
        },
    }
}

/// Carries out the corrections that the marker announces, one after the other.
pub fn corrected_at(text: &str, marker: &str) -> (r: String)
    ensures
        r@ == spec_corrected_at(text@, marker@),
{
    let mut current: String = text.to_owned();
    loop
        invariant
            spec_corrected_at(text@, marker@) == spec_corrected_at(current@, marker@),
        decreases current@.len(),
    {
        match corrected_once(&current, marker) {
            None => {
                return current;
            },
            Some(next) => {
                if text::char_count(&next) >= text::char_count(&current) {
                    return next;
                }
                current = next;
            },
        }
    }
}

/// The state of [`normalize_explicit_ascii_self_corrections`] after the given items.
pub open spec fn spec_corrections_made(items: Seq<&str>, normalized: Seq<char>) -> Seq<char>
    decreases items.len(),
{
    if items.len() == 0 {
        normalized
    } else {
        let normalized = spec_corrections_made(items.drop_last(), normalized);
        let marker = items.last()@;
        spec_corrected_at(normalized, marker)
    }
}

/// Value of [`normalize_explicit_ascii_self_corrections`].
pub open spec fn spec_normalize_explicit_ascii_self_corrections(input: Seq<char>) -> Seq<char> {
    let normalized = input;
    spec_corrections_made(CORRECTION_MARKERS@, normalized)
}

/// Carries out the corrections that a request announces: the value after the remark replaces the
/// one before it.
pub fn normalize_explicit_ascii_self_corrections(input: &str) -> (r: String)
    ensures
        r@ == spec_normalize_explicit_ascii_self_corrections(input@),
{
    let mut normalized: String = input.to_owned();
    let ghost initial_normalized = normalized@;
    let mut i: usize = 0;
    while i < CORRECTION_MARKERS.len()
        invariant
            i <= CORRECTION_MARKERS@.len(),
            normalized@ == spec_corrections_made(
                CORRECTION_MARKERS@.take(i as int),
                initial_normalized,
            ),
        decreases CORRECTION_MARKERS@.len() - i,
    {
        assert(CORRECTION_MARKERS@.take(i + 1).drop_last() =~= CORRECTION_MARKERS@.take(i as int));
        let marker: &str = CORRECTION_MARKERS[i];
        i = i + 1;
        normalized = corrected_at(&normalized, marker);
    }
    assert(CORRECTION_MARKERS@.take(CORRECTION_MARKERS@.len() as int) =~= CORRECTION_MARKERS@);
    normalized
}

/// Value of [`confirmed_once`].
#[verifier::opaque]
pub open spec fn spec_confirmed_once(text: Seq<char>, marker: Seq<char>) -> Option<Seq<char>> {
    match text::spec_split_once(text, marker) {
        None => None,
        Some(sides) => {
            let head = text::spec_head_until(sides.1, "。！？\n、,"@);
            let fragment = text::spec_trim(head);
            match spec_leading_correction_token(fragment) {
                None => None,
                Some(token) => {
                    let confirmation = text::spec_trim(
                        text::spec_skip(fragment, token.len() as int),
                    );
                    if !text::spec_is_one_of(confirmation, CONFIRMATIONS@)
                        || !matching::spec_contains_ascii_case_insensitive(sides.0, token) {
                        None
                    } else {
                        Some(sides.0 + text::spec_skip(sides.1, head.len() as int))
                    }
                },
            }
        },
    }
}

/// The text without the first confirmation that the marker begins; nothing where no value that
/// stands before is confirmed.
pub fn confirmed_once(text: &str, marker: &str) -> (r: Option<String>)
    ensures
        contents::view_option(r) == spec_confirmed_once(text@, marker@),
{
    proof {
        reveal(spec_confirmed_once);
    }
    let sides = match text::split_once(text, marker) {
        Some(value) => value,
        None => {
            return None;
        },
    };
    let head: String = text::head_until(&sides.1, "。！？\n、,");
    let fragment: String = text::trim(&head);
    let token: String = match leading_correction_token(&fragment) {
        Some(value) => value,
        None => {
            return None;
        },
    };
    let confirmation: String = text::trim(&text::skip(&fragment, text::char_count(&token)));
    if !text::is_one_of(&confirmation, &CONFIRMATIONS)
        || !matching::contains_ascii_case_insensitive(&sides.0, &token) {
        return None;
    }
    Some(text::concat2(&sides.0, &text::skip(&sides.1, text::char_count(&head))))
}

/// The text without the confirmations that the marker begins, as long as each leaves it shorter.
pub open spec fn spec_confirmed_at(text: Seq<char>, marker: Seq<char>) -> Seq<char>
    decreases text.len(),
{
    match spec_confirmed_once(text, marker) {
        None => text,
        Some(next) => if next.len() < text.len() {
            spec_confirmed_at(next, marker)
        } else {
            next
        },
    }
}

/// Drops the confirmations that the marker begins, one after the other.
pub fn confirmed_at(text: &str, marker: &str) -> (r: String)
    ensures
        r@ == spec_confirmed_at(text@, marker@),
{
    let mut current: String = text.to_owned();
    loop
        invariant
            spec_confirmed_at(text@, marker@) == spec_confirmed_at(current@, marker@),
        decreases current@.len(),
    {
        match confirmed_once(&current, marker) {
            None => {
                return current;
            },
            Some(next) => {
                if text::char_count(&next) >= text::char_count(&current) {
                    return next;
                }
                current = next;
            },
        }
    }
}

/// The state of [`remove_repeated_ascii_confirmations`] after the given items.
pub open spec fn spec_confirmations_dropped(items: Seq<&str>, normalized: Seq<char>) -> Seq<char>
    decreases items.len(),
{
    if items.len() == 0 {
        normalized
    } else {
        let normalized = spec_confirmations_dropped(items.drop_last(), normalized);
        let marker = items.last()@;
        spec_confirmed_at(normalized, marker)
    }
}

/// Value of [`remove_repeated_ascii_confirmations`].
pub open spec fn spec_remove_repeated_ascii_confirmations(input: Seq<char>) -> Seq<char> {
    let normalized = input;
    spec_confirmations_dropped(CONFIRMATION_MARKERS@, normalized)
}

/// Drops remarks that only confirm a value given before.
pub fn remove_repeated_ascii_confirmations(input: &str) -> (r: String)
    ensures
        r@ == spec_remove_repeated_ascii_confirmations(input@),
{
    let mut normalized: String = input.to_owned();
    let ghost initial_normalized = normalized@;
    let mut i: usize = 0;
    while i < CONFIRMATION_MARKERS.len()
        invariant
            i <= CONFIRMATION_MARKERS@.len(),
            normalized@ == spec_confirmations_dropped(
                CONFIRMATION_MARKERS@.take(i as int),
                initial_normalized,
            ),
        decreases CONFIRMATION_MARKERS@.len() - i,
    {
        assert(CONFIRMATION_MARKERS@.take(i + 1).drop_last()
            =~= CONFIRMATION_MARKERS@.take(i as int));
        let marker: &str = CONFIRMATION_MARKERS[i];
        i = i + 1;
        normalized = confirmed_at(&normalized, marker);
    }
    assert(CONFIRMATION_MARKERS@.take(CONFIRMATION_MARKERS@.len() as int)
        =~= CONFIRMATION_MARKERS@);
    normalized
}

/// Value of [`collapse_repeated_term`].
pub open spec fn spec_collapse_repeated_term(text: Seq<char>, term: Seq<char>) -> Seq<char> {
    let t1 = text::spec_replace(text, term + "、じゃなくて "@ + term, term);
    let t2 = text::spec_replace(t1, term + "、ではなく"@ + term, term);
    let t3 = text::spec_replace(t2, term + "、ではなく "@ + term, term);
    let t4 = text::spec_replace(t3, term + "じゃなくて "@ + term, term);
    let t5 = text::spec_replace(t4, term + " ではなく "@ + term, term);
    let t6 = text::spec_replace(t5, term + "ではなく "@ + term, term);
    let t7 = text::spec_replace(t6, term + " と書いたけど正しくは "@ + term, term);
    let t8 = text::spec_replace(t7, term + "、正しくは "@ + term, term);
    let t9 = text::spec_replace(t8, term + "、すみません "@ + term, term);
    let t10 = text::spec_replace(t9, term + "、表記は "@ + term, term);
    let t11 = text::spec_replace(t10, term + " かな、正式には "@ + term, term);
    let t12 = text::spec_replace(
        t11,
        term + " と書きかけましたが "@ + term + " が正しい名前"@,
        term,
    );
    let t13 = text::spec_replace(t12, term + "、いや"@ + term, term);
    let t14 = text::spec_replace(t13, term + " は "@ + term + " です"@, term);
    let t15 = text::spec_replace(t14, term + ","@ + term, term);
    text::spec_replace(t15, term + "、"@ + term, term)
}

/// The text with a term that is corrected to itself, or repeated, given once.
pub fn collapse_repeated_term(text: &str, term: &str) -> (r: String)
    ensures
        r@ == spec_collapse_repeated_term(text@, term@),
{
    let t1: String = text::replace(text, &text::concat3(term, "、じゃなくて ", term), term);
    let t2: String = text::replace(&t1, &text::concat3(term, "、ではなく", term), term);
    let t3: String = text::replace(&t2, &text::concat3(term, "、ではなく ", term), term);
    let t4: String = text::replace(&t3, &text::concat3(term, "じゃなくて ", term), term);
    let t5: String = text::replace(&t4, &text::concat3(term, " ではなく ", term), term);
    let t6: String = text::replace(&t5, &text::concat3(term, "ではなく ", term), term);
    let t7: String = text::replace(&t6, &text::concat3(term, " と書いたけど正しくは ", term), term);
    let t8: String = text::replace(&t7, &text::concat3(term, "、正しくは ", term), term);
    let t9: String = text::replace(&t8, &text::concat3(term, "、すみません ", term), term);
    let t10: String = text::replace(&t9, &text::concat3(term, "、表記は ", term), term);
    let t11: String = text::replace(&t10, &text::concat3(term, " かな、正式には ", term), term);
    let t12: String = text::replace(
        &t11,
        &text::concat4(term, " と書きかけましたが ", term, " が正しい名前"),
        term,
    );
    let t13: String = text::replace(&t12, &text::concat3(term, "、いや", term), term);
    let t14: String = text::replace(&t13, &text::concat4(term, " は ", term, " です"), term);
    let t15: String = text::replace(&t14, &text::concat3(term, ",", term), term);
    text::replace(&t15, &text::concat3(term, "、", term), term)
}

/// The state of [`normalize_self_correction_span`] after the given items.
pub open spec fn spec_repetitions_collapsed(items: Seq<&str>, normalized: Seq<char>) -> Seq<char>
    decreases items.len(),
{
    if items.len() == 0 {
        normalized
    } else {
        let normalized = spec_repetitions_collapsed(items.drop_last(), normalized);
        let term = items.last()@;
        spec_collapse_repeated_term(normalized, term)
    }
}

/// Value of [`normalize_self_correction_span`].
#[verifier::opaque]
pub open spec fn spec_normalize_self_correction_span(input: Seq<char>) -> Seq<char> {
    let normalized = spec_remove_repeated_ascii_confirmations(
        spec_normalize_explicit_ascii_self_corrections(input),
    );
    let normalized = spec_repetitions_collapsed(REPEATED_TERMS@, normalized);
    text::spec_replace(text::spec_replace(normalized, "しません"@, "しない"@), "ですです"@, "です"@)
}

/// Carries out the corrections of a span of text and drops confirmations and repetitions.
pub fn normalize_self_correction_span(input: &str) -> (r: String)
    ensures
        r@ == spec_normalize_self_correction_span(input@),
{
    proof {
        reveal(spec_normalize_self_correction_span);
    }
    let mut normalized: String = remove_repeated_ascii_confirmations(
        &normalize_explicit_ascii_self_corrections(input),
    );
    let ghost initial_normalized = normalized@;
    let mut i: usize = 0;
    while i < REPEATED_TERMS.len()
        invariant
            i <= REPEATED_TERMS@.len(),
            normalized@ == spec_repetitions_collapsed(
                REPEATED_TERMS@.take(i as int),
                initial_normalized,
            ),
        decreases REPEATED_TERMS@.len() - i,
    {
        assert(REPEATED_TERMS@.take(i + 1).drop_last() =~= REPEATED_TERMS@.take(i as int));
        let term: &str = REPEATED_TERMS[i];
        i = i + 1;
        normalized = collapse_repeated_term(&normalized, term);
    }
    assert(REPEATED_TERMS@.take(REPEATED_TERMS@.len() as int) =~= REPEATED_TERMS@);
    text::replace(&text::replace(&normalized, "しません", "しない"), "ですです", "です")
}

/// Value of [`normalize_self_correction_artifacts`].
#[verifier::opaque]
pub open spec fn spec_normalize_self_correction_artifacts(input: Seq<char>) -> Seq<char> {
    spans::spec_map_unquoted_spans(input, |s: Seq<char>| spec_normalize_self_correction_span(s))
}

/// Carries out the corrections that a request makes of itself outside quoted literals.
pub fn normalize_self_correction_artifacts(input: &str) -> (r: String)
    ensures
        r@ == spec_normalize_self_correction_artifacts(input@),
{
    proof {
        reveal(spec_normalize_self_correction_artifacts);
    }
    spans::map_unquoted_spans(
        input,
        normalize_self_correction_span,
        Ghost(|s: Seq<char>| spec_normalize_self_correction_span(s)),
    )
}

/// Value of [`normalized_verification_input`].
#[verifier::opaque]
pub open spec fn spec_normalized_verification_input(input: Seq<char>) -> Seq<char> {
    spec_normalize_self_correction_artifacts(
        typos::spec_normalize_known_input_typos_for_llm(
            noise::spec_remove_obvious_input_noise(spacing::spec_normalize_input_whitespace(input)),
        ),
    )
}

/// The request as it is verified against: white space normalized, noise dropped, misspellings and
/// self-corrections carried out.
pub fn normalized_verification_input(input: &str) -> (r: String)
    ensures
        r@ == spec_normalized_verification_input(input@),
{
    proof {
        reveal(spec_normalized_verification_input);
    }
    normalize_self_correction_artifacts(
        &typos::normalize_known_input_typos_for_llm(
            &noise::remove_obvious_input_noise(&spacing::normalize_input_whitespace(input)),
        ),
    )
}

/// The value that a text ends with.
proof fn values_end_texts(before: Seq<char>, value: Seq<char>)
    requires
        forall|i: int|
            0 <= i < value.len() ==> spec_is_correction_token_character(#[trigger] value[i]),
        before.len() == 0 || !spec_is_correction_token_character(before.last()),
    ensures
        spec_trailing_token(before + value) == value,
    decreases value.len(),
{
    reveal(spec_trailing_token);
    let whole = before + value;
    if value.len() == 0 {
        assert(whole =~= before);
        assert(spec_token_ending(before) =~= value);
    } else {
        let shorter = value.drop_last();
        assert forall|i: int| 0 <= i < shorter.len() implies spec_is_correction_token_character(
            #[trigger] shorter[i],
        ) by {
            assert(shorter[i] == value[i]);
        }
        values_end_texts(before, shorter);
        assert(whole.drop_last() =~= before + shorter);
        assert(whole.last() == value[value.len() - 1]);
        assert(shorter.push(value.last()) =~= value);
    }
}

/// The value that a text begins with is not empty where its first character may be part of one.
proof fn values_begin_texts(items: Seq<char>, i: int, token: Seq<char>)
    requires
        0 <= i <= items.len(),
    ensures
        spec_token_beginning(items, i, token).len() >= token.len(),
        spec_token_beginning(items, i, token).take(token.len() as int) == token,
    decreases items.len() - i,
{
    let all = spec_token_beginning(items, i, token);
    if i < items.len() && spec_is_correction_token_character(items[i]) {
        values_begin_texts(items, i + 1, token.push(items[i]));
        assert(all.take(token.len() as int) =~= all.take((token.len() + 1) as int).take(
            token.len() as int,
        ));
        assert(token.push(items[i]).take(token.len() as int) =~= token);
    } else {
        assert(all.take(token.len() as int) =~= token);
    }
}

/// A text that ends with a letter, a digit or a sign of values ends with no particle.
proof fn values_end_with_no_particle(text: Seq<char>, i: int)
    requires
        text.len() > 0,
        spec_is_correction_token_character(text.last()),
        0 <= i <= CORRECTION_PARTICLES@.len(),
    ensures
        spec_particle_dropped(CORRECTION_PARTICLES@, i, text) == text,
    decreases CORRECTION_PARTICLES@.len() - i,
{
    reveal_strlit("も");
    reveal_strlit("は");
    reveal_strlit("を");
    reveal_strlit("が");
    reveal_strlit("に");
    reveal_strlit("で");
    reveal_strlit("と");
    reveal_strlit("_-./:+#@=<>%±");
    if i < CORRECTION_PARTICLES@.len() {
        let particle = CORRECTION_PARTICLES@[i]@;
        assert(particle.len() == 1);
        assert(!spec_is_correction_token_character(particle[0]));
        if text::spec_ends_with(text, particle) {
            assert(text.subrange(text.len() - 1, text.len() as int)[0] == text.last());
        }
        values_end_with_no_particle(text, i + 1);
    }
}

/// Where a value is corrected, the value before the first place of the remark gives way to the one
/// after it: what stood before the old value stays, but for words of doubt at its end, and so does
/// the new value with all that follows.
pub proof fn corrected_values_give_way(
    before: Seq<char>,
    old_value: Seq<char>,
    marker: Seq<char>,
    after: Seq<char>,
)
    requires
        old_value.len() > 0,
        forall|i: int|
            0 <= i < old_value.len() ==> text::spec_is_alnum(#[trigger] old_value[i]),
        before.len() == 0 || !spec_is_correction_token_character(before.last()),
        text::spec_find(before + old_value + marker + after, marker) == Some(
            (before.len() + old_value.len()) as int,
        ),
        text::spec_trim_start(after).len() > 0,
        text::spec_is_alnum(text::spec_trim_start(after)[0]),
    ensures
        spec_corrected_once(before + old_value + marker + after, marker) == Some(
            spec_without_discourse_words(before) + text::spec_trim_start(after),
        ),
{
    reveal(spec_corrected_once);
    reveal(spec_before_correction_token);
    reveal(spec_leading_correction_token);
    reveal(spec_leading_token);
    let whole = before + old_value + marker + after;
    let head = before + old_value;
    let k = head.len() as int;
    assert(whole.take(k) =~= head);
    assert(whole.skip(k + marker.len()) =~= after);
    assert(head.last() == old_value[old_value.len() - 1]);
    assert(!text::spec_is_whitespace(head.last()));
    assert(text::spec_trim_end(head) == head);
    values_end_with_no_particle(head, 0);
    values_end_texts(before, old_value);
    assert(matching::spec_any_alnum(old_value)) by {
        assert(text::spec_is_alnum(old_value[0]));
    }
    assert(head.subrange(head.len() - old_value.len(), head.len() as int) =~= old_value);
    assert(head.take(head.len() - old_value.len()) =~= before);
    let rest = text::spec_trim_start(after);
    let nothing = Seq::<char>::empty();
    values_begin_texts(rest, 1, nothing.push(rest[0]));
    let token = spec_leading_token(rest);
    assert(token == spec_token_beginning(rest, 1, nothing.push(rest[0])));
    assert(token[0] == rest[0]) by {
        assert(token.take(1)[0] == token[0]);
    }
    assert(matching::spec_any_alnum(token));
}

/// A text without the remark stays as it is.
pub proof fn texts_without_corrections_stay(text: Seq<char>, marker: Seq<char>)
    requires
        !text::spec_contains(text, marker),
    ensures
        spec_corrected_at(text, marker) == text,
        spec_confirmed_at(text, marker) == text,
{
    reveal(spec_corrected_once);
    reveal(spec_confirmed_once);
    text::lemma_find_from(text, marker, 0);
}

/// The remark announces a correction.
pub open spec fn announces_correction(marker: Seq<char>) -> bool {
    ||| marker == "と書きましたが正しくは"@
    ||| marker == "と書いたけど正しくは"@
    ||| marker == "、いや最終的に"@
    ||| marker == "、いや正しくは"@
    ||| marker == "、いや"@
    ||| marker == "、じゃなくて"@
    ||| marker == "じゃなくて"@
    ||| marker == "、正しくは"@
}

/// Words of doubt that are dropped leave a text no longer than it was.
proof fn doubts_leave_texts_no_longer(items: Seq<&str>, text: Seq<char>)
    ensures
        spec_discourse_dropped(items, text).len() <= text.len(),
    decreases items.len(),
{
    if items.len() > 0 {
        doubts_leave_texts_no_longer(items.drop_last(), text);
        let before = spec_discourse_dropped(items.drop_last(), text);
        match text::spec_strip_suffix(before, items.last()@) {
            Some(stem) => {
                text::trim_end_of(stem);
            },
            None => {},
        }
    }
}

/// Remarks that do not stand in a text change nothing of it.
proof fn absent_remarks_change_nothing(items: Seq<&str>, text: Seq<char>)
    requires
        forall|i: int| 0 <= i < items.len() ==> !text::spec_contains(text, #[trigger] items[i]@),
    ensures
        spec_corrections_made(items, text) == text,
    decreases items.len(),
{
    if items.len() > 0 {
        let fewer = items.drop_last();
        assert forall|i: int| 0 <= i < fewer.len() implies !text::spec_contains(
            text,
            #[trigger] fewer[i]@,
        ) by {
            assert(fewer[i] == items[i]);
        }
        absent_remarks_change_nothing(fewer, text);
        assert(!text::spec_contains(text, items[items.len() - 1]@));
        texts_without_corrections_stay(text, items.last()@);
    }
}

/// Where one remark of a list changes a text, and no other stands in it before or after, the change
/// is what comes of all.
proof fn one_remark_changes_the_text(
    items: Seq<&str>,
    text: Seq<char>,
    k: int,
    changed: Seq<char>,
)
    requires
        0 <= k < items.len(),
        spec_corrected_at(text, items[k]@) == changed,
        forall|i: int|
            0 <= i < items.len() && i != k ==> !text::spec_contains(text, #[trigger] items[i]@),
        forall|i: int| 0 <= i < items.len() ==> !text::spec_contains(changed, #[trigger] items[i]@),
    ensures
        spec_corrections_made(items, text) == changed,
    decreases items.len(),
{
    let fewer = items.drop_last();
    assert forall|i: int| 0 <= i < fewer.len() implies fewer[i] == #[trigger] items[i] by {}
    if k == items.len() - 1 {
        assert forall|i: int| 0 <= i < fewer.len() implies !text::spec_contains(
            text,
            #[trigger] fewer[i]@,
        ) by {
            assert(fewer[i] == items[i]);
        }
        absent_remarks_change_nothing(fewer, text);
    } else {
        assert forall|i: int|
            0 <= i < fewer.len() && i != k implies !text::spec_contains(
            text,
            #[trigger] fewer[i]@,
        ) by {
            assert(fewer[i] == items[i]);
        }
        assert forall|i: int| 0 <= i < fewer.len() implies !text::spec_contains(
            changed,
            #[trigger] fewer[i]@,
        ) by {
            assert(fewer[i] == items[i]);
        }
        assert(fewer[k] == items[k]);
        one_remark_changes_the_text(fewer, text, k, changed);
        assert(!text::spec_contains(changed, items[items.len() - 1]@));
        texts_without_corrections_stay(changed, items.last()@);
    }
}

/// Where a request corrects a value once, by a remark that announces it, the old value and the
/// remark are gone and all else stays, but for words of doubt and white space around them.
pub proof fn announced_corrections_are_carried_out(
    before: Seq<char>,
    old_value: Seq<char>,
    marker: Seq<char>,
    after: Seq<char>,
)
    requires
        announces_correction(marker),
        old_value.len() > 0,
        forall|i: int|
            0 <= i < old_value.len() ==> text::spec_is_alnum(#[trigger] old_value[i]),
        before.len() == 0 || !spec_is_correction_token_character(before.last()),
        text::spec_find(before + old_value + marker + after, marker) == Some(
            (before.len() + old_value.len()) as int,
        ),
        text::spec_trim_start(after).len() > 0,
        text::spec_is_alnum(text::spec_trim_start(after)[0]),
        forall|other: Seq<char>|
            announces_correction(other) && other != marker ==> !#[trigger] text::spec_contains(
                before + old_value + marker + after,
                other,
            ),
        forall|other: Seq<char>|
            announces_correction(other) ==> !#[trigger] text::spec_contains(
                spec_without_discourse_words(before) + text::spec_trim_start(after),
                other,
            ),
    ensures
        spec_normalize_explicit_ascii_self_corrections(before + old_value + marker + after)
            == spec_without_discourse_words(before) + text::spec_trim_start(after),
{
    let whole = before + old_value + marker + after;
    let changed = spec_without_discourse_words(before) + text::spec_trim_start(after);
    let items = CORRECTION_MARKERS@;
    reveal_strlit("と書きましたが正しくは");
    reveal_strlit("と書いたけど正しくは");
    reveal_strlit("、いや最終的に");
    reveal_strlit("、いや正しくは");
    reveal_strlit("、いや");
    reveal_strlit("、じゃなくて");
    reveal_strlit("じゃなくて");
    reveal_strlit("、正しくは");
    corrected_values_give_way(before, old_value, marker, after);
    text::trim_end_of(before);
    doubts_leave_texts_no_longer(DISCOURSE_WORDS@, text::spec_trim_end(before));
    text::trim_start_of(after);
    assert(changed.len() < whole.len());
    texts_without_corrections_stay(changed, marker);
    assert(spec_corrected_at(whole, marker) == changed);
    assert(items[0]@ == "と書きましたが正しくは"@ && items[1]@ == "と書いたけど正しくは"@
        && items[2]@ == "、いや最終的に"@ && items[3]@ == "、いや正しくは"@ && items[4]@ == "、いや"@
        && items[5]@ == "、じゃなくて"@ && items[6]@ == "じゃなくて"@ && items[7]@ == "、正しくは"@);
    assert forall|i: int, j: int| 0 <= i < j < items.len() implies #[trigger] items[i]@
        != #[trigger] items[j]@ by {
        remarks_differ(i, j);
    }
    let k = choose|k: int| 0 <= k < items.len() && #[trigger] items[k]@ == marker;
    assert forall|i: int| 0 <= i < items.len() && i != k implies !text::spec_contains(
        whole,
        #[trigger] items[i]@,
    ) by {
        assert(announces_correction(items[i]@));
        if i < k {
            assert(items[i]@ != items[k]@);
        } else {
            assert(items[k]@ != items[i]@);
        }
    }
    assert forall|i: int| 0 <= i < items.len() implies !text::spec_contains(
        changed,
        #[trigger] items[i]@,
    ) by {
        assert(announces_correction(items[i]@));
    }
    one_remark_changes_the_text(items, whole, k, changed);
}

/// No remark is listed twice.
proof fn remarks_differ(i: int, j: int)
    requires
        0 <= i < j < CORRECTION_MARKERS@.len(),
    ensures
        CORRECTION_MARKERS@[i]@ != CORRECTION_MARKERS@[j]@,
{
    reveal_strlit("と書きましたが正しくは");
    reveal_strlit("と書いたけど正しくは");
    reveal_strlit("、いや最終的に");
    reveal_strlit("、いや正しくは");
    reveal_strlit("、いや");
    reveal_strlit("、じゃなくて");
    reveal_strlit("じゃなくて");
    reveal_strlit("、正しくは");
    let items = CORRECTION_MARKERS@;
    assert(items[0]@ == "と書きましたが正しくは"@ && items[1]@ == "と書いたけど正しくは"@
        && items[2]@ == "、いや最終的に"@ && items[3]@ == "、いや正しくは"@ && items[4]@ == "、いや"@
        && items[5]@ == "、じゃなくて"@ && items[6]@ == "じゃなくて"@ && items[7]@ == "、正しくは"@);
    assert(items[0]@.len() == 11 && items[1]@.len() == 10 && items[2]@.len() == 7 && items[3]@.len()
        == 7 && items[4]@.len() == 3 && items[5]@.len() == 6 && items[6]@.len() == 5
        && items[7]@.len() == 5);
    assert(items[2]@[3] != items[3]@[3]);
    assert(items[6]@[0] != items[7]@[0]);
}

/// The head of a text is what stands before the first character of a set.
proof fn heads_end_at_the_set(head: Seq<char>, rest: Seq<char>, set: Seq<char>)
    requires
        forall|i: int| 0 <= i < head.len() ==> !set.contains(#[trigger] head[i]),
        rest.len() == 0 || set.contains(rest[0]),
    ensures
        text::spec_head_until(head + rest, set) == head,
    decreases head.len(),
{
    let whole = head + rest;
    if head.len() == 0 {
        assert(whole =~= rest);
        assert(text::spec_head_until(whole, set) =~= head);
    } else {
        let shorter = head.drop_first();
        assert forall|i: int| 0 <= i < shorter.len() implies !set.contains(#[trigger] shorter[i]) by {
            assert(shorter[i] == head[i + 1]);
        }
        heads_end_at_the_set(shorter, rest, set);
        assert(whole.first() == head[0]);
        assert(whole.drop_first() =~= shorter + rest);
        assert(seq![head[0]] + shorter =~= head);
    }
}

/// A value at the start of a text is read up to the first character that belongs to none.
proof fn whole_value_is_read(value: Seq<char>, rest: Seq<char>, i: int)
    requires
        0 <= i <= value.len(),
        forall|k: int|
            0 <= k < value.len() ==> spec_is_correction_token_character(#[trigger] value[k]),
        rest.len() > 0,
        !spec_is_correction_token_character(rest[0]),
    ensures
        spec_token_beginning(value + rest, i, value.take(i)) == value,
    decreases value.len() - i,
{
    let whole = value + rest;
    if i < value.len() {
        assert(whole[i] == value[i]);
        assert(value.take(i).push(value[i]) =~= value.take(i + 1));
        whole_value_is_read(value, rest, i + 1);
    } else {
        assert(whole[i] == rest[0]);
        assert(value.take(i) =~= value);
    }
}

/// The remark confirms a value.
pub open spec fn is_confirmation(remark: Seq<char>) -> bool {
    remark == "で合ってます"@ || remark == "で合っています"@ || remark == "で正しいです"@ || remark
        == "で間違いありません"@
}

/// Remarks that confirm a value begin and end as such, hold no mark that ends a clause, and are
/// those that are looked for.
proof fn confirmations_are_known(remark: Seq<char>)
    requires
        is_confirmation(remark),
    ensures
        remark.len() > 0,
        remark[0] == 'で',
        !text::spec_is_whitespace(remark[remark.len() - 1]),
        forall|i: int|
            0 <= i < remark.len() ==> !"。！？\n、,"@.contains(#[trigger] remark[i]),
        text::spec_is_one_of(remark, CONFIRMATIONS@),
{
    reveal_strlit("で合ってます");
    reveal_strlit("で合っています");
    reveal_strlit("で正しいです");
    reveal_strlit("で間違いありません");
    reveal_strlit("。！？\n、,");
    assert("。！？\n、,"@ =~= seq!['。', '！', '？', '\n', '、', ',']);
    assert(CONFIRMATIONS@[0]@ == "で合ってます"@);
    assert(CONFIRMATIONS@[1]@ == "で合っています"@);
    assert(CONFIRMATIONS@[2]@ == "で正しいです"@);
    assert(CONFIRMATIONS@[3]@ == "で間違いありません"@);
}

/// A remark that merely confirms a value which was said before is dropped up to the mark that ends
/// it, and all else stays.
pub proof fn repeated_confirmations_are_dropped(
    before: Seq<char>,
    marker: Seq<char>,
    value: Seq<char>,
    remark: Seq<char>,
    rest: Seq<char>,
)
    requires
        marker == "、あっ"@ || marker == "、あ、"@,
        value.len() > 0,
        forall|i: int| 0 <= i < value.len() ==> text::spec_is_alnum(#[trigger] value[i]),
        is_confirmation(remark),
        rest.len() == 0 || rest[0] == '。' || rest[0] == '！' || rest[0] == '？' || rest[0] == '\n'
            || rest[0] == '、' || rest[0] == ',',
        text::spec_find(before + marker + (value + remark + rest), marker) == Some(
            before.len() as int,
        ),
        matching::spec_contains_ascii_case_insensitive(before, value),
    ensures
        spec_confirmed_once(before + marker + (value + remark + rest), marker) == Some(
            before + rest,
        ),
{
    reveal(spec_confirmed_once);
    reveal(spec_leading_correction_token);
    reveal(spec_leading_token);
    reveal_strlit("。！？\n、,");
    reveal_strlit("_-./:+#@=<>%±");
    let set = "。！？\n、,"@;
    assert(set =~= seq!['。', '！', '？', '\n', '、', ',']);
    assert(set[0] == '。' && set[1] == '！' && set[2] == '？' && set[3] == '\n' && set[4] == '、'
        && set[5] == ',');
    confirmations_are_known(remark);
    let said = value + remark + rest;
    let whole = before + marker + said;
    let k = before.len() as int;
    assert(whole.take(k) =~= before);
    assert(whole.skip(k + marker.len()) =~= said);
    let head = value + remark;
    assert forall|i: int| 0 <= i < head.len() implies !set.contains(#[trigger] head[i]) by {
        if i < value.len() {
            assert(text::spec_is_alnum(value[i]));
        } else {
            assert(head[i] == remark[i - value.len()]);
        }
    }
    heads_end_at_the_set(head, rest, set);
    assert(text::spec_is_alnum(value[0]));
    assert(head[0] == value[0] && head[head.len() - 1] == remark[remark.len() - 1]);
    firm(head);
    assert forall|i: int| 0 <= i < value.len() implies spec_is_correction_token_character(
        #[trigger] value[i],
    ) by {
        assert(text::spec_is_alnum(value[i]));
    }
    assert(!spec_is_correction_token_character('で')) by {
        assert(CORRECTION_CHARACTERS@ =~= seq![
            '_', '-', '.', '/', ':', '+', '#', '@', '=', '<', '>', '%', '±',
        ]);
    }
    whole_value_is_read(value, remark, 0);
    assert(value.take(0) =~= Seq::empty());
    assert(spec_leading_token(head) == value);
    assert(matching::spec_any_alnum(value));
    assert(text::spec_skip(head, value.len() as int) =~= remark);
    firm(remark);
    assert(text::spec_skip(said, head.len() as int) =~= rest);
}

/// A text that begins and ends with no white space is its own trimmed form.
proof fn firm(text: Seq<char>)
    requires
        text.len() > 0,
        !text::spec_is_whitespace(text[0]),
        !text::spec_is_whitespace(text[text.len() - 1]),
    ensures
        text::spec_trim(text) == text,
{
    let (start, end) = text::trimmed_texts_are_parts(text);
    assert(start == 0 && end == text.len());
    assert(text.subrange(0, text.len() as int) =~= text);
}

/// A word of doubt at the end of a text is dropped.
pub proof fn words_of_doubt_are_dropped(before: Seq<char>, word: Seq<char>)
    requires
        word == "たぶん"@ || word == "おそらく"@ || word == "最初"@ || word == "当初"@,
        before.len() > 0,
        !text::spec_is_whitespace(before[before.len() - 1]),
        before[before.len() - 1] != 'ん',
        before[before.len() - 1] != 'く',
        before[before.len() - 1] != '初',
    ensures
        spec_without_discourse_words(before + word) == before,
        spec_without_discourse_words(before) == before,
{
    reveal_strlit("たぶん");
    reveal_strlit("おそらく");
    reveal_strlit("最初");
    reveal_strlit("当初");
    let items = DISCOURSE_WORDS@;
    assert(items[0]@ == "たぶん"@ && items[1]@ == "おそらく"@ && items[2]@ == "最初"@ && items[3]@
        == "当初"@);
    let one = items.take(1);
    let two = items.take(2);
    let three = items.take(3);
    assert(items.drop_last() =~= three);
    assert(three.drop_last() =~= two);
    assert(two.drop_last() =~= one);
    assert(one.drop_last() =~= Seq::empty());
    let whole = before + word;
    let size = whole.len() as int;
    assert(whole[size - 1] == word[word.len() - 1]);
    assert(text::spec_trim_end(whole) == whole);
    assert(text::spec_trim_end(before) == before);
    assert(whole.subrange(size - word.len(), size) =~= word);
    assert(whole.take(size - word.len()) =~= before);
    other_ends_stay(before, "たぶん"@);
    other_ends_stay(before, "おそらく"@);
    other_ends_stay(before, "最初"@);
    other_ends_stay(before, "当初"@);
    assert(text::spec_strip_suffix(whole, word) == Some(before));
    reveal_with_fuel(spec_discourse_dropped, 5);
    if word != "たぶん"@ {
        other_ends_stay(whole, "たぶん"@);
        if word != "おそらく"@ {
            other_ends_stay(whole, "おそらく"@);
            if word != "最初"@ {
                assert(whole[size - 2] == '当');
                if text::spec_ends_with(whole, "最初"@) {
                    assert(whole.subrange(size - 2, size)[0] == "最初"@[0]);
                }
            }
        }
    }
}

/// A text that ends with another character has not the end.
proof fn other_ends_stay(text: Seq<char>, end: Seq<char>)
    requires
        text.len() > 0,
        end.len() > 0,
        text[text.len() - 1] != end[end.len() - 1],
    ensures
        text::spec_strip_suffix(text, end) is None,
{
    if text::spec_ends_with(text, end) {
        let size = text.len() as int;
        assert(text.subrange(size - end.len(), size)[end.len() - 1] == end[end.len() - 1]);
    }
}

} // verus!
