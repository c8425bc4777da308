//! The technical terms of a request: names, literals, limits and phrases that a shorter version must keep.
use vstd::prelude::*;
use crate::contents;
use crate::parts;
use crate::runtime::matching;
use crate::text;
use crate::runtime::typos;

verus! {

broadcast use crate::contents::group_contents;

/// Names of tools and parts that are required wherever they occur.
pub const COMMON_TERMS: [&'static str; 33] = [
    "react",
    "typescript",
    "javascript",
    "next",
    "vue",
    "angular",
    "svelte",
    "node",
    "express",
    "expo",
    "git",
    "go",
    "graphql",
    "i18n",
    "rest",
    "windows",
    "android",
    "vitest",
    "jest",
    "playwright",
    "prisma",
    "python",
    "rust",
    "runtime",
    "model",
    "nginx",
    "redis",
    "location",
    "users",
    "posts",
    "storybook",
    "button",
    "validation",
];

/// Names of request methods, which on their own are no required terms.
pub const HTTP_METHOD_NAMES: [&'static str; 7] = [
    "get",
    "post",
    "put",
    "patch",
    "delete",
    "head",
    "options",
];

/// Request methods that begin a route.
pub const ROUTE_METHODS: [&'static str; 7] = [
    "GET",
    "POST",
    "PUT",
    "PATCH",
    "DELETE",
    "HEAD",
    "OPTIONS",
];

/// English words that are no identifiers.
pub const ENGLISH_STOP_WORDS: [&'static str; 15] = [
    "and",
    "are",
    "but",
    "for",
    "from",
    "into",
    "not",
    "only",
    "that",
    "the",
    "then",
    "this",
    "when",
    "with",
    "without",
];

/// What follows an identifier in a Japanese sentence.
pub const IDENTIFIER_PARTICLES: [&'static str; 17] = [
    "を",
    "と",
    "は",
    "が",
    "の",
    "へ",
    "で",
    "に",
    "から",
    "だけ",
    "時",
    "列",
    "キー",
    "項目",
    "値",
    "引数",
    "フィールド",
];

/// Phrases that are required wherever they occur.
pub const KNOWN_TERMS: [&'static str; 45] = [
    "メール通知",
    "アプリ内通知",
    "個人情報",
    "依存関係キャッシュ",
    "ロックファイル",
    "監視ログ",
    "無効",
    "圧縮完了",
    "圧縮結果",
    "結果欄",
    "アイコン",
    "メトリクス",
    "最小化",
    "最大化",
    "閉じる",
    "ウィンドウバー",
    "トークン",
    "文字数",
    "圧縮レベル",
    "検証失敗理由",
    "必須語",
    "平均圧縮率",
    "既定値",
    "Sarashina 2.2 3B",
    "LM Studio",
    "push token",
    "Vue 3",
    "cart store",
    "derived store",
    "修復再推論",
    "1回目",
    "原文返し",
    "評価基準",
    "モード",
    "タスク種別",
    "共通プロンプト",
    "レベル別プロンプト",
    "Spring Boot",
    "Bean Validation",
    "version 4",
    "public access block",
    "Dockerfile",
    "dist",
    "実通信しない",
    "fake timers",
];

/// Words that end a numeric limit.
pub const LIMIT_SUFFIXES: [&'static str; 5] = ["以下", "以上", "未満", "以内", "超"];

/// Signs of a request about logs, in which paths are no required terms.
pub const LOG_MARKERS: [&'static str; 5] = [
    "本番ログ",
    "ログを解析",
    "ログ解析",
    "requestId=",
    "ECONNRESET",
];

/// Keys of assignments whose value alone is the required term.
pub const SERVICE_KEYS: [&'static str; 2] = ["upstream", "service"];

/// Characters besides letters and digits that a literal of code may hold.
pub const CODE_CHARACTERS: &'static str = "_-./:+#@=<>";

/// Characters besides letters and digits that a run of ASCII words may hold.
pub const RUN_CHARACTERS: &'static str = "_-./:+#@=<> \t\n\u{c}\r";

/// Value of [`alpha_letters`].
pub open spec fn spec_alpha_letters(token: Seq<char>) -> Seq<char> {
    token.filter(|c: char| text::spec_is_alpha(c))
}

/// The ASCII letters of a token.
pub fn alpha_letters(token: &str) -> (r: String)
    ensures
        r@ == spec_alpha_letters(token@),
{
    proof {
        reveal(Seq::filter);
    }
    let mut letters: String = String::new();
    let characters: Vec<char> = text::to_chars(token);
    let mut i: usize = 0;
    while i < characters.len()
        invariant
            i <= characters@.len(),
            letters@ == spec_alpha_letters(characters@.take(i as int)),
        decreases characters@.len() - i,
    {
        proof {
            reveal(Seq::filter);
        }
        assert(characters@.take(i + 1).drop_last() =~= characters@.take(i as int));
        let c: char = characters[i];
        i = i + 1;
        if text::is_alpha(c) {
            letters.push(c);
        }
    }
    assert(characters@.take(characters@.len() as int) =~= characters@);
    letters
}

/// The condition of [`all_upper`]: every character is an upper case ASCII letter.
pub open spec fn spec_all_upper(text: Seq<char>) -> bool {
    forall|i: int| #![trigger text[i]] 0 <= i < text.len() ==> text::spec_is_upper(text[i])
}

/// Whether every character is an upper case ASCII letter.
pub fn all_upper(text: &str) -> (r: bool)
    ensures
        r == spec_all_upper(text@),
{
    let characters: Vec<char> = text::to_chars(text);
    let mut i: usize = 0;
    while i < characters.len()
        invariant
            i <= characters@.len(),
            characters@ == text@,
            forall|j: int|
                #![trigger characters@[j]] 0 <= j < i ==> text::spec_is_upper(characters@[j]),
        decreases characters@.len() - i,
    {
        let c: char = characters[i];
        if !text::is_upper(c) {
            return false;
        }
        i = i + 1;
    }
    true
}

/// The condition of [`first_is_alpha`]: the token begins with an ASCII letter.
pub open spec fn spec_first_is_alpha(token: Seq<char>) -> bool {
    let letters = token;
    letters.len() > 0 && text::spec_is_alpha(letters[0])
}

/// Whether the token begins with an ASCII letter.
pub fn first_is_alpha(token: &str) -> (r: bool)
    ensures
        r == spec_first_is_alpha(token@),
{
    let letters: Vec<char> = text::to_chars(token);
    letters.len() > 0 && text::is_alpha(letters[0])
}

/// The condition of [`first_is_lower`]: the token begins with a lower case ASCII letter.
pub open spec fn spec_first_is_lower(token: Seq<char>) -> bool {
    let letters = token;
    letters.len() > 0 && text::spec_is_lower(letters[0])
}

/// Whether the token begins with a lower case ASCII letter.
pub fn first_is_lower(token: &str) -> (r: bool)
    ensures
        r == spec_first_is_lower(token@),
{
    let letters: Vec<char> = text::to_chars(token);
    letters.len() > 0 && text::is_lower(letters[0])
}

/// The condition of [`first_is_upper`]: the token begins with an upper case ASCII letter.
pub open spec fn spec_first_is_upper(token: Seq<char>) -> bool {
    let letters = token;
    letters.len() > 0 && text::spec_is_upper(letters[0])
}

/// Whether the token begins with an upper case ASCII letter.
pub fn first_is_upper(token: &str) -> (r: bool)
    ensures
        r == spec_first_is_upper(token@),
{
    let letters: Vec<char> = text::to_chars(token);
    letters.len() > 0 && text::is_upper(letters[0])
}

/// The condition of [`any_upper`]: the text holds an upper case ASCII letter.
pub open spec fn spec_any_upper(text: Seq<char>) -> bool {
    exists|i: int| #![trigger text[i]] 0 <= i < text.len() && text::spec_is_upper(text[i])
}

/// Whether the text holds an upper case ASCII letter.
pub fn any_upper(text: &str) -> (r: bool)
    ensures
        r == spec_any_upper(text@),
{
    let characters: Vec<char> = text::to_chars(text);
    let mut i: usize = 0;
    while i < characters.len()
        invariant
            i <= characters@.len(),
            characters@ == text@,
            forall|j: int|
                #![trigger characters@[j]] 0 <= j < i ==> !(text::spec_is_upper(characters@[j])),
        decreases characters@.len() - i,
    {
        let c: char = characters[i];
        if text::is_upper(c) {
            return true;
        }
        i = i + 1;
    }
    false
}

/// The condition of [`any_lower`]: the text holds a lower case ASCII letter.
pub open spec fn spec_any_lower(text: Seq<char>) -> bool {
    exists|i: int| #![trigger text[i]] 0 <= i < text.len() && text::spec_is_lower(text[i])
}

/// Whether the text holds a lower case ASCII letter.
pub fn any_lower(text: &str) -> (r: bool)
    ensures
        r == spec_any_lower(text@),
{
    let characters: Vec<char> = text::to_chars(text);
    let mut i: usize = 0;
    while i < characters.len()
        invariant
            i <= characters@.len(),
            characters@ == text@,
            forall|j: int|
                #![trigger characters@[j]] 0 <= j < i ==> !(text::spec_is_lower(characters@[j])),
        decreases characters@.len() - i,
    {
        let c: char = characters[i];
        if text::is_lower(c) {
            return true;
        }
        i = i + 1;
    }
    false
}

/// The condition of [`all_lower_name`]: the text is made of lower case letters, digits and
/// underscores alone.
pub open spec fn spec_all_lower_name(text: Seq<char>) -> bool {
    forall|i: int|
        #![trigger text[i]] 0 <= i < text.len() ==> (text::spec_is_lower(text[i])
                || text::spec_is_digit(text[i])
                || text[i] == '_')
}

/// Whether the text is made of lower case letters, digits and underscores alone.
pub fn all_lower_name(text: &str) -> (r: bool)
    ensures
        r == spec_all_lower_name(text@),
{
    let characters: Vec<char> = text::to_chars(text);
    let mut i: usize = 0;
    while i < characters.len()
        invariant
            i <= characters@.len(),
            characters@ == text@,
            forall|j: int|
                #![trigger characters@[j]] 0 <= j < i ==> (text::spec_is_lower(characters@[j])
                    || text::spec_is_digit(characters@[j])
                    || characters@[j] == '_'),
        decreases characters@.len() - i,
    {
        let c: char = characters[i];
        if !(text::is_lower(c) || text::is_digit(c) || c == '_') {
            return false;
        }
        i = i + 1;
    }
    true
}

/// The condition of [`all_lower_or_digit`]: the text is made of lower case letters and digits
/// alone.
pub open spec fn spec_all_lower_or_digit(text: Seq<char>) -> bool {
    forall|i: int|
        #![trigger text[i]] 0 <= i < text.len() ==> (text::spec_is_lower(text[i])
                || text::spec_is_digit(text[i]))
}

/// Whether the text is made of lower case letters and digits alone.
pub fn all_lower_or_digit(text: &str) -> (r: bool)
    ensures
        r == spec_all_lower_or_digit(text@),
{
    let characters: Vec<char> = text::to_chars(text);
    let mut i: usize = 0;
    while i < characters.len()
        invariant
            i <= characters@.len(),
            characters@ == text@,
            forall|j: int|
                #![trigger characters@[j]] 0 <= j < i ==> (text::spec_is_lower(characters@[j])
                    || text::spec_is_digit(characters@[j])),
        decreases characters@.len() - i,
    {
        let c: char = characters[i];
        if !(text::is_lower(c) || text::is_digit(c)) {
            return false;
        }
        i = i + 1;
    }
    true
}

/// The condition of [`is_title_ascii_word`]: the word begins with an upper case letter and holds
/// a lower case one after it.
#[verifier::opaque]
pub open spec fn spec_is_title_ascii_word(value: Seq<char>) -> bool {
    spec_first_is_upper(value) && spec_any_lower(text::spec_skip(value, 1))
}

/// Whether the word begins with an upper case letter and holds a lower case one after it.
pub fn is_title_ascii_word(value: &str) -> (r: bool)
    ensures
        r == spec_is_title_ascii_word(value@),
{
    proof {
        reveal(spec_is_title_ascii_word);
    }
    first_is_upper(value) && any_lower(&text::skip(value, 1))
}

/// The condition of [`is_ascii_acronym`]: the word has two letters or more, all of them upper
/// case.
#[verifier::opaque]
pub open spec fn spec_is_ascii_acronym(value: Seq<char>) -> bool {
    let letters = spec_alpha_letters(value);
    letters.len() >= 2 && spec_all_upper(letters)
}

/// Whether the word has two letters or more, all of them upper case.
pub fn is_ascii_acronym(value: &str) -> (r: bool)
    ensures
        r == spec_is_ascii_acronym(value@),
{
    proof {
        reveal(spec_is_ascii_acronym);
    }
    let letters: String = alpha_letters(value);
    text::char_count(&letters) >= 2 && all_upper(&letters)
}

/// The condition of [`is_inline_position`]: the `width` characters from `start` on are a word of
/// their own that a particle follows.
#[verifier::opaque]
pub open spec fn spec_is_inline_position(input: Seq<char>, start: int, width: int) -> bool {
    matching::spec_stands_alone(input, start, width)
        && matching::spec_starts_with_marker(
            text::spec_trim_start(text::spec_skip(text::spec_skip(input, start), width)),
            IDENTIFIER_PARTICLES@,
        )
}

/// Whether the `width` characters from `start` on are a word of their own that a particle
/// follows.
pub fn is_inline_position(input: &str, start: usize, width: usize) -> (r: bool)
    ensures
        r == spec_is_inline_position(input@, start as int, width as int),
{
    proof {
        reveal(spec_is_inline_position);
    }
    matching::stands_alone(input, start, width)
        && matching::starts_with_marker(
            &text::trim_start(&text::skip(&text::skip(input, start), width)),
            &IDENTIFIER_PARTICLES,
        )
}

/// The condition of [`stands_inline`]: the token stands in the input as a word of its own that a
/// particle follows.
#[verifier::opaque]
pub open spec fn spec_stands_inline(input: Seq<char>, token: Seq<char>) -> bool {
    let starts = text::spec_match_indices(input, token);
    let width: int = token.len() as int;
    exists|i: int|
        #![trigger starts[i]] 0 <= i < starts.len()
        && spec_is_inline_position(input, starts[i], width)
}

/// Whether the token stands in the input as a word of its own that a particle follows.
pub fn stands_inline(input: &str, token: &str) -> (r: bool)
    ensures
        r == spec_stands_inline(input@, token@),
{
    proof {
        reveal(spec_stands_inline);
    }
    let starts: Vec<usize> = text::match_indices(input, token);
    let width: usize = text::char_count(token);
    let mut i: usize = 0;
    while i < starts.len()
        invariant
            i <= starts@.len(),
            contents::positions(starts@) == text::spec_match_indices(input@, token@),
            width == token@.len(),
            forall|j: int|
                #![trigger contents::positions(starts@)[j]] 0 <= j < i ==> !(spec_is_inline_position(
                    input@,
                    contents::positions(starts@)[j],
                    (width as int),
                )),
        decreases starts@.len() - i,
    {
        proof {
            reveal(spec_stands_inline);
        }
        let start: usize = starts[i];
        assert(contents::positions(starts@)[i as int] == starts@[i as int]);
        if is_inline_position(input, start, width) {
            return true;
        }
        i = i + 1;
    }
    false
}

/// The condition of [`is_likely_inline_ascii_identifier`]: the token is a lower case name that
/// stands in the input with a particle after it.
#[verifier::opaque]
pub open spec fn spec_is_likely_inline_ascii_identifier(input: Seq<char>, token: Seq<char>) -> bool {
    if token.len() < 3
        || token.len() > 32
        || text::spec_is_one_of(text::spec_lowercase(token), ENGLISH_STOP_WORDS@)
        || !spec_first_is_lower(token)
        || !spec_all_lower_name(token) {
        false
    } else {
        spec_stands_inline(input, token)
    }
}

/// Whether the token is a lower case name that stands in the input with a particle after it.
pub fn is_likely_inline_ascii_identifier(input: &str, token: &str) -> (r: bool)
    ensures
        r == spec_is_likely_inline_ascii_identifier(input@, token@),
{
    proof {
        reveal(spec_is_likely_inline_ascii_identifier);
    }
    if text::char_count(token) < 3
        || text::char_count(token) > 32
        || text::is_one_of(&text::lowercase(token), &ENGLISH_STOP_WORDS)
        || !first_is_lower(token)
        || !all_lower_name(token) {
        return false;
    }
    stands_inline(input, token)
}

/// The condition of [`is_required_identifier`]: the token is a required name: a common term, an
/// acronym, a name with upper case letters inside, or an inline identifier, but no request
/// method.
#[verifier::opaque]
pub open spec fn spec_is_required_identifier(input: Seq<char>, token: Seq<char>) -> bool {
    let lower = text::spec_lowercase(token);
    let is_uppercase_acronym = token.len() >= 2 && spec_is_ascii_acronym(token);
    let has_internal_uppercase = spec_first_is_alpha(token)
            && spec_any_upper(text::spec_skip(token, 1));
    !text::spec_is_one_of(lower, HTTP_METHOD_NAMES@)
        && (text::spec_is_one_of(lower, COMMON_TERMS@)
            || is_uppercase_acronym
            || has_internal_uppercase
            || spec_is_likely_inline_ascii_identifier(input, token))
}

/// Whether the token is a required name: a common term, an acronym, a name with upper case
/// letters inside, or an inline identifier, but no request method.
pub fn is_required_identifier(input: &str, token: &str) -> (r: bool)
    ensures
        r == spec_is_required_identifier(input@, token@),
{
    proof {
        reveal(spec_is_required_identifier);
    }
    let lower: String = text::lowercase(token);
    let is_uppercase_acronym: bool = text::char_count(token) >= 2 && is_ascii_acronym(token);
    let has_internal_uppercase: bool = first_is_alpha(token) && any_upper(&text::skip(token, 1));
    !text::is_one_of(&lower, &HTTP_METHOD_NAMES)
        && (text::is_one_of(&lower, &COMMON_TERMS)
            || is_uppercase_acronym
            || has_internal_uppercase
            || is_likely_inline_ascii_identifier(input, token))
}

/// The state of [`identifier_terms`] after the given items.
pub open spec fn spec_identifiers_among(items: Seq<Seq<char>>, input: Seq<char>) -> Seq<Seq<char>>
    decreases items.len(),
{
    if items.len() == 0 {
        Seq::<Seq<char>>::empty()
    } else {
        let terms = spec_identifiers_among(items.drop_last(), input);
        let token = items.last();
        if token.len() > 0
            && spec_is_required_identifier(input, token)
            && !text::spec_list_has_ignoring_case(terms, token) {
            terms.push(token)
        } else {
            terms
        }
    }
}

/// Value of [`identifier_terms`].
#[verifier::opaque]
pub open spec fn spec_identifier_terms(input: Seq<char>) -> Seq<Seq<char>> {
    spec_identifiers_among(text::spec_split_tokens(input, "_"@), input)
}

/// The required names of the input in their order, each once.
pub fn identifier_terms(input: &str) -> (r: Vec<String>)
    ensures
        contents::views(r@) == spec_identifier_terms(input@),
{
    proof {
        reveal(spec_identifier_terms);
    }
    let mut terms: Vec<String> = Vec::new();
    let items: Vec<String> = text::split_tokens(input, "_");
    let mut i: usize = 0;
    while i < items.len()
        invariant
            i <= items@.len(),
            contents::views(terms@) == spec_identifiers_among(
                contents::views(items@).take(i as int),
                input@,
            ),
        decreases items@.len() - i,
    {
        assert(contents::views(items@).take(i + 1).drop_last()
            =~= contents::views(items@).take(i as int));
        let token: &str = &items[i];
        i = i + 1;
        if text::char_count(token) > 0
            && is_required_identifier(input, token)
            && !text::list_has_ignoring_case(&terms, token) {
            terms.push(token.to_owned());
        }
    }
    assert(contents::views(items@).take(items@.len() as int) =~= contents::views(items@));
    terms
}

/// The condition of [`names_table_at`]: the word "table" follows the `width` characters from
/// `start` on.
pub open spec fn spec_names_table_at(input: Seq<char>, start: int, width: int) -> bool {
    let after_head = text::spec_lowercase(
        text::spec_trim_start(
            text::spec_take(text::spec_skip(text::spec_skip(input, start), width), 16),
        ),
    );
    text::spec_starts_with(after_head, "テーブル"@) || text::spec_starts_with(after_head, "table"@)
}

/// Whether the word "table" follows the `width` characters from `start` on.
pub fn names_table_at(input: &str, start: usize, width: usize) -> (r: bool)
    ensures
        r == spec_names_table_at(input@, start as int, width as int),
{
    let after_head: String = text::lowercase(
        &text::trim_start(&text::take(&text::skip(&text::skip(input, start), width), 16)),
    );
    text::starts_with(&after_head, "テーブル") || text::starts_with(&after_head, "table")
}

/// The condition of [`is_table_name`]: the word "table" follows the token somewhere in the input.
#[verifier::opaque]
pub open spec fn spec_is_table_name(input: Seq<char>, token: Seq<char>) -> bool {
    let starts = text::spec_match_indices(input, token);
    let width: int = token.len() as int;
    exists|i: int|
        #![trigger starts[i]] 0 <= i < starts.len()
        && spec_names_table_at(input, starts[i], width)
}

/// Whether the word "table" follows the token somewhere in the input.
pub fn is_table_name(input: &str, token: &str) -> (r: bool)
    ensures
        r == spec_is_table_name(input@, token@),
{
    proof {
        reveal(spec_is_table_name);
    }
    let starts: Vec<usize> = text::match_indices(input, token);
    let width: usize = text::char_count(token);
    let mut i: usize = 0;
    while i < starts.len()
        invariant
            i <= starts@.len(),
            contents::positions(starts@) == text::spec_match_indices(input@, token@),
            width == token@.len(),
            forall|j: int|
                #![trigger contents::positions(starts@)[j]] 0 <= j < i ==> !(spec_names_table_at(
                    input@,
                    contents::positions(starts@)[j],
                    (width as int),
                )),
        decreases starts@.len() - i,
    {
        proof {
            reveal(spec_is_table_name);
        }
        let start: usize = starts[i];
        assert(contents::positions(starts@)[i as int] == starts@[i as int]);
        if names_table_at(input, start, width) {
            return true;
        }
        i = i + 1;
    }
    false
}

/// The state of [`database_table_terms`] after the given items.
pub open spec fn spec_tables_among(items: Seq<Seq<char>>, input: Seq<char>) -> Seq<Seq<char>>
    decreases items.len(),
{
    if items.len() == 0 {
        Seq::<Seq<char>>::empty()
    } else {
        let terms = spec_tables_among(items.drop_last(), input);
        let token = items.last();
        if token.len() >= 3
            && matching::spec_any_alpha(token)
            && spec_is_table_name(input, token)
            && !text::spec_list_has_ignoring_case(terms, token) {
            terms.push(token)
        } else {
            terms
        }
    }
}

/// Value of [`database_table_terms`].
#[verifier::opaque]
pub open spec fn spec_database_table_terms(input: Seq<char>) -> Seq<Seq<char>> {
    spec_tables_among(text::spec_split_tokens(input, "_"@), input)
}

/// The names of database tables in the input, each once.
pub fn database_table_terms(input: &str) -> (r: Vec<String>)
    ensures
        contents::views(r@) == spec_database_table_terms(input@),
{
    proof {
        reveal(spec_database_table_terms);
    }
    let mut terms: Vec<String> = Vec::new();
    let items: Vec<String> = text::split_tokens(input, "_");
    let mut i: usize = 0;
    while i < items.len()
        invariant
            i <= items@.len(),
            contents::views(terms@) == spec_tables_among(
                contents::views(items@).take(i as int),
                input@,
            ),
        decreases items@.len() - i,
    {
        assert(contents::views(items@).take(i + 1).drop_last()
            =~= contents::views(items@).take(i as int));
        let token: &str = &items[i];
        i = i + 1;
        if text::char_count(token) >= 3
            && matching::any_alpha(token)
            && is_table_name(input, token)
            && !text::list_has_ignoring_case(&terms, token) {
            terms.push(token.to_owned());
        }
    }
    assert(contents::views(items@).take(items@.len() as int) =~= contents::views(items@));
    terms
}

/// What [`leading_digits`] comes to from position `i` of the items on.
pub open spec fn spec_digits_from(items: Seq<char>, i: int, digits: Seq<char>) -> Seq<char>
    decreases items.len() - i,
{
    if i >= items.len() {
        digits
    } else {
        let c = items[i];
        if !text::spec_is_digit(c) {
            digits
        } else {
            let digits = digits.push(c);
            spec_digits_from(items, i + 1, digits)
        }
    }
}

/// Value of [`leading_digits`].
pub open spec fn spec_leading_digits(text: Seq<char>) -> Seq<char> {
    let digits = Seq::<char>::empty();
    spec_digits_from(text, 0, digits)
}

/// The ASCII digits at the start of the text.
pub fn leading_digits(text: &str) -> (r: String)
    ensures
        r@ == spec_leading_digits(text@),
{
    let mut digits: String = String::new();
    let characters: Vec<char> = text::to_chars(text);
    let ghost goal = spec_digits_from(characters@, 0, digits@);
    let mut i: usize = 0;
    while i < characters.len()
        invariant_except_break
            goal == spec_digits_from(characters@, i as int, digits@),
        invariant
            i <= characters@.len(),
        ensures
            goal == digits@,
        decreases characters@.len() - i,
    {
        let c: char = characters[i];
        i = i + 1;
        if !text::is_digit(c) {
            break;
        }
        digits.push(c);
    }
    digits
}

/// The state of [`http_status_terms`] after the given items.
pub open spec fn spec_statuses_at(items: Seq<int>, input: Seq<char>) -> Seq<Seq<char>>
    decreases items.len(),
{
    if items.len() == 0 {
        Seq::<Seq<char>>::empty()
    } else {
        let terms = spec_statuses_at(items.drop_last(), input);
        let start = items.last();
        let status = spec_leading_digits(
            text::spec_trim_start(text::spec_skip(text::spec_skip(input, start), 4)),
        );
        if status.len() == 3 {
            let term = "HTTP "@ + status;
            if !terms.contains(term) {
                terms.push(term)
            } else {
                terms
            }
        } else {
            terms
        }
    }
}

/// Value of [`http_status_terms`].
#[verifier::opaque]
pub open spec fn spec_http_status_terms(input: Seq<char>) -> Seq<Seq<char>> {
    spec_statuses_at(text::spec_match_indices(text::spec_lowercase(input), "http"@), input)
}

/// The status codes that follow the word HTTP, each once.
pub fn http_status_terms(input: &str) -> (r: Vec<String>)
    ensures
        contents::views(r@) == spec_http_status_terms(input@),
{
    proof {
        reveal(spec_http_status_terms);
    }
    let mut terms: Vec<String> = Vec::new();
    let starts: Vec<usize> = text::match_indices(&text::lowercase(input), "http");
    let mut i: usize = 0;
    while i < starts.len()
        invariant
            i <= starts@.len(),
            contents::views(terms@) == spec_statuses_at(
                contents::positions(starts@).take(i as int),
                input@,
            ),
        decreases starts@.len() - i,
    {
        assert(contents::positions(starts@).take(i + 1).drop_last()
            =~= contents::positions(starts@).take(i as int));
        let start: usize = starts[i];
        i = i + 1;
        let status: String = leading_digits(
            &text::trim_start(&text::skip(&text::skip(input, start), 4)),
        );
        if text::char_count(&status) == 3 {
            let term: String = text::concat2("HTTP ", &status);
            if !text::list_has(&terms, &term) {
                terms.push(term);
            }
        }
    }
    assert(contents::positions(starts@).take(starts@.len() as int)
        =~= contents::positions(starts@));
    terms
}

/// What [`limit_from`] comes to from position `i` of the items on.
pub open spec fn spec_limit_within(items: Seq<char>, i: int, raw: Seq<char>) -> Option<Seq<char>>
    decreases items.len() - i,
{
    if i >= items.len() {
        None
    } else {
        let c = items[i];
        let position: int = i;
        if position > 0 && "。、,，\n\r"@.contains(c) {
            None
        } else {
            let raw = raw.push(c);
            let candidate = text::spec_trim(raw);
            if position > 0 && candidate.len() > 16 {
                None
            } else {
                if position > 0 && matching::spec_ends_with_marker(candidate, LIMIT_SUFFIXES@) {
                    Some(candidate)
                } else {
                    spec_limit_within(items, i + 1, raw)
                }
            }
        }
    }
}

/// Value of [`limit_from`].
#[verifier::opaque]
pub open spec fn spec_limit_from(rest: Seq<char>) -> Option<Seq<char>> {
    let raw = Seq::<char>::empty();
    spec_limit_within(rest, 0, raw)
}

/// The numeric limit that the text begins with: up to sixteen characters, from its first digit to
/// a word of limit.
pub fn limit_from(rest: &str) -> (r: Option<String>)
    ensures
        contents::view_option(r) == spec_limit_from(rest@),
{
    proof {
        reveal(spec_limit_from);
    }
    let mut raw: String = String::new();
    let characters: Vec<char> = text::to_chars(rest);
    let ghost goal = spec_limit_within(characters@, 0, raw@);
    let mut i: usize = 0;
    while i < characters.len()
        invariant
            i <= characters@.len(),
            goal == spec_limit_within(characters@, i as int, raw@),
            goal == spec_limit_from(rest@),
        decreases characters@.len() - i,
    {
        let c: char = characters[i];
        let position: usize = i;
        i = i + 1;
        if position > 0 && text::char_in(c, "。、,，\n\r") {
            return None;
        }
        raw.push(c);
        let candidate: String = text::trim(&raw);
        if position > 0 && text::char_count(&candidate) > 16 {
            return None;
        }
        if position > 0 && matching::ends_with_marker(&candidate, &LIMIT_SUFFIXES) {
            return Some(candidate);
        }
    }
    None
}

/// The state of [`numeric_limit_terms`] after the given items.
pub open spec fn spec_limits_at(items: Seq<char>, input: Seq<char>) -> (bool, Seq<Seq<char>>)
    decreases items.len(),
{
    if items.len() == 0 {
        (false, Seq::<Seq<char>>::empty())
    } else {
        let (previous, terms) = spec_limits_at(items.drop_last(), input);
        let position: int = items.len() - 1;
        let c = items.last();
        let begins = text::spec_is_digit(c) && !previous;
        let previous = text::spec_is_digit(c);
        let terms = if begins {
            match spec_limit_from(text::spec_skip(input, position)) {
                Some(term) => {
                    if !terms.contains(term) {
                        terms.push(term)
                    } else {
                        terms
                    }
                },
                None => terms,
            }
        } else {
            terms
        };
        (previous, terms)
    }
}

/// Value of [`numeric_limit_terms`].
#[verifier::opaque]
pub open spec fn spec_numeric_limit_terms(input: Seq<char>) -> Seq<Seq<char>> {
    let (previous, terms) = spec_limits_at(input, input);
    terms
}

/// The numeric limits in the input, each once.
pub fn numeric_limit_terms(input: &str) -> (r: Vec<String>)
    ensures
        contents::views(r@) == spec_numeric_limit_terms(input@),
{
    proof {
        reveal(spec_numeric_limit_terms);
    }
    let mut terms: Vec<String> = Vec::new();
    let mut previous: bool = false;
    let characters: Vec<char> = text::to_chars(input);
    let mut i: usize = 0;
    while i < characters.len()
        invariant
            i <= characters@.len(),
            (previous, contents::views(terms@)) == spec_limits_at(
                characters@.take(i as int),
                input@,
            ),
        decreases characters@.len() - i,
    {
        assert(characters@.take(i + 1).drop_last() =~= characters@.take(i as int));
        let c: char = characters[i];
        let position: usize = i;
        i = i + 1;
        let begins: bool = text::is_digit(c) && !previous;
        previous = text::is_digit(c);
        if begins {
            match limit_from(&text::skip(input, position)) {
                Some(term) => {
                    if !text::list_has(&terms, &term) {
                        terms.push(term);
                    }
                },
                None => {
                },
            }
        }
    }
    assert(characters@.take(characters@.len() as int) =~= characters@);
    terms
}

/// The state of [`japanese_preserve_terms`] after the given items.
pub open spec fn spec_known_terms_among(items: Seq<&str>, input: Seq<char>) -> Seq<Seq<char>>
    decreases items.len(),
{
    if items.len() == 0 {
        Seq::<Seq<char>>::empty()
    } else {
        let terms = spec_known_terms_among(items.drop_last(), input);
        let term = items.last()@;
        if text::spec_contains(input, term) {
            terms.push(term)
        } else {
            terms
        }
    }
}

/// Value of [`japanese_preserve_terms`].
#[verifier::opaque]
pub open spec fn spec_japanese_preserve_terms(input: Seq<char>) -> Seq<Seq<char>> {
    let terms = spec_known_terms_among(KNOWN_TERMS@, input);
    terms + spec_numeric_limit_terms(input)
}

/// The known phrases in the input and its numeric limits.
pub fn japanese_preserve_terms(input: &str) -> (r: Vec<String>)
    ensures
        contents::views(r@) == spec_japanese_preserve_terms(input@),
{
    proof {
        reveal(spec_japanese_preserve_terms);
    }
    let mut terms: Vec<String> = Vec::new();
    let mut i: usize = 0;
    while i < KNOWN_TERMS.len()
        invariant
            i <= KNOWN_TERMS@.len(),
            contents::views(terms@) == spec_known_terms_among(KNOWN_TERMS@.take(i as int), input@),
        decreases KNOWN_TERMS@.len() - i,
    {
        assert(KNOWN_TERMS@.take(i + 1).drop_last() =~= KNOWN_TERMS@.take(i as int));
        let term: &str = KNOWN_TERMS[i];
        i = i + 1;
        if text::contains(input, term) {
            terms.push(term.to_owned());
        }
    }
    assert(KNOWN_TERMS@.take(KNOWN_TERMS@.len() as int) =~= KNOWN_TERMS@);
    text::extend(&mut terms, &numeric_limit_terms(input));
    terms
}

/// Value of [`focused_literal`].
pub open spec fn spec_focused_literal(token: Seq<char>) -> Seq<char> {
    match text::spec_split_once(token, "="@) {
        Some(assignment) => {
            if text::spec_is_one_of(text::spec_lowercase(assignment.0), SERVICE_KEYS@)
                && assignment.1.len() >= 3 {
                assignment.1
            } else {
                token
            }
        },
        None => token,
    }
}

/// The value of an assignment to a service, any other literal itself.
pub fn focused_literal(token: &str) -> (r: String)
    ensures
        r@ == spec_focused_literal(token@),
{
    match text::split_once(token, "=") {
        Some(assignment) => {
            if text::is_one_of(&text::lowercase(&assignment.0), &SERVICE_KEYS)
                && text::char_count(&assignment.1) >= 3 {
                return assignment.1;
            }
            token.to_owned()
        },
        None => {
            token.to_owned()
        },
    }
}

/// The state of [`code_like_literal_terms`] after the given items.
pub open spec fn spec_literals_among(items: Seq<Seq<char>>, skip_path_terms: bool) -> Seq<Seq<char>>
    decreases items.len(),
{
    if items.len() == 0 {
        Seq::<Seq<char>>::empty()
    } else {
        let terms = spec_literals_among(items.drop_last(), skip_path_terms);
        let piece = items.last();
        let trimmed = text::spec_trim_any(piece, ".,:;)("@);
        if trimmed.len() >= 3 && !(text::spec_starts_with(trimmed, "/"@) && skip_path_terms) {
            let token = spec_focused_literal(trimmed);
            if matching::spec_any_alpha(token)
                && matching::spec_any_of_set(token, CODE_CHARACTERS@)
                && !text::spec_list_has_ignoring_case(terms, token) {
                terms.push(token)
            } else {
                terms
            }
        } else {
            terms
        }
    }
}

/// Value of [`code_like_literal_terms`].
#[verifier::opaque]
pub open spec fn spec_code_like_literal_terms(input: Seq<char>) -> Seq<Seq<char>> {
    let skip_path_terms = matching::spec_holds_marker(input, LOG_MARKERS@);
    spec_literals_among(text::spec_split_tokens(input, CODE_CHARACTERS@), skip_path_terms)
}

/// The literals of code in the input, each once: tokens with a letter and a separator.
pub fn code_like_literal_terms(input: &str) -> (r: Vec<String>)
    ensures
        contents::views(r@) == spec_code_like_literal_terms(input@),
{
    proof {
        reveal(spec_code_like_literal_terms);
    }
    let mut terms: Vec<String> = Vec::new();
    let skip_path_terms: bool = matching::holds_marker(input, &LOG_MARKERS);
    let items: Vec<String> = text::split_tokens(input, CODE_CHARACTERS);
    let mut i: usize = 0;
    while i < items.len()
        invariant
            i <= items@.len(),
            contents::views(terms@) == spec_literals_among(
                contents::views(items@).take(i as int),
                skip_path_terms,
            ),
        decreases items@.len() - i,
    {
        assert(contents::views(items@).take(i + 1).drop_last()
            =~= contents::views(items@).take(i as int));
        let piece: &str = &items[i];
        i = i + 1;
        let trimmed: String = text::trim_any(piece, ".,:;)(");
        if text::char_count(&trimmed) >= 3 && !(text::starts_with(&trimmed, "/") && skip_path_terms) {
            let token: String = focused_literal(&trimmed);
            if matching::any_alpha(&token)
                && matching::any_of_set(&token, CODE_CHARACTERS)
                && !text::list_has_ignoring_case(&terms, &token) {
                terms.push(token);
            }
        }
    }
    assert(contents::views(items@).take(items@.len() as int) =~= contents::views(items@));
    terms
}

/// The condition of [`any_cli_option`]: some word is a command line option.
pub open spec fn spec_any_cli_option(parts: Seq<Seq<char>>) -> bool {
    exists|i: int|
        #![trigger parts[i]] 0 <= i < parts.len()
        && text::spec_starts_with(parts[i], "--"@)
}

/// Whether some word is a command line option.
pub fn any_cli_option(parts: &Vec<String>) -> (r: bool)
    ensures
        r == spec_any_cli_option(contents::views(parts@)),
{
    let mut i: usize = 0;
    while i < parts.len()
        invariant
            i <= parts@.len(),
            forall|j: int|
                #![trigger contents::views(parts@)[j]] 0 <= j < i ==> !(text::spec_starts_with(
                    contents::views(parts@)[j],
                    "--"@,
                )),
        decreases parts@.len() - i,
    {
        let part: &str = &parts[i];
        assert(contents::views(parts@)[i as int] == parts@[i as int]@);
        if text::starts_with(part, "--") {
            return true;
        }
        i = i + 1;
    }
    false
}

/// The condition of [`all_with_alpha`]: every word holds an ASCII letter.
#[verifier::opaque]
pub open spec fn spec_all_with_alpha(parts: Seq<Seq<char>>) -> bool {
    forall|i: int| #![trigger parts[i]] 0 <= i < parts.len() ==> matching::spec_any_alpha(parts[i])
}

/// Whether every word holds an ASCII letter.
pub fn all_with_alpha(parts: &Vec<String>) -> (r: bool)
    ensures
        r == spec_all_with_alpha(contents::views(parts@)),
{
    proof {
        reveal(spec_all_with_alpha);
    }
    let mut i: usize = 0;
    while i < parts.len()
        invariant
            i <= parts@.len(),
            forall|j: int|
                #![trigger contents::views(parts@)[j]] 0 <= j < i ==> matching::spec_any_alpha(
                    contents::views(parts@)[j],
                ),
        decreases parts@.len() - i,
    {
        proof {
            reveal(spec_all_with_alpha);
        }
        let part: &str = &parts[i];
        assert(contents::views(parts@)[i as int] == parts@[i as int]@);
        if !matching::any_alpha(part) {
            return false;
        }
        i = i + 1;
    }
    true
}

/// The condition of [`is_compound_run`]: a run of two to six ASCII words is a required phrase: a
/// command with options, a route, a name of two words, or a phrase inside Japanese text.
#[verifier::opaque]
pub open spec fn spec_is_compound_run(input: Seq<char>, parts: Seq<Seq<char>>) -> bool {
    if parts.len() < 2 || parts.len() > 6 {
        false
    } else {
        let is_http_route = text::spec_is_one_of(text::spec_uppercase(parts[0]), ROUTE_METHODS@)
                && text::spec_starts_with(parts[1], "/"@);
        let is_named_phrase = parts.len() == 2
                && (((spec_is_title_ascii_word(parts[0]) || spec_is_ascii_acronym(parts[0]))
                    && spec_is_title_ascii_word(parts[1]))
                    || spec_is_ascii_acronym(parts[1]));
        let is_japanese_embedded_phrase = matching::spec_contains_japanese_text(input)
                && parts.len() <= 4
                && spec_all_with_alpha(parts);
        spec_any_cli_option(parts)
            || is_http_route
            || is_named_phrase
            || is_japanese_embedded_phrase
    }
}

/// Whether a run of two to six ASCII words is a required phrase: a command with options, a route,
/// a name of two words, or a phrase inside Japanese text.
pub fn is_compound_run(input: &str, parts: &Vec<String>) -> (r: bool)
    ensures
        r == spec_is_compound_run(input@, contents::views(parts@)),
{
    proof {
        reveal(spec_is_compound_run);
    }
    if parts.len() < 2 || parts.len() > 6 {
        return false;
    }
    let is_http_route: bool = text::is_one_of(&text::uppercase(&parts[0]), &ROUTE_METHODS)
            && text::starts_with(&parts[1], "/");
    let is_named_phrase: bool = parts.len() == 2
            && (((is_title_ascii_word(&parts[0]) || is_ascii_acronym(&parts[0]))
                && is_title_ascii_word(&parts[1]))
                || is_ascii_acronym(&parts[1]));
    let is_japanese_embedded_phrase: bool = matching::contains_japanese_text(input)
            && parts.len() <= 4
            && all_with_alpha(parts);
    any_cli_option(parts) || is_http_route || is_named_phrase || is_japanese_embedded_phrase
}

/// The state of [`compound_ascii_terms`] after the given items.
pub open spec fn spec_runs_among(items: Seq<Seq<char>>, input: Seq<char>) -> Seq<Seq<char>>
    decreases items.len(),
{
    if items.len() == 0 {
        Seq::<Seq<char>>::empty()
    } else {
        let runs = spec_runs_among(items.drop_last(), input);
        let piece = items.last();
        let parts = text::spec_words(piece);
        if spec_is_compound_run(input, parts) {
            runs.push(text::spec_join(parts, " "@))
        } else {
            runs
        }
    }
}

/// Value of [`compound_ascii_terms`].
#[verifier::opaque]
pub open spec fn spec_compound_ascii_terms(input: Seq<char>) -> Seq<Seq<char>> {
    spec_runs_among(text::spec_split_tokens(input, RUN_CHARACTERS@), input)
}

/// The required phrases of ASCII words in the input.
pub fn compound_ascii_terms(input: &str) -> (r: Vec<String>)
    ensures
        contents::views(r@) == spec_compound_ascii_terms(input@),
{
    proof {
        reveal(spec_compound_ascii_terms);
    }
    let mut runs: Vec<String> = Vec::new();
    let items: Vec<String> = text::split_tokens(input, RUN_CHARACTERS);
    let mut i: usize = 0;
    while i < items.len()
        invariant
            i <= items@.len(),
            contents::views(runs@) == spec_runs_among(
                contents::views(items@).take(i as int),
                input@,
            ),
        decreases items@.len() - i,
    {
        assert(contents::views(items@).take(i + 1).drop_last()
            =~= contents::views(items@).take(i as int));
        let piece: &str = &items[i];
        i = i + 1;
        let parts: Vec<String> = text::words(piece);
        if is_compound_run(input, &parts) {
            runs.push(text::join(&parts, " "));
        }
    }
    assert(contents::views(items@).take(items@.len() as int) =~= contents::views(items@));
    runs
}

/// The state of [`assignment_keys`] after the given items.
pub open spec fn spec_keys_among(items: Seq<Seq<char>>) -> Seq<Seq<char>>
    decreases items.len(),
{
    if items.len() == 0 {
        Seq::<Seq<char>>::empty()
    } else {
        let keys = spec_keys_among(items.drop_last());
        let term = items.last();
        match text::spec_split_once(term, "="@) {
            Some(assignment) => keys.push(text::spec_lowercase(assignment.0)),
            None => keys,
        }
    }
}

/// Value of [`assignment_keys`].
pub open spec fn spec_assignment_keys(terms: Seq<Seq<char>>) -> Seq<Seq<char>> {
    spec_keys_among(terms)
}

/// The keys of the assignments among the terms, in lower case.
pub fn assignment_keys(terms: &Vec<String>) -> (r: Vec<String>)
    ensures
        contents::views(r@) == spec_assignment_keys(contents::views(terms@)),
{
    let mut keys: Vec<String> = Vec::new();
    let mut i: usize = 0;
    while i < terms.len()
        invariant
            i <= terms@.len(),
            contents::views(keys@) == spec_keys_among(contents::views(terms@).take(i as int)),
        decreases terms@.len() - i,
    {
        assert(contents::views(terms@).take(i + 1).drop_last()
            =~= contents::views(terms@).take(i as int));
        let term: &str = &terms[i];
        i = i + 1;
        match text::split_once(term, "=") {
            Some(assignment) => {
                keys.push(text::lowercase(&assignment.0));
            },
            None => {
            },
        }
    }
    assert(contents::views(terms@).take(terms@.len() as int) =~= contents::views(terms@));
    keys
}

/// The terms that are none of the keys, whatever the case of ASCII letters.
pub open spec fn spec_terms_without(items: Seq<Seq<char>>, keys: Seq<Seq<char>>) -> Seq<Seq<char>> {
    items.filter(|term: Seq<char>| !text::spec_list_has_ignoring_case(keys, term))
}

/// Value of [`remove_assignment_key_duplicates`].
#[verifier::opaque]
pub open spec fn spec_remove_assignment_key_duplicates(terms: Seq<Seq<char>>) -> Seq<Seq<char>> {
    let keys = spec_assignment_keys(terms);
    spec_terms_without(terms, keys)
}

/// The terms without those that are the key of an assignment among them.
pub fn remove_assignment_key_duplicates(terms: &Vec<String>) -> (r: Vec<String>)
    ensures
        contents::views(r@) == spec_remove_assignment_key_duplicates(contents::views(terms@)),
{
    proof {
        reveal(Seq::filter);
        reveal(spec_remove_assignment_key_duplicates);
    }
    let keys: Vec<String> = assignment_keys(terms);
    let mut out: Vec<String> = Vec::new();
    let mut i: usize = 0;
    while i < terms.len()
        invariant
            i <= terms@.len(),
            contents::views(out@) == spec_terms_without(
                contents::views(terms@).take(i as int),
                contents::views(keys@),
            ),
        decreases terms@.len() - i,
    {
        proof {
            reveal(Seq::filter);
        }
        assert(contents::views(terms@).take(i + 1).drop_last()
            =~= contents::views(terms@).take(i as int));
        let term: &str = &terms[i];
        i = i + 1;
        if !text::list_has_ignoring_case(&keys, term) {
            out.push(term.to_owned());
        }
    }
    assert(contents::views(terms@).take(terms@.len() as int) =~= contents::views(terms@));
    out
}

/// The condition of [`covers_component`]: the candidate is longer than the term and holds it as a
/// component.
pub open spec fn spec_covers_component(candidate: Seq<char>, term: Seq<char>) -> bool {
    candidate.len() > term.len()
        && text::spec_list_has_ignoring_case(text::spec_split_tokens(candidate, ""@), term)
}

/// Whether the candidate is longer than the term and holds it as a component.
pub fn covers_component(candidate: &str, term: &str) -> (r: bool)
    ensures
        r == spec_covers_component(candidate@, term@),
{
    text::char_count(candidate) > text::char_count(term)
        && text::list_has_ignoring_case(&text::split_tokens(candidate, ""), term)
}

/// The condition of [`any_covers`]: some longer term holds the given one as a component.
#[verifier::opaque]
pub open spec fn spec_any_covers(terms: Seq<Seq<char>>, term: Seq<char>) -> bool {
    exists|i: int|
        #![trigger terms[i]] 0 <= i < terms.len()
        && spec_covers_component(terms[i], term)
}

/// Whether some longer term holds the given one as a component.
pub fn any_covers(terms: &Vec<String>, term: &str) -> (r: bool)
    ensures
        r == spec_any_covers(contents::views(terms@), term@),
{
    proof {
        reveal(spec_any_covers);
    }
    let mut i: usize = 0;
    while i < terms.len()
        invariant
            i <= terms@.len(),
            forall|j: int|
                #![trigger contents::views(terms@)[j]] 0 <= j < i ==> !(spec_covers_component(
                    contents::views(terms@)[j],
                    term@,
                )),
        decreases terms@.len() - i,
    {
        proof {
            reveal(spec_any_covers);
        }
        let candidate: &str = &terms[i];
        assert(contents::views(terms@)[i as int] == terms@[i as int]@);
        if covers_component(candidate, term) {
            return true;
        }
        i = i + 1;
    }
    false
}

/// The condition of [`is_covered_inline_term`]: the term is a short lower case name, but no
/// common term, that a longer term holds as a component.
#[verifier::opaque]
pub open spec fn spec_is_covered_inline_term(terms: Seq<Seq<char>>, term: Seq<char>) -> bool {
    !text::spec_is_one_of(text::spec_lowercase(term), COMMON_TERMS@)
        && term.len() >= 3
        && term.len() <= 8
        && spec_all_lower_or_digit(term)
        && spec_any_covers(terms, term)
}

/// Whether the term is a short lower case name, but no common term, that a longer term holds as a
/// component.
pub fn is_covered_inline_term(terms: &Vec<String>, term: &str) -> (r: bool)
    ensures
        r == spec_is_covered_inline_term(contents::views(terms@), term@),
{
    proof {
        reveal(spec_is_covered_inline_term);
    }
    !text::is_one_of(&text::lowercase(term), &COMMON_TERMS)
        && text::char_count(term) >= 3
        && text::char_count(term) <= 8
        && all_lower_or_digit(term)
        && any_covers(terms, term)
}

/// The terms that no longer term among the others covers.
pub open spec fn spec_terms_uncovered(
    items: Seq<Seq<char>>,
    terms: Seq<Seq<char>>,
) -> Seq<Seq<char>> {
    items.filter(|term: Seq<char>| !spec_is_covered_inline_term(terms, term))
}

/// Value of [`remove_covered_inline_identifier_terms`].
#[verifier::opaque]
pub open spec fn spec_remove_covered_inline_identifier_terms(
    terms: Seq<Seq<char>>,
) -> Seq<Seq<char>> {
    spec_terms_uncovered(terms, terms)
}

/// The terms without the short names that longer ones among them hold as components.
pub fn remove_covered_inline_identifier_terms(terms: &Vec<String>) -> (r: Vec<String>)
    ensures
        contents::views(r@) == spec_remove_covered_inline_identifier_terms(contents::views(terms@)),
{
    proof {
        reveal(Seq::filter);
        reveal(spec_remove_covered_inline_identifier_terms);
    }
    let mut out: Vec<String> = Vec::new();
    let mut i: usize = 0;
    while i < terms.len()
        invariant
            i <= terms@.len(),
            contents::views(out@) == spec_terms_uncovered(
                contents::views(terms@).take(i as int),
                contents::views(terms@),
            ),
        decreases terms@.len() - i,
    {
        proof {
            reveal(Seq::filter);
        }
        assert(contents::views(terms@).take(i + 1).drop_last()
            =~= contents::views(terms@).take(i as int));
        let term: &str = &terms[i];
        i = i + 1;
        if !is_covered_inline_term(terms, term) {
            out.push(term.to_owned());
        }
    }
    assert(contents::views(terms@).take(terms@.len() as int) =~= contents::views(terms@));
    out
}

/// The state of [`with_new_terms`] after the given items.
pub open spec fn spec_new_terms_among(
    items: Seq<Seq<char>>,
    all_terms: Seq<Seq<char>>,
) -> Seq<Seq<char>>
    decreases items.len(),
{
    if items.len() == 0 {
        all_terms
    } else {
        let all_terms = spec_new_terms_among(items.drop_last(), all_terms);
        let term = items.last();
        if !text::spec_list_has_ignoring_case(all_terms, term) {
            all_terms.push(term)
        } else {
            all_terms
        }
    }
}

/// Value of [`with_new_terms`].
pub open spec fn spec_with_new_terms(terms: Seq<Seq<char>>, more: Seq<Seq<char>>) -> Seq<Seq<char>> {
    let all_terms = terms;
    spec_new_terms_among(more, all_terms)
}

/// The terms followed by those of the other list that are new, whatever the case of ASCII
/// letters.
pub fn with_new_terms(terms: &Vec<String>, more: &Vec<String>) -> (r: Vec<String>)
    ensures
        contents::views(r@) == spec_with_new_terms(contents::views(terms@), contents::views(more@)),
{
    let mut all_terms: Vec<String> = text::copy_list(terms);
    let ghost initial_all_terms = contents::views(all_terms@);
    let mut i: usize = 0;
    while i < more.len()
        invariant
            i <= more@.len(),
            contents::views(all_terms@) == spec_new_terms_among(
                contents::views(more@).take(i as int),
                initial_all_terms,
            ),
        decreases more@.len() - i,
    {
        assert(contents::views(more@).take(i + 1).drop_last()
            =~= contents::views(more@).take(i as int));
        let term: &str = &more[i];
        i = i + 1;
        if !text::list_has_ignoring_case(&all_terms, term) {
            all_terms.push(term.to_owned());
        }
    }
    assert(contents::views(more@).take(more@.len() as int) =~= contents::views(more@));
    all_terms
}

/// Value of [`required_technical_terms`].
#[verifier::opaque]
pub open spec fn spec_required_technical_terms(input: Seq<char>) -> Seq<Seq<char>> {
    let normalized = typos::spec_normalize_known_input_typos_for_llm(input);
    let identifiers = spec_identifier_terms(normalized);
    let literals = spec_with_new_terms(identifiers, spec_code_like_literal_terms(normalized));
    let phrases = spec_with_new_terms(literals, spec_compound_ascii_terms(normalized));
    let tables = spec_with_new_terms(phrases, spec_database_table_terms(normalized));
    let statuses = spec_with_new_terms(tables, spec_http_status_terms(normalized));
    let known = spec_with_new_terms(statuses, spec_japanese_preserve_terms(normalized));
    spec_remove_covered_inline_identifier_terms(spec_remove_assignment_key_duplicates(known))
}

/// The technical terms of a request that a shorter version must keep, each once: names, literals
/// of code, phrases of ASCII words, tables, status codes, known phrases and numeric limits.
pub fn required_technical_terms(input: &str) -> (r: Vec<String>)
    ensures
        contents::views(r@) == spec_required_technical_terms(input@),
{
    proof {
        reveal(spec_required_technical_terms);
    }
    let normalized: String = typos::normalize_known_input_typos_for_llm(input);
    let identifiers: Vec<String> = identifier_terms(&normalized);
    let literals: Vec<String> = with_new_terms(&identifiers, &code_like_literal_terms(&normalized));
    let phrases: Vec<String> = with_new_terms(&literals, &compound_ascii_terms(&normalized));
    let tables: Vec<String> = with_new_terms(&phrases, &database_table_terms(&normalized));
    let statuses: Vec<String> = with_new_terms(&tables, &http_status_terms(&normalized));
    let known: Vec<String> = with_new_terms(&statuses, &japanese_preserve_terms(&normalized));
    remove_covered_inline_identifier_terms(&remove_assignment_key_duplicates(&known))
}

/// The condition of [`contains_required_technical_terms`]: the output holds every required term
/// of the input.
#[verifier::opaque]
pub open spec fn spec_contains_required_technical_terms(input: Seq<char>, output: Seq<char>) -> bool {
    matching::spec_all_terms_present(spec_required_technical_terms(input), output)
}

/// Whether the output holds every required term of the input.
pub fn contains_required_technical_terms(input: &str, output: &str) -> (r: bool)
    ensures
        r == spec_contains_required_technical_terms(input@, output@),
{
    proof {
        reveal(spec_contains_required_technical_terms);
    }
    matching::all_terms_present(&required_technical_terms(input), output)
}

/// The list holds a text that is the same as the given one up to the case of ASCII letters.
proof fn listed_in_some_case(list: Seq<Seq<char>>, text: Seq<char>, k: int)
    requires
        0 <= k < list.len(),
        text::spec_same_ignoring_case(list[k], text),
    ensures
        text::spec_list_has_ignoring_case(list, text),
{
}

/// Terms that join a list are held by it up to the case of ASCII letters, and so are those that it
/// held before; nothing else joins it.
pub proof fn joined_terms_are_held(
    terms: Seq<Seq<char>>,
    more: Seq<Seq<char>>,
    term: Seq<char>,
)
    ensures
        text::spec_list_has_ignoring_case(spec_with_new_terms(terms, more), term)
            <==> text::spec_list_has_ignoring_case(terms, term)
            || text::spec_list_has_ignoring_case(more, term),
        spec_with_new_terms(terms, more).contains(term) ==> terms.contains(term) || more.contains(
            term,
        ),
    decreases more.len(),
{
    if more.len() > 0 {
        let fewer = more.drop_last();
        let before = spec_with_new_terms(terms, fewer);
        let all = spec_with_new_terms(terms, more);
        let last = more.last();
        joined_terms_are_held(terms, fewer, term);
        parts::pushed_item(fewer, last, term);
        assert(fewer.push(last) =~= more);
        parts::pushed_item(before, last, term);
        has_one_more(fewer, last, term);
        has_one_more(before, last, term);
        if text::spec_list_has_ignoring_case(before, last) && text::spec_same_ignoring_case(
            last,
            term,
        ) {
            let k = choose|k: int|
                0 <= k < before.len() && text::spec_same_ignoring_case(#[trigger] before[k], last);
            listed_in_some_case(before, term, k);
        }
    }
}

/// A list with one more text holds that one and those that it held, up to the case of ASCII
/// letters.
proof fn has_one_more(list: Seq<Seq<char>>, last: Seq<char>, text: Seq<char>)
    ensures
        text::spec_list_has_ignoring_case(list.push(last), text)
            <==> text::spec_list_has_ignoring_case(list, text) || text::spec_same_ignoring_case(
            last,
            text,
        ),
{
    let longer = list.push(last);
    if text::spec_list_has_ignoring_case(list, text) {
        let k = choose|k: int|
            0 <= k < list.len() && text::spec_same_ignoring_case(#[trigger] list[k], text);
        assert(longer[k] == list[k]);
    }
    if text::spec_list_has_ignoring_case(longer, text) {
        let k = choose|k: int|
            0 <= k < longer.len() && text::spec_same_ignoring_case(#[trigger] longer[k], text);
        if k < list.len() {
            assert(list[k] == longer[k]);
        }
    }
    assert(longer[list.len() as int] == last);
}

/// A term is found in the text: a name, a literal of code, a phrase of ASCII words, a table, a status
/// code, a known phrase or a numeric limit.
pub open spec fn is_found(text: Seq<char>, term: Seq<char>) -> bool {
    ||| spec_identifier_terms(text).contains(term)
    ||| spec_code_like_literal_terms(text).contains(term)
    ||| spec_compound_ascii_terms(text).contains(term)
    ||| spec_database_table_terms(text).contains(term)
    ||| spec_http_status_terms(text).contains(term)
    ||| spec_japanese_preserve_terms(text).contains(term)
}

/// All terms that are found in a text, each once up to the case of ASCII letters.
spec fn all_found(text: Seq<char>) -> Seq<Seq<char>> {
    let identifiers = spec_identifier_terms(text);
    let literals = spec_with_new_terms(identifiers, spec_code_like_literal_terms(text));
    let phrases = spec_with_new_terms(literals, spec_compound_ascii_terms(text));
    let tables = spec_with_new_terms(phrases, spec_database_table_terms(text));
    let statuses = spec_with_new_terms(tables, spec_http_status_terms(text));
    spec_with_new_terms(statuses, spec_japanese_preserve_terms(text))
}

/// A listed text is listed in some case.
proof fn listed_as_it_is(list: Seq<Seq<char>>, text: Seq<char>)
    requires
        list.contains(text),
    ensures
        text::spec_list_has_ignoring_case(list, text),
{
    let k = choose|k: int| 0 <= k < list.len() && list[k] == text;
    listed_in_some_case(list, text, k);
}

/// The found terms are listed together.
proof fn found_terms_are_listed(text: Seq<char>, term: Seq<char>)
    ensures
        is_found(text, term) ==> text::spec_list_has_ignoring_case(all_found(text), term),
        all_found(text).contains(term) ==> is_found(text, term),
{
    let identifiers = spec_identifier_terms(text);
    let literals = spec_with_new_terms(identifiers, spec_code_like_literal_terms(text));
    let phrases = spec_with_new_terms(literals, spec_compound_ascii_terms(text));
    let tables = spec_with_new_terms(phrases, spec_database_table_terms(text));
    let statuses = spec_with_new_terms(tables, spec_http_status_terms(text));
    joined_terms_are_held(identifiers, spec_code_like_literal_terms(text), term);
    joined_terms_are_held(literals, spec_compound_ascii_terms(text), term);
    joined_terms_are_held(phrases, spec_database_table_terms(text), term);
    joined_terms_are_held(tables, spec_http_status_terms(text), term);
    joined_terms_are_held(statuses, spec_japanese_preserve_terms(text), term);
    if spec_identifier_terms(text).contains(term) {
        listed_as_it_is(spec_identifier_terms(text), term);
    }
    if spec_code_like_literal_terms(text).contains(term) {
        listed_as_it_is(spec_code_like_literal_terms(text), term);
    }
    if spec_compound_ascii_terms(text).contains(term) {
        listed_as_it_is(spec_compound_ascii_terms(text), term);
    }
    if spec_database_table_terms(text).contains(term) {
        listed_as_it_is(spec_database_table_terms(text), term);
    }
    if spec_http_status_terms(text).contains(term) {
        listed_as_it_is(spec_http_status_terms(text), term);
    }
    if spec_japanese_preserve_terms(text).contains(term) {
        listed_as_it_is(spec_japanese_preserve_terms(text), term);
    }
}

/// A key was taken from an assignment among the terms, in lower case.
proof fn keys_are_those_of_assignments(terms: Seq<Seq<char>>, n: int) -> (k: int)
    requires
        0 <= n < spec_keys_among(terms).len(),
    ensures
        0 <= k < terms.len(),
        text::spec_split_once(terms[k], "="@) matches Some(sides) && spec_keys_among(terms)[n]
            == text::spec_lowercase(sides.0),
    decreases terms.len(),
{
    let fewer = terms.drop_last();
    let before = spec_keys_among(fewer);
    if n < before.len() {
        let k = keys_are_those_of_assignments(fewer, n);
        assert(fewer[k] == terms[k]);
        k
    } else {
        terms.len() - 1
    }
}

/// What stands before the first equals sign holds none.
proof fn keys_hold_no_equals_sign(term: Seq<char>)
    ensures
        text::spec_split_once(term, "="@) matches Some(sides) ==> text::lacks(sides.0, '=')
            && text::lacks(text::spec_lowercase(sides.0), '='),
        text::spec_split_once(term, "="@) is Some ==> exists|i: int|
            0 <= i < term.len() && #[trigger] term[i] == '=',
{
    reveal_strlit("=");
    let sign = "="@;
    text::lemma_find_from(term, sign, 0);
    match text::spec_find(term, sign) {
        Some(place) => {
            assert(term.subrange(place, place + 1)[0] == term[place]);
            assert forall|i: int| 0 <= i < place implies #[trigger] term[i] != '=' by {
                if term[i] == '=' {
                    assert(term.subrange(i, i + 1) =~= sign);
                    assert(text::occurs_at(term, sign, i));
                }
            }
            let key = term.take(place);
            assert forall|i: int| 0 <= i < key.len() implies #[trigger] text::spec_lowercase(key)[i]
                != '=' by {
                assert(key[i] == term[i]);
            }
            assert forall|i: int| 0 <= i < key.len() implies #[trigger] key[i] != '=' by {
                assert(key[i] == term[i]);
            }
        },
        None => {},
    }
}

/// A text with an equals sign is no key.
proof fn assignments_are_no_keys(terms: Seq<Seq<char>>, term: Seq<char>, place: int)
    requires
        0 <= place < term.len(),
        term[place] == '=',
    ensures
        !text::spec_list_has_ignoring_case(spec_keys_among(terms), term),
{
    let keys = spec_keys_among(terms);
    if text::spec_list_has_ignoring_case(keys, term) {
        let n = choose|n: int|
            0 <= n < keys.len() && text::spec_same_ignoring_case(#[trigger] keys[n], term);
        let k = keys_are_those_of_assignments(terms, n);
        keys_hold_no_equals_sign(terms[k]);
        assert(text::spec_lowercase(term).len() == term.len());
        assert(text::spec_lowercase(keys[n]).len() == keys[n].len());
        assert(text::spec_lowercase(term)[place] == '=');
        assert(text::spec_lowercase(keys[n])[place] == '=');
        assert(keys[n][place] != '=');
    }
}

/// A text of letters and digits alone is its only token.
proof fn names_are_their_only_token(text: Seq<char>)
    requires
        spec_all_lower_or_digit(text),
    ensures
        text::spec_split_tokens(text, ""@) == seq![text],
    decreases text.len(),
{
    if text.len() > 0 {
        let shorter = text.drop_last();
        assert forall|i: int| 0 <= i < shorter.len() implies text::spec_is_lower(
            #[trigger] shorter[i],
        ) || text::spec_is_digit(shorter[i]) by {
            assert(shorter[i] == text[i]);
        }
        names_are_their_only_token(shorter);
        assert(text.last() == text[text.len() - 1]);
        assert(shorter.push(text.last()) =~= text);
        assert(seq![shorter].drop_last().push(text) =~= seq![text]);
    } else {
        assert(text =~= Seq::empty());
    }
}

/// A term that covers another is not covered itself.
proof fn covering_terms_stay(terms: Seq<Seq<char>>, candidate: Seq<char>, term: Seq<char>)
    requires
        spec_covers_component(candidate, term),
    ensures
        !spec_is_covered_inline_term(terms, candidate),
{
    reveal(spec_is_covered_inline_term);
    if spec_is_covered_inline_term(terms, candidate) {
        names_are_their_only_token(candidate);
        let tokens = text::spec_split_tokens(candidate, ""@);
        let k = choose|k: int|
            0 <= k < tokens.len() && text::spec_same_ignoring_case(#[trigger] tokens[k], term);
        assert(tokens[k] == candidate);
        assert(text::spec_lowercase(candidate).len() == candidate.len());
        assert(text::spec_lowercase(term).len() == term.len());
    }
}

/// A term is among the required ones up to the case of ASCII letters, or another required term says
/// it: an assignment to it, or a longer term that has it as a component.
pub open spec fn is_required_or_said(required: Seq<Seq<char>>, term: Seq<char>) -> bool {
    ||| text::spec_list_has_ignoring_case(required, term)
    ||| exists|k: int|
        0 <= k < required.len() && (text::spec_split_once(#[trigger] required[k], "="@) matches Some(
            sides,
        ) && text::spec_same_ignoring_case(sides.0, term))
    ||| exists|k: int|
        0 <= k < required.len() && (#[trigger] required[k]).len() > term.len()
            && text::spec_list_has_ignoring_case(
            text::spec_split_tokens(required[k], ""@),
            term,
        )
}

/// Every term that is found in the request, with known misspellings corrected, is required, or said
/// by another required term; and no other term is required.
pub proof fn found_terms_are_required(input: Seq<char>, term: Seq<char>)
    ensures
        is_found(typos::spec_normalize_known_input_typos_for_llm(input), term)
            ==> is_required_or_said(spec_required_technical_terms(input), term),
        spec_required_technical_terms(input).contains(term) ==> is_found(
            typos::spec_normalize_known_input_typos_for_llm(input),
            term,
        ),
{
    reveal(spec_required_technical_terms);
    reveal(spec_remove_assignment_key_duplicates);
    reveal(spec_remove_covered_inline_identifier_terms);
    let normalized = typos::spec_normalize_known_input_typos_for_llm(input);
    let known = all_found(normalized);
    let keys = spec_assignment_keys(known);
    let free = spec_terms_without(known, keys);
    let required = spec_required_technical_terms(input);
    let is_free = |term: Seq<char>| !text::spec_list_has_ignoring_case(keys, term);
    let is_uncovered = |term: Seq<char>| !spec_is_covered_inline_term(free, term);
    assert(free == known.filter(is_free));
    assert(required == free.filter(is_uncovered));
    found_terms_are_listed(normalized, term);
    parts::kept_items_were_listed(known, is_free, term);
    parts::kept_items_were_listed(free, is_uncovered, term);
    if is_found(normalized, term) {
        let n = choose|n: int|
            0 <= n < known.len() && text::spec_same_ignoring_case(#[trigger] known[n], term);
        let listed = known[n];
        parts::kept_items_were_listed(known, is_free, listed);
        parts::kept_items_were_listed(free, is_uncovered, listed);
        if text::spec_list_has_ignoring_case(keys, listed) {
            let m = choose|m: int|
                0 <= m < keys.len() && text::spec_same_ignoring_case(#[trigger] keys[m], listed);
            let k = keys_are_those_of_assignments(known, m);
            let assignment = known[k];
            let key = text::spec_split_once(assignment, "="@)->Some_0.0;
            keys_hold_no_equals_sign(assignment);
            let place = choose|i: int| 0 <= i < assignment.len() && #[trigger] assignment[i] == '=';
            assignments_are_no_keys(known, assignment, place);
            parts::kept_items_were_listed(known, is_free, assignment);
            parts::kept_items_were_listed(free, is_uncovered, assignment);
            assert(!spec_is_covered_inline_term(free, assignment)) by {
                reveal(spec_is_covered_inline_term);
                assert(!text::spec_is_lower(assignment[place]) && !text::spec_is_digit(
                    assignment[place],
                ));
            }
            let r = choose|r: int| 0 <= r < required.len() && required[r] == assignment;
            assert(text::spec_lowercase(text::spec_lowercase(key)) =~= text::spec_lowercase(key));
            assert(text::spec_same_ignoring_case(key, term));
            assert(text::spec_split_once(required[r], "="@) == Some(
                text::spec_split_once(assignment, "="@)->Some_0,
            ));
        } else if spec_is_covered_inline_term(free, listed) {
            reveal(spec_is_covered_inline_term);
            reveal(spec_any_covers);
            let k = choose|k: int|
                #![trigger free[k]]
                0 <= k < free.len() && spec_covers_component(free[k], listed);
            covering_terms_stay(free, free[k], listed);
            parts::kept_items_were_listed(free, is_uncovered, free[k]);
            let r = choose|r: int| 0 <= r < required.len() && required[r] == free[k];
            let tokens = text::spec_split_tokens(required[r], ""@);
            let t = choose|t: int|
                0 <= t < tokens.len() && text::spec_same_ignoring_case(#[trigger] tokens[t], listed);
            listed_in_some_case(tokens, term, t);
            assert(text::spec_lowercase(listed).len() == listed.len());
            assert(text::spec_lowercase(term).len() == term.len());
            assert(required[r].len() > term.len());
        } else {
            let r = choose|r: int| 0 <= r < required.len() && required[r] == listed;
            listed_in_some_case(required, term, r);
        }
    }
}

/// Names of tables that are among the tokens are found.
proof fn tables_among_tokens(items: Seq<Seq<char>>, input: Seq<char>, k: int)
    requires
        0 <= k < items.len(),
        items[k].len() >= 3,
        matching::spec_any_alpha(items[k]),
        spec_is_table_name(input, items[k]),
    ensures
        text::spec_list_has_ignoring_case(spec_tables_among(items, input), items[k]),
    decreases items.len(),
{
    let fewer = items.drop_last();
    let before = spec_tables_among(fewer, input);
    has_one_more(before, items.last(), items[k]);
    if k < items.len() - 1 {
        assert(fewer[k] == items[k]);
        tables_among_tokens(fewer, input, k);
    }
}

/// The text is nothing but white space.
pub open spec fn is_blank(text: Seq<char>) -> bool {
    forall|i: int| 0 <= i < text.len() ==> text::spec_is_whitespace(#[trigger] text[i])
}

/// White space before a text that begins with none is dropped.
proof fn blank_start_is_dropped(blank: Seq<char>, rest: Seq<char>)
    requires
        is_blank(blank),
        rest.len() == 0 || !text::spec_is_whitespace(rest[0]),
    ensures
        text::spec_trim_start(blank + rest) == rest,
    decreases blank.len(),
{
    let whole = blank + rest;
    if blank.len() == 0 {
        assert(whole =~= rest);
        if rest.len() > 0 {
            assert(whole.first() == rest[0]);
        }
    } else {
        let shorter = blank.drop_first();
        assert forall|i: int| 0 <= i < shorter.len() implies text::spec_is_whitespace(
            #[trigger] shorter[i],
        ) by {
            assert(shorter[i] == blank[i + 1]);
        }
        blank_start_is_dropped(shorter, rest);
        assert(whole.first() == blank[0]);
        assert(whole.drop_first() =~= shorter + rest);
    }
}

/// A word of three or more letters, digits and underscores with a letter among them that stands
/// before the word "table", with no more than white space between them, is found as the name of a
/// table.
pub proof fn table_names_are_found(
    before: Seq<char>,
    name: Seq<char>,
    gap: Seq<char>,
    word: Seq<char>,
    after: Seq<char>,
)
    requires
        parts::is_token_at(
            before + name + gap + word + after,
            seq!['_'],
            before.len() as int,
            (before.len() + name.len()) as int,
        ),
        name.len() >= 3,
        exists|i: int| 0 <= i < name.len() && text::spec_is_alpha(#[trigger] name[i]),
        is_blank(gap),
        gap.len() <= 11,
        text::spec_same_ignoring_case(word, "テーブル"@) || text::spec_same_ignoring_case(
            word,
            "table"@,
        ),
    ensures
        text::spec_list_has_ignoring_case(
            spec_database_table_terms(before + name + gap + word + after),
            name,
        ),
{
    reveal(spec_database_table_terms);
    reveal(spec_is_table_name);
    reveal_strlit("_");
    reveal_strlit("テーブル");
    reveal_strlit("table");
    let input = before + name + gap + word + after;
    let start = before.len() as int;
    let end = start + name.len();
    assert("_"@ =~= seq!['_']);
    assert(input.subrange(start, end) =~= name);
    parts::tokens_are_pieces(input, "_"@, start, end);
    parts::tokens_are_matched(input, "_"@, start, end);
    let tokens = text::spec_split_tokens(input, "_"@);
    let k = choose|k: int| 0 <= k < tokens.len() && tokens[k] == name;
    let starts = text::spec_match_indices(input, name);
    let n = choose|n: int| 0 <= n < starts.len() && starts[n] == start;
    let lower_word = text::spec_lowercase(word);
    assert(lower_word == "テーブル"@ || lower_word == "table"@) by {
        assert(text::spec_lowercase("テーブル"@) =~= "テーブル"@);
        assert(text::spec_lowercase("table"@) =~= "table"@);
    }
    assert(lower_word.len() == word.len());
    let tail = text::spec_skip(text::spec_skip(input, start), name.len() as int);
    assert(tail =~= gap + word + after);
    let head = text::spec_take(tail, 16);
    let rest = head.skip(gap.len() as int);
    assert(head =~= gap + rest);
    assert(rest.take(word.len() as int) =~= word);
    assert(text::spec_lowercase(word)[0] == text::spec_lower_char(word[0]));
    assert(rest[0] == word[0]);
    blank_start_is_dropped(gap, rest);
    let lowered = text::spec_lowercase(rest);
    assert(lowered.subrange(0, word.len() as int) =~= lower_word);
    assert(spec_names_table_at(input, starts[n], name.len() as int));
    tables_among_tokens(tokens, input, k);
}

/// A request that names a table requires its name, or another required term says it.
pub proof fn tables_are_required(
    input: Seq<char>,
    before: Seq<char>,
    name: Seq<char>,
    gap: Seq<char>,
    word: Seq<char>,
    after: Seq<char>,
)
    requires
        typos::spec_normalize_known_input_typos_for_llm(input) == before + name + gap + word
            + after,
        parts::is_token_at(
            before + name + gap + word + after,
            seq!['_'],
            before.len() as int,
            (before.len() + name.len()) as int,
        ),
        name.len() >= 3,
        exists|i: int| 0 <= i < name.len() && text::spec_is_alpha(#[trigger] name[i]),
        is_blank(gap),
        gap.len() <= 11,
        text::spec_same_ignoring_case(word, "テーブル"@) || text::spec_same_ignoring_case(
            word,
            "table"@,
        ),
    ensures
        is_required_or_said(spec_required_technical_terms(input), name),
{
    let normalized = before + name + gap + word + after;
    table_names_are_found(before, name, gap, word, after);
    let tables = spec_database_table_terms(normalized);
    let k = choose|k: int|
        0 <= k < tables.len() && text::spec_same_ignoring_case(#[trigger] tables[k], name);
    assert(tables.contains(tables[k]));
    found_terms_are_required(input, tables[k]);
    said_in_either_case(spec_required_technical_terms(input), tables[k], name);
}

/// Whether a term is required or said does not depend on the case of ASCII letters.
pub proof fn said_in_either_case(
    required: Seq<Seq<char>>,
    term: Seq<char>,
    other: Seq<char>,
)
    requires
        text::spec_same_ignoring_case(term, other),
        is_required_or_said(required, term),
    ensures
        is_required_or_said(required, other),
{
    assert(text::spec_lowercase(term).len() == term.len());
    assert(text::spec_lowercase(other).len() == other.len());
    if text::spec_list_has_ignoring_case(required, term) {
        let k = choose|k: int|
            0 <= k < required.len() && text::spec_same_ignoring_case(#[trigger] required[k], term);
        listed_in_some_case(required, other, k);
    } else if exists|k: int|
        0 <= k < required.len() && (text::spec_split_once(#[trigger] required[k], "="@) matches Some(
            sides,
        ) && text::spec_same_ignoring_case(sides.0, term)) {
    } else {
        let k = choose|k: int|
            0 <= k < required.len() && (#[trigger] required[k]).len() > term.len()
                && text::spec_list_has_ignoring_case(
                text::spec_split_tokens(required[k], ""@),
                term,
            );
        let tokens = text::spec_split_tokens(required[k], ""@);
        let t = choose|t: int|
            0 <= t < tokens.len() && text::spec_same_ignoring_case(#[trigger] tokens[t], term);
        listed_in_some_case(tokens, other, t);
    }
}

/// Names among the tokens that are required are found.
proof fn names_among_tokens(items: Seq<Seq<char>>, input: Seq<char>, k: int)
    requires
        0 <= k < items.len(),
        items[k].len() > 0,
        spec_is_required_identifier(input, items[k]),
    ensures
        text::spec_list_has_ignoring_case(spec_identifiers_among(items, input), items[k]),
    decreases items.len(),
{
    let fewer = items.drop_last();
    let before = spec_identifiers_among(fewer, input);
    has_one_more(before, items.last(), items[k]);
    if k < items.len() - 1 {
        assert(fewer[k] == items[k]);
        names_among_tokens(fewer, input, k);
    }
}

/// The word is the name of a request method.
pub open spec fn is_request_method(word: Seq<char>) -> bool {
    ||| text::spec_same_ignoring_case(word, "get"@)
    ||| text::spec_same_ignoring_case(word, "post"@)
    ||| text::spec_same_ignoring_case(word, "put"@)
    ||| text::spec_same_ignoring_case(word, "patch"@)
    ||| text::spec_same_ignoring_case(word, "delete"@)
    ||| text::spec_same_ignoring_case(word, "head"@)
    ||| text::spec_same_ignoring_case(word, "options"@)
}

/// The word looks like the name of something technical: it begins with a letter and has a capital
/// after its first character, or has two letters or more and no small one.
pub open spec fn looks_like_name(word: Seq<char>) -> bool {
    ||| word.len() > 0 && text::spec_is_alpha(word[0]) && exists|i: int|
        1 <= i < word.len() && text::spec_is_upper(#[trigger] word[i])
    ||| exists|i: int, j: int|
        0 <= i < j < word.len() && text::spec_is_upper(#[trigger] word[i]) && text::spec_is_upper(
            #[trigger] word[j],
        ) && forall|k: int| 0 <= k < word.len() ==> !text::spec_is_lower(#[trigger] word[k])
}

/// The capitals of a text without small letters are its letters.
proof fn letters_are_capitals(word: Seq<char>)
    requires
        forall|k: int| 0 <= k < word.len() ==> !text::spec_is_lower(#[trigger] word[k]),
    ensures
        spec_all_upper(spec_alpha_letters(word)),
        forall|i: int|
            0 <= i < word.len() && text::spec_is_upper(#[trigger] word[i])
                ==> spec_alpha_letters(word).len() >= 1,
        forall|i: int, j: int|
            0 <= i < j < word.len() && text::spec_is_upper(#[trigger] word[i])
                && text::spec_is_upper(#[trigger] word[j]) ==> spec_alpha_letters(word).len() >= 2,
    decreases word.len(),
{
    reveal(Seq::filter);
    if word.len() > 0 {
        let shorter = word.drop_last();
        assert forall|k: int| 0 <= k < shorter.len() implies !text::spec_is_lower(
            #[trigger] shorter[k],
        ) by {
            assert(shorter[k] == word[k]);
        }
        letters_are_capitals(shorter);
        assert(word.last() == word[word.len() - 1]);
        assert forall|i: int|
            0 <= i < word.len() && text::spec_is_upper(#[trigger] word[i]) implies
            spec_alpha_letters(word).len() >= 1 by {
            if i < shorter.len() {
                assert(shorter[i] == word[i]);
            }
        }
        assert forall|i: int, j: int|
            0 <= i < j < word.len() && text::spec_is_upper(#[trigger] word[i])
                && text::spec_is_upper(#[trigger] word[j]) implies spec_alpha_letters(word).len()
            >= 2 by {
            assert(shorter[i] == word[i]);
            if j < shorter.len() {
                assert(shorter[j] == word[j]);
            }
        }
    }
}

/// A text is one of the given ones only where it is one of them.
proof fn request_methods_are_listed(word: Seq<char>)
    ensures
        text::spec_is_one_of(text::spec_lowercase(word), HTTP_METHOD_NAMES@) <==> is_request_method(
            word,
        ),
{
    reveal_strlit("get");
    reveal_strlit("post");
    reveal_strlit("put");
    reveal_strlit("patch");
    reveal_strlit("delete");
    reveal_strlit("head");
    reveal_strlit("options");
    let names = HTTP_METHOD_NAMES@;
    assert(names[0]@ == "get"@ && names[1]@ == "post"@ && names[2]@ == "put"@ && names[3]@
        == "patch"@ && names[4]@ == "delete"@ && names[5]@ == "head"@ && names[6]@ == "options"@);
    assert forall|k: int| 0 <= k < names.len() implies text::spec_lowercase(#[trigger] names[k]@)
        == names[k]@ by {
        assert(text::spec_lowercase(names[k]@) =~= names[k]@);
    }
}

/// A word that looks like the name of something technical, and is no request method, is required,
/// or another required term says it.
pub proof fn names_are_required(input: Seq<char>, start: int, end: int)
    requires
        parts::is_token_at(
            typos::spec_normalize_known_input_typos_for_llm(input),
            seq!['_'],
            start,
            end,
        ),
        looks_like_name(
            typos::spec_normalize_known_input_typos_for_llm(input).subrange(start, end),
        ),
        !is_request_method(
            typos::spec_normalize_known_input_typos_for_llm(input).subrange(start, end),
        ),
    ensures
        is_required_or_said(
            spec_required_technical_terms(input),
            typos::spec_normalize_known_input_typos_for_llm(input).subrange(start, end),
        ),
{
    reveal(spec_identifier_terms);
    reveal(spec_is_required_identifier);
    reveal(spec_is_ascii_acronym);
    reveal_strlit("_");
    assert("_"@ =~= seq!['_']);
    let normalized = typos::spec_normalize_known_input_typos_for_llm(input);
    let word = normalized.subrange(start, end);
    let tokens = text::spec_split_tokens(normalized, "_"@);
    parts::tokens_are_pieces(normalized, "_"@, start, end);
    let k = choose|k: int| 0 <= k < tokens.len() && tokens[k] == word;
    request_methods_are_listed(word);
    assert(spec_is_required_identifier(normalized, word)) by {
        if text::spec_is_alpha(word[0]) && exists|i: int|
            1 <= i < word.len() && text::spec_is_upper(#[trigger] word[i]) {
            let i = choose|i: int| 1 <= i < word.len() && text::spec_is_upper(#[trigger] word[i]);
            let tail = text::spec_skip(word, 1);
            assert(tail[i - 1] == word[i]);
        } else {
            letters_are_capitals(word);
        }
    }
    names_among_tokens(tokens, normalized, k);
    let names = spec_identifier_terms(normalized);
    let n = choose|n: int|
        0 <= n < names.len() && text::spec_same_ignoring_case(#[trigger] names[n], word);
    assert(names.contains(names[n]));
    found_terms_are_required(input, names[n]);
    said_in_either_case(spec_required_technical_terms(input), names[n], word);
}

/// Digits at the start of a text that no digit follows are its leading digits.
proof fn digits_lead(digits: Seq<char>, after: Seq<char>, i: int)
    requires
        0 <= i <= digits.len(),
        forall|k: int| 0 <= k < digits.len() ==> text::spec_is_digit(#[trigger] digits[k]),
        after.len() == 0 || !text::spec_is_digit(after[0]),
    ensures
        spec_digits_from(digits + after, i, digits.take(i)) == digits,
    decreases digits.len() - i,
{
    let whole = digits + after;
    if i < digits.len() {
        assert(whole[i] == digits[i]);
        digits_lead(digits, after, i + 1);
        assert(digits.take(i).push(digits[i]) =~= digits.take(i + 1));
    } else {
        assert(digits.take(i) =~= digits);
        if after.len() > 0 {
            assert(whole[i] == after[0]);
        }
    }
}

/// Status codes at places of the word HTTP are found.
proof fn statuses_at_places(items: Seq<int>, input: Seq<char>, k: int)
    requires
        0 <= k < items.len(),
        spec_leading_digits(
            text::spec_trim_start(text::spec_skip(text::spec_skip(input, items[k]), 4)),
        ).len() == 3,
    ensures
        spec_statuses_at(items, input).contains(
            "HTTP "@ + spec_leading_digits(
                text::spec_trim_start(text::spec_skip(text::spec_skip(input, items[k]), 4)),
            ),
        ),
    decreases items.len(),
{
    let fewer = items.drop_last();
    let before = spec_statuses_at(fewer, input);
    let term = "HTTP "@ + spec_leading_digits(
        text::spec_trim_start(text::spec_skip(text::spec_skip(input, items[k]), 4)),
    );
    let last = "HTTP "@ + spec_leading_digits(
        text::spec_trim_start(text::spec_skip(text::spec_skip(input, items.last()), 4)),
    );
    parts::pushed_item(before, last, term);
    if k < items.len() - 1 {
        assert(fewer[k] == items[k]);
        statuses_at_places(fewer, input, k);
    }
}

/// Three digits that follow the word HTTP, in whatever case and with no more than white space between
/// them, are required as a status code, or another required term says it.
pub proof fn statuses_are_required(
    input: Seq<char>,
    before: Seq<char>,
    word: Seq<char>,
    gap: Seq<char>,
    digits: Seq<char>,
    after: Seq<char>,
)
    requires
        typos::spec_normalize_known_input_typos_for_llm(input) == before + word + gap + digits
            + after,
        text::spec_same_ignoring_case(word, "http"@),
        is_blank(gap),
        digits.len() == 3,
        forall|k: int| 0 <= k < digits.len() ==> text::spec_is_digit(#[trigger] digits[k]),
        after.len() == 0 || !text::spec_is_digit(after[0]),
    ensures
        is_required_or_said(spec_required_technical_terms(input), "HTTP "@ + digits),
{
    reveal(spec_http_status_terms);
    reveal_strlit("http");
    let normalized = before + word + gap + digits + after;
    let lower = text::spec_lowercase(normalized);
    let http = "http"@;
    let place = before.len() as int;
    assert(text::spec_lowercase(http) =~= http);
    assert(text::spec_lowercase(word).len() == word.len());
    assert(lower.subrange(place, place + 4) =~= http) by {
        assert forall|i: int| 0 <= i < 4 implies #[trigger] lower[place + i] == http[i] by {
            assert(normalized[place + i] == word[i]);
            assert(text::spec_lowercase(word)[i] == http[i]);
        }
    }
    assert(text::occurs_at(lower, http, place));
    assert forall|j: int| 0 <= j < place && place < j + 4 implies !#[trigger] text::occurs_at(
        lower,
        http,
        j,
    ) by {
        if text::occurs_at(lower, http, j) {
            assert(lower.subrange(j, j + 4)[place - j] == lower[place]);
            assert(lower.subrange(place, place + 4)[0] == lower[place]);
        }
    }
    parts::free_places_are_matched(lower, http, place);
    let starts = text::spec_match_indices(lower, http);
    let n = choose|n: int| 0 <= n < starts.len() && starts[n] == place;
    let tail = text::spec_skip(text::spec_skip(normalized, place), 4);
    assert(tail =~= gap + (digits + after));
    assert((digits + after)[0] == digits[0]);
    assert(!text::spec_is_whitespace(digits[0]));
    blank_start_is_dropped(gap, digits + after);
    digits_lead(digits, after, 0);
    assert(digits.take(0) =~= Seq::empty());
    statuses_at_places(starts, normalized, n);
    found_terms_are_required(input, "HTTP "@ + digits);
}

/// Phrases that are known are found wherever they stand.
proof fn known_phrases_are_found(items: Seq<&str>, input: Seq<char>, k: int)
    requires
        0 <= k < items.len(),
        text::spec_contains(input, items[k]@),
    ensures
        spec_known_terms_among(items, input).contains(items[k]@),
    decreases items.len(),
{
    let fewer = items.drop_last();
    let before = spec_known_terms_among(fewer, input);
    parts::pushed_item(before, items.last()@, items[k]@);
    if k < items.len() - 1 {
        assert(fewer[k] == items[k]);
        known_phrases_are_found(fewer, input, k);
    }
}

/// A known phrase that stands in the request is required, or another required term says it.
pub proof fn known_phrases_are_required(input: Seq<char>, k: int)
    requires
        0 <= k < KNOWN_TERMS@.len(),
        text::spec_contains(
            typos::spec_normalize_known_input_typos_for_llm(input),
            KNOWN_TERMS@[k]@,
        ),
    ensures
        is_required_or_said(spec_required_technical_terms(input), KNOWN_TERMS@[k]@),
{
    reveal(spec_japanese_preserve_terms);
    let normalized = typos::spec_normalize_known_input_typos_for_llm(input);
    let phrases = spec_known_terms_among(KNOWN_TERMS@, normalized);
    let limits = spec_numeric_limit_terms(normalized);
    known_phrases_are_found(KNOWN_TERMS@, normalized, k);
    let n = choose|n: int| 0 <= n < phrases.len() && phrases[n] == KNOWN_TERMS@[k]@;
    assert((phrases + limits)[n] == KNOWN_TERMS@[k]@);
    found_terms_are_required(input, KNOWN_TERMS@[k]@);
}

/// Literals of code among the tokens are found.
proof fn literals_among_tokens(items: Seq<Seq<char>>, skip_path_terms: bool, k: int)
    requires
        0 <= k < items.len(),
        ({
            let trimmed = text::spec_trim_any(items[k], ".,:;)("@);
            let token = spec_focused_literal(trimmed);
            &&& trimmed.len() >= 3
            &&& !(text::spec_starts_with(trimmed, "/"@) && skip_path_terms)
            &&& matching::spec_any_alpha(token)
            &&& matching::spec_any_of_set(token, CODE_CHARACTERS@)
        }),
    ensures
        text::spec_list_has_ignoring_case(
            spec_literals_among(items, skip_path_terms),
            spec_focused_literal(text::spec_trim_any(items[k], ".,:;)("@)),
        ),
    decreases items.len(),
{
    let fewer = items.drop_last();
    let before = spec_literals_among(fewer, skip_path_terms);
    let token = spec_focused_literal(text::spec_trim_any(items[k], ".,:;)("@));
    let last = spec_focused_literal(text::spec_trim_any(items.last(), ".,:;)("@));
    has_one_more(before, last, token);
    if k < items.len() - 1 {
        assert(fewer[k] == items[k]);
        literals_among_tokens(fewer, skip_path_terms, k);
    }
}

/// A token of letters, digits and the signs of code that has a letter and a sign, begins and ends
/// with a letter or digit and holds no equals sign, is required as it is written, or another
/// required term says it.
pub proof fn literals_of_code_are_required(input: Seq<char>, start: int, end: int)
    requires
        parts::is_token_at(
            typos::spec_normalize_known_input_typos_for_llm(input),
            "_-./:+#@=<>"@,
            start,
            end,
        ),
        ({
            let token = typos::spec_normalize_known_input_typos_for_llm(input).subrange(start, end);
            &&& token.len() >= 3
            &&& text::spec_is_alnum(token[0])
            &&& text::spec_is_alnum(token.last())
            &&& exists|i: int| 0 <= i < token.len() && text::spec_is_alpha(#[trigger] token[i])
            &&& exists|i: int| 0 <= i < token.len() && !text::spec_is_alnum(#[trigger] token[i])
            &&& text::lacks(token, '=')
        }),
    ensures
        is_required_or_said(
            spec_required_technical_terms(input),
            typos::spec_normalize_known_input_typos_for_llm(input).subrange(start, end),
        ),
{
    reveal(spec_code_like_literal_terms);
    reveal_strlit("_-./:+#@=<>");
    reveal_strlit(".,:;)(");
    reveal_strlit("/");
    let normalized = typos::spec_normalize_known_input_typos_for_llm(input);
    let token = normalized.subrange(start, end);
    let tokens = text::spec_split_tokens(normalized, CODE_CHARACTERS@);
    let skips = matching::spec_holds_marker(normalized, LOG_MARKERS@);
    parts::tokens_are_pieces(normalized, CODE_CHARACTERS@, start, end);
    let k = choose|k: int| 0 <= k < tokens.len() && tokens[k] == token;
    let edges = ".,:;)("@;
    assert(!edges.contains(token.first()) && !edges.contains(token.last()));
    assert(text::spec_trim_start_any(token, edges) == token);
    assert(text::spec_trim_any(token, edges) == token);
    keys_hold_no_equals_sign(token);
    assert(spec_focused_literal(token) == token);
    assert(!text::spec_starts_with(token, "/"@)) by {
        if text::spec_starts_with(token, "/"@) {
            assert(token.subrange(0, 1)[0] == token[0]);
        }
    }
    assert(matching::spec_any_of_set(token, CODE_CHARACTERS@)) by {
        let i = choose|i: int| 0 <= i < token.len() && !text::spec_is_alnum(#[trigger] token[i]);
        assert(token[i] == normalized[start + i]);
        assert(text::spec_is_token_char(normalized[start + i], CODE_CHARACTERS@));
    }
    literals_among_tokens(tokens, skips, k);
    let literals = spec_code_like_literal_terms(normalized);
    let n = choose|n: int|
        0 <= n < literals.len() && text::spec_same_ignoring_case(#[trigger] literals[n], token);
    assert(literals.contains(literals[n]));
    found_terms_are_required(input, literals[n]);
    said_in_either_case(spec_required_technical_terms(input), literals[n], token);
}

/// Phrases among the runs of ASCII words are found.
proof fn phrases_among_runs(items: Seq<Seq<char>>, input: Seq<char>, k: int)
    requires
        0 <= k < items.len(),
        spec_is_compound_run(input, text::spec_words(items[k])),
    ensures
        spec_runs_among(items, input).contains(
            text::spec_join(text::spec_words(items[k]), " "@),
        ),
    decreases items.len(),
{
    let fewer = items.drop_last();
    let before = spec_runs_among(fewer, input);
    let phrase = text::spec_join(text::spec_words(items[k]), " "@);
    parts::pushed_item(before, text::spec_join(text::spec_words(items.last()), " "@), phrase);
    if k < items.len() - 1 {
        assert(fewer[k] == items[k]);
        phrases_among_runs(fewer, input, k);
    }
}

/// A run of two to six ASCII words that is a command with an option, or a request method and a path,
/// is required as it is written but for its white space, or another required term says it.
pub proof fn commands_and_routes_are_required(input: Seq<char>, start: int, end: int)
    requires
        parts::is_token_at(
            typos::spec_normalize_known_input_typos_for_llm(input),
            "_-./:+#@=<> \t\n\u{c}\r"@,
            start,
            end,
        ),
        ({
            let words = text::spec_words(
                typos::spec_normalize_known_input_typos_for_llm(input).subrange(start, end),
            );
            &&& 2 <= words.len() <= 6
            &&& (exists|i: int|
                0 <= i < words.len() && text::spec_starts_with(#[trigger] words[i], "--"@)) || (
            is_request_method(words[0]) && text::spec_starts_with(words[1], "/"@))
        }),
    ensures
        is_required_or_said(
            spec_required_technical_terms(input),
            text::spec_join(
                text::spec_words(
                    typos::spec_normalize_known_input_typos_for_llm(input).subrange(start, end),
                ),
                " "@,
            ),
        ),
{
    reveal(spec_compound_ascii_terms);
    reveal(spec_is_compound_run);
    let normalized = typos::spec_normalize_known_input_typos_for_llm(input);
    let run = normalized.subrange(start, end);
    let words = text::spec_words(run);
    let runs = text::spec_split_tokens(normalized, RUN_CHARACTERS@);
    parts::tokens_are_pieces(normalized, RUN_CHARACTERS@, start, end);
    let k = choose|k: int| 0 <= k < runs.len() && runs[k] == run;
    if is_request_method(words[0]) {
        route_methods_are_listed(words[0]);
    }
    if exists|i: int| 0 <= i < words.len() && text::spec_starts_with(#[trigger] words[i], "--"@) {
        let i = choose|i: int|
            0 <= i < words.len() && text::spec_starts_with(#[trigger] words[i], "--"@);
        assert(text::spec_starts_with(words[i], "--"@));
        assert(spec_any_cli_option(words));
    }
    phrases_among_runs(runs, normalized, k);
    found_terms_are_required(input, text::spec_join(words, " "@));
}

/// The names of request methods begin routes, in whatever case.
proof fn route_methods_are_listed(word: Seq<char>)
    requires
        is_request_method(word),
    ensures
        text::spec_is_one_of(text::spec_uppercase(word), ROUTE_METHODS@),
{
    reveal_strlit("get");
    reveal_strlit("post");
    reveal_strlit("put");
    reveal_strlit("patch");
    reveal_strlit("delete");
    reveal_strlit("head");
    reveal_strlit("options");
    reveal_strlit("GET");
    reveal_strlit("POST");
    reveal_strlit("PUT");
    reveal_strlit("PATCH");
    reveal_strlit("DELETE");
    reveal_strlit("HEAD");
    reveal_strlit("OPTIONS");
    upper_case_of_the_same(word, "get"@, "GET"@);
    upper_case_of_the_same(word, "post"@, "POST"@);
    upper_case_of_the_same(word, "put"@, "PUT"@);
    upper_case_of_the_same(word, "patch"@, "PATCH"@);
    upper_case_of_the_same(word, "delete"@, "DELETE"@);
    upper_case_of_the_same(word, "head"@, "HEAD"@);
    upper_case_of_the_same(word, "options"@, "OPTIONS"@);
    let names = ROUTE_METHODS@;
    assert(names[0]@ == "GET"@ && names[1]@ == "POST"@ && names[2]@ == "PUT"@ && names[3]@
        == "PATCH"@ && names[4]@ == "DELETE"@ && names[5]@ == "HEAD"@ && names[6]@ == "OPTIONS"@);
}

/// Texts that are the same up to the case of ASCII letters have the same upper case.
proof fn upper_case_of_the_same(word: Seq<char>, small: Seq<char>, large: Seq<char>)
    requires
        text::spec_uppercase(small) =~= large,
    ensures
        text::spec_same_ignoring_case(word, small) ==> text::spec_uppercase(word) == large,
{
    if text::spec_same_ignoring_case(word, small) {
        assert(text::spec_lowercase(word).len() == word.len());
        assert(text::spec_lowercase(small).len() == small.len());
        assert forall|i: int| 0 <= i < word.len() implies #[trigger] text::spec_uppercase(word)[i]
            == text::spec_uppercase(small)[i] by {
            assert(text::spec_lowercase(word)[i] == text::spec_lowercase(small)[i]);
        }
        assert(text::spec_uppercase(word) =~= text::spec_uppercase(small));
    }
}

/// A phrase that is a technical term wherever it stands.
pub open spec fn is_known_phrase(word: Seq<char>) -> bool {
    ||| word == "メール通知"@
    ||| word == "アプリ内通知"@
    ||| word == "個人情報"@
    ||| word == "依存関係キャッシュ"@
    ||| word == "ロックファイル"@
    ||| word == "監視ログ"@
    ||| word == "無効"@
    ||| word == "圧縮完了"@
    ||| word == "圧縮結果"@
    ||| word == "結果欄"@
    ||| word == "アイコン"@
    ||| word == "メトリクス"@
    ||| word == "最小化"@
    ||| word == "最大化"@
    ||| word == "閉じる"@
    ||| word == "ウィンドウバー"@
    ||| word == "トークン"@
    ||| word == "文字数"@
    ||| word == "圧縮レベル"@
    ||| word == "検証失敗理由"@
    ||| word == "必須語"@
    ||| word == "平均圧縮率"@
    ||| word == "既定値"@
    ||| word == "Sarashina 2.2 3B"@
    ||| word == "LM Studio"@
    ||| word == "push token"@
    ||| word == "Vue 3"@
    ||| word == "cart store"@
    ||| word == "derived store"@
    ||| word == "修復再推論"@
    ||| word == "1回目"@
    ||| word == "原文返し"@
    ||| word == "評価基準"@
    ||| word == "モード"@
    ||| word == "タスク種別"@
    ||| word == "共通プロンプト"@
    ||| word == "レベル別プロンプト"@
    ||| word == "Spring Boot"@
    ||| word == "Bean Validation"@
    ||| word == "version 4"@
    ||| word == "public access block"@
    ||| word == "Dockerfile"@
    ||| word == "dist"@
    ||| word == "実通信しない"@
    ||| word == "fake timers"@
}

/// Such a word is one of those that are looked for.
proof fn known_phrase_has_its_place(word: Seq<char>) -> (k: int)
    requires
        is_known_phrase(word),
    ensures
        0 <= k < KNOWN_TERMS@.len(),
        KNOWN_TERMS@[k]@ == word,
{
    assert(KNOWN_TERMS@[0]@ == "メール通知"@);
    assert(KNOWN_TERMS@[1]@ == "アプリ内通知"@);
    assert(KNOWN_TERMS@[2]@ == "個人情報"@);
    assert(KNOWN_TERMS@[3]@ == "依存関係キャッシュ"@);
    assert(KNOWN_TERMS@[4]@ == "ロックファイル"@);
    assert(KNOWN_TERMS@[5]@ == "監視ログ"@);
    assert(KNOWN_TERMS@[6]@ == "無効"@);
    assert(KNOWN_TERMS@[7]@ == "圧縮完了"@);
    assert(KNOWN_TERMS@[8]@ == "圧縮結果"@);
    assert(KNOWN_TERMS@[9]@ == "結果欄"@);
    assert(KNOWN_TERMS@[10]@ == "アイコン"@);
    assert(KNOWN_TERMS@[11]@ == "メトリクス"@);
    assert(KNOWN_TERMS@[12]@ == "最小化"@);
    assert(KNOWN_TERMS@[13]@ == "最大化"@);
    assert(KNOWN_TERMS@[14]@ == "閉じる"@);
    assert(KNOWN_TERMS@[15]@ == "ウィンドウバー"@);
    assert(KNOWN_TERMS@[16]@ == "トークン"@);
    assert(KNOWN_TERMS@[17]@ == "文字数"@);
    assert(KNOWN_TERMS@[18]@ == "圧縮レベル"@);
    assert(KNOWN_TERMS@[19]@ == "検証失敗理由"@);
    assert(KNOWN_TERMS@[20]@ == "必須語"@);
    assert(KNOWN_TERMS@[21]@ == "平均圧縮率"@);
    assert(KNOWN_TERMS@[22]@ == "既定値"@);
    assert(KNOWN_TERMS@[23]@ == "Sarashina 2.2 3B"@);
    assert(KNOWN_TERMS@[24]@ == "LM Studio"@);
    assert(KNOWN_TERMS@[25]@ == "push token"@);
    assert(KNOWN_TERMS@[26]@ == "Vue 3"@);
    assert(KNOWN_TERMS@[27]@ == "cart store"@);
    assert(KNOWN_TERMS@[28]@ == "derived store"@);
    assert(KNOWN_TERMS@[29]@ == "修復再推論"@);
    assert(KNOWN_TERMS@[30]@ == "1回目"@);
    assert(KNOWN_TERMS@[31]@ == "原文返し"@);
    assert(KNOWN_TERMS@[32]@ == "評価基準"@);
    assert(KNOWN_TERMS@[33]@ == "モード"@);
    assert(KNOWN_TERMS@[34]@ == "タスク種別"@);
    assert(KNOWN_TERMS@[35]@ == "共通プロンプト"@);
    assert(KNOWN_TERMS@[36]@ == "レベル別プロンプト"@);
    assert(KNOWN_TERMS@[37]@ == "Spring Boot"@);
    assert(KNOWN_TERMS@[38]@ == "Bean Validation"@);
    assert(KNOWN_TERMS@[39]@ == "version 4"@);
    assert(KNOWN_TERMS@[40]@ == "public access block"@);
    assert(KNOWN_TERMS@[41]@ == "Dockerfile"@);
    assert(KNOWN_TERMS@[42]@ == "dist"@);
    assert(KNOWN_TERMS@[43]@ == "実通信しない"@);
    assert(KNOWN_TERMS@[44]@ == "fake timers"@);
    choose|k: int| 0 <= k < KNOWN_TERMS@.len() && (#[trigger] KNOWN_TERMS@[k])@ == word
}

/// Each of the known phrases is required where it stands in the request, or another required term
/// says it.
pub proof fn phrases_of_requests_are_required(input: Seq<char>, word: Seq<char>)
    requires
        is_known_phrase(word),
        text::spec_contains(typos::spec_normalize_known_input_typos_for_llm(input), word),
    ensures
        is_required_or_said(spec_required_technical_terms(input), word),
{
    let k = known_phrase_has_its_place(word);
    known_phrases_are_required(input, k);
}

/// A common name of something technical.
pub open spec fn is_common_name(word: Seq<char>) -> bool {
    ||| word == "react"@
    ||| word == "typescript"@
    ||| word == "javascript"@
    ||| word == "next"@
    ||| word == "vue"@
    ||| word == "angular"@
    ||| word == "svelte"@
    ||| word == "node"@
    ||| word == "express"@
    ||| word == "expo"@
    ||| word == "git"@
    ||| word == "go"@
    ||| word == "graphql"@
    ||| word == "i18n"@
    ||| word == "rest"@
    ||| word == "windows"@
    ||| word == "android"@
    ||| word == "vitest"@
    ||| word == "jest"@
    ||| word == "playwright"@
    ||| word == "prisma"@
    ||| word == "python"@
    ||| word == "rust"@
    ||| word == "runtime"@
    ||| word == "model"@
    ||| word == "nginx"@
    ||| word == "redis"@
    ||| word == "location"@
    ||| word == "users"@
    ||| word == "posts"@
    ||| word == "storybook"@
    ||| word == "button"@
    ||| word == "validation"@
}

/// Such a word is one of those that are looked for.
proof fn common_name_has_its_place(word: Seq<char>) -> (k: int)
    requires
        is_common_name(word),
    ensures
        0 <= k < COMMON_TERMS@.len(),
        COMMON_TERMS@[k]@ == word,
{
    assert(COMMON_TERMS@[0]@ == "react"@);
    assert(COMMON_TERMS@[1]@ == "typescript"@);
    assert(COMMON_TERMS@[2]@ == "javascript"@);
    assert(COMMON_TERMS@[3]@ == "next"@);
    assert(COMMON_TERMS@[4]@ == "vue"@);
    assert(COMMON_TERMS@[5]@ == "angular"@);
    assert(COMMON_TERMS@[6]@ == "svelte"@);
    assert(COMMON_TERMS@[7]@ == "node"@);
    assert(COMMON_TERMS@[8]@ == "express"@);
    assert(COMMON_TERMS@[9]@ == "expo"@);
    assert(COMMON_TERMS@[10]@ == "git"@);
    assert(COMMON_TERMS@[11]@ == "go"@);
    assert(COMMON_TERMS@[12]@ == "graphql"@);
    assert(COMMON_TERMS@[13]@ == "i18n"@);
    assert(COMMON_TERMS@[14]@ == "rest"@);
    assert(COMMON_TERMS@[15]@ == "windows"@);
    assert(COMMON_TERMS@[16]@ == "android"@);
    assert(COMMON_TERMS@[17]@ == "vitest"@);
    assert(COMMON_TERMS@[18]@ == "jest"@);
    assert(COMMON_TERMS@[19]@ == "playwright"@);
    assert(COMMON_TERMS@[20]@ == "prisma"@);
    assert(COMMON_TERMS@[21]@ == "python"@);
    assert(COMMON_TERMS@[22]@ == "rust"@);
    assert(COMMON_TERMS@[23]@ == "runtime"@);
    assert(COMMON_TERMS@[24]@ == "model"@);
    assert(COMMON_TERMS@[25]@ == "nginx"@);
    assert(COMMON_TERMS@[26]@ == "redis"@);
    assert(COMMON_TERMS@[27]@ == "location"@);
    assert(COMMON_TERMS@[28]@ == "users"@);
    assert(COMMON_TERMS@[29]@ == "posts"@);
    assert(COMMON_TERMS@[30]@ == "storybook"@);
    assert(COMMON_TERMS@[31]@ == "button"@);
    assert(COMMON_TERMS@[32]@ == "validation"@);
    choose|k: int| 0 <= k < COMMON_TERMS@.len() && (#[trigger] COMMON_TERMS@[k])@ == word
}

/// A common name that stands in the request as a word, in upper or lower case, is required, or
/// another required term says it.
pub proof fn common_names_are_required(input: Seq<char>, start: int, end: int)
    requires
        parts::is_token_at(
            typos::spec_normalize_known_input_typos_for_llm(input),
            seq!['_'],
            start,
            end,
        ),
        is_common_name(
            text::spec_lowercase(
                typos::spec_normalize_known_input_typos_for_llm(input).subrange(start, end),
            ),
        ),
        !is_request_method(
            typos::spec_normalize_known_input_typos_for_llm(input).subrange(start, end),
        ),
    ensures
        is_required_or_said(
            spec_required_technical_terms(input),
            typos::spec_normalize_known_input_typos_for_llm(input).subrange(start, end),
        ),
{
    reveal(spec_identifier_terms);
    reveal(spec_is_required_identifier);
    reveal_strlit("_");
    assert("_"@ =~= seq!['_']);
    let normalized = typos::spec_normalize_known_input_typos_for_llm(input);
    let word = normalized.subrange(start, end);
    let tokens = text::spec_split_tokens(normalized, "_"@);
    parts::tokens_are_pieces(normalized, "_"@, start, end);
    let k = choose|k: int| 0 <= k < tokens.len() && tokens[k] == word;
    request_methods_are_listed(word);
    let place = common_name_has_its_place(text::spec_lowercase(word));
    assert(COMMON_TERMS@[place]@ == text::spec_lowercase(word));
    assert(spec_is_required_identifier(normalized, word));
    names_among_tokens(tokens, normalized, k);
    let names = spec_identifier_terms(normalized);
    let n = choose|n: int|
        0 <= n < names.len() && text::spec_same_ignoring_case(#[trigger] names[n], word);
    assert(names.contains(names[n]));
    found_terms_are_required(input, names[n]);
    said_in_either_case(spec_required_technical_terms(input), names[n], word);
}

} // verus!
