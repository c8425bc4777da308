//! Parts of a request that say of themselves that they do not belong to it.
use vstd::prelude::*;
use crate::parts;
use crate::runtime::matching;
use crate::runtime::spacing;
use crate::runtime::spans;
use crate::runtime::terms;
use crate::text;

verus! {

broadcast use crate::contents::group_contents;

/// Remarks by which a sentence declares itself void.
pub const EXPLICIT_NOISE_MARKERS: [&'static str; 15] = [
    "キーボードに触っただけ",
    "変換中の文字は無視",
    "依頼とは関係ありません",
    "ここも無視",
    "これは意味ない",
    "意味ないです",
    "貼り付けの残り",
    "意味はありません",
    "意味ありません",
    "意味ないので",
    "意味なし文字",
    "関係ない文字",
    "タッチミスと関係ない話",
    "依頼には含めない",
    "本題だけ圧縮できるか",
];

/// Signs of a sentence without meaning for the request.
pub const NOISE_MARKERS: [&'static str; 14] = [
    "こんにちｈ",
    "今日はｄあさ",
    "これは関係ない",
    "依頼内容とは関係ない",
    "本題ではない",
    "変な文字",
    "変な入力",
    "打ち間違い",
    "入力ミス",
    "無視して大丈夫",
    "残さなくて大丈夫",
    "圧縮後にはいらない",
    "意味なし文字",
    "関係ない文字",
];

/// Signs of a sentence that asks for something.
pub const ACTIONABLE_MARKERS: [&'static str; 16] = [
    "修正",
    "追加",
    "実装",
    "更新",
    "作成",
    "調査",
    "保持",
    "維持",
    "変更しない",
    "変更せず",
    "残す",
    "確認",
    "テスト",
    "返して",
    "使って",
    "使用して",
];

/// Signs of a constraint, which is never noise.
pub const PROTECTED_MARKERS: [&'static str; 18] = [
    "変更しない",
    "変更せず",
    "変えない",
    "維持",
    "保持",
    "残す",
    "消さない",
    "壊さない",
    "追加しない",
    "表示しない",
    "保存しない",
    "読み込まず",
    "だけ",
    "のみ",
    "ではなく",
    "じゃなく",
    "禁止",
    "避け",
];

/// Slips of the keyboard that are dropped wherever they stand.
pub const INLINE_NOISE: [(&'static str, &'static str); 6] = [
    ("こんにちｈ。", ""),
    ("こんにちｈ、", ""),
    ("こんにちｈ", ""),
    ("今日はｄあさ。", ""),
    ("今日はｄあさ、", ""),
    ("今日はｄあさ", ""),
];

/// The condition of [`contains_preprocess_actionable_content`]: the text asks for something
/// outside quoted literals.
pub open spec fn spec_contains_preprocess_actionable_content(text: Seq<char>) -> bool {
    spans::spec_contains_marker_outside_literal_spans(text, ACTIONABLE_MARKERS@)
}

/// Whether the text asks for something outside quoted literals.
pub fn contains_preprocess_actionable_content(text: &str) -> (r: bool)
    ensures
        r == spec_contains_preprocess_actionable_content(text@),
{
    spans::contains_marker_outside_literal_spans(text, &ACTIONABLE_MARKERS)
}

/// The condition of [`contains_preprocess_protected_content`]: the text holds a digit, a required
/// term or a constraint.
#[verifier::opaque]
pub open spec fn spec_contains_preprocess_protected_content(text: Seq<char>) -> bool {
    matching::spec_any_digit(text)
        || terms::spec_required_technical_terms(text).len() > 0
        || matching::spec_contains_any_marker(text, PROTECTED_MARKERS@)
}

/// Whether the text holds a digit, a required term or a constraint.
pub fn contains_preprocess_protected_content(text: &str) -> (r: bool)
    ensures
        r == spec_contains_preprocess_protected_content(text@),
{
    proof {
        reveal(spec_contains_preprocess_protected_content);
    }
    matching::any_digit(text)
        || terms::required_technical_terms(text).len() > 0
        || matching::contains_any_marker(text, &PROTECTED_MARKERS)
}

/// The condition of [`is_obvious_unrelated_noise_segment`]: a sentence says of itself that it
/// does not belong to the request and holds nothing that a request needs.
#[verifier::opaque]
pub open spec fn spec_is_obvious_unrelated_noise_segment(segment: Seq<char>) -> bool {
    let trimmed = text::spec_trim_any(text::spec_trim(segment), "。！？,、"@);
    if trimmed.len() == 0 {
        false
    } else {
        if spans::spec_contains_marker_outside_literal_spans(trimmed, EXPLICIT_NOISE_MARKERS@)
            && !(spec_contains_preprocess_protected_content(trimmed)
                && spec_contains_preprocess_actionable_content(trimmed)) {
            true
        } else {
            if spans::spec_contains_marker_outside_literal_spans(trimmed, ["変な入力"]@)
                && spans::spec_contains_marker_outside_literal_spans(trimmed, ["無視"]@)
                && !spec_contains_preprocess_actionable_content(trimmed) {
                true
            } else {
                spans::spec_contains_marker_outside_literal_spans(trimmed, NOISE_MARKERS@)
                    && !spec_contains_preprocess_protected_content(trimmed)
                    && !spec_contains_preprocess_actionable_content(trimmed)
            }
        }
    }
}

/// Whether a sentence says of itself that it does not belong to the request and holds nothing
/// that a request needs.
pub fn is_obvious_unrelated_noise_segment(segment: &str) -> (r: bool)
    ensures
        r == spec_is_obvious_unrelated_noise_segment(segment@),
{
    proof {
        reveal(spec_is_obvious_unrelated_noise_segment);
    }
    let trimmed: String = text::trim_any(&text::trim(segment), "。！？,、");
    if text::char_count(&trimmed) == 0 {
        return false;
    }
    if spans::contains_marker_outside_literal_spans(&trimmed, &EXPLICIT_NOISE_MARKERS)
        && !(contains_preprocess_protected_content(&trimmed)
            && contains_preprocess_actionable_content(&trimmed)) {
        return true;
    }
    if spans::contains_marker_outside_literal_spans(&trimmed, &["変な入力"])
        && spans::contains_marker_outside_literal_spans(&trimmed, &["無視"])
        && !contains_preprocess_actionable_content(&trimmed) {
        return true;
    }
    spans::contains_marker_outside_literal_spans(&trimmed, &NOISE_MARKERS)
        && !contains_preprocess_protected_content(&trimmed)
        && !contains_preprocess_actionable_content(&trimmed)
}

/// The sentences of a text that are complete, each with the mark that ends it, and what follows
/// the last of them.
pub open spec fn sentences_read(text: Seq<char>) -> (Seq<Seq<char>>, Seq<char>)
    decreases text.len(),
{
    if text.len() == 0 {
        (Seq::empty(), Seq::empty())
    } else {
        let (complete, rest) = sentences_read(text.drop_last());
        if "。！？\n"@.contains(text.last()) {
            (complete.push(rest.push(text.last())), Seq::empty())
        } else {
            (complete, rest.push(text.last()))
        }
    }
}

/// The sentences of a text, each with the mark that ends it.
pub open spec fn sentences(text: Seq<char>) -> Seq<Seq<char>> {
    let (complete, rest) = sentences_read(text);
    if rest.len() == 0 {
        complete
    } else {
        complete.push(rest)
    }
}

/// The sentences that are not noise, one after the other.
pub open spec fn meaningful(list: Seq<Seq<char>>) -> Seq<char> {
    list.filter(|sentence: Seq<char>| !spec_is_obvious_unrelated_noise_segment(sentence)).flatten()
}

/// Value of [`without_noise_segments`].
pub open spec fn spec_without_noise_segments(input: Seq<char>) -> Seq<char> {
    meaningful(sentences(input))
}

/// One more sentence adds itself, unless it is noise.
proof fn meaningful_sentence_is_added(list: Seq<Seq<char>>, sentence: Seq<char>)
    ensures
        meaningful(list.push(sentence)) == (if spec_is_obvious_unrelated_noise_segment(sentence) {
            meaningful(list)
        } else {
            meaningful(list) + sentence
        }),
{
    let keeps = |s: Seq<char>| !spec_is_obvious_unrelated_noise_segment(s);
    reveal(Seq::filter);
    assert(list.push(sentence).drop_last() =~= list);
    list.filter(keeps).lemma_flatten_push(sentence);
}

/// Appends the sentence, unless it is noise.
pub fn push_non_noise_segment(output: &mut String, segment: &str)
    ensures
        final(output)@ == (if spec_is_obvious_unrelated_noise_segment(segment@) {
            old(output)@
        } else {
            old(output)@ + segment@
        }),
{
    if !is_obvious_unrelated_noise_segment(segment) {
        output.append(segment);
    }
}

/// The sentences of the input that are not noise.
pub fn without_noise_segments(input: &str) -> (r: String)
    ensures
        r@ == spec_without_noise_segments(input@),
{
    let mut cleaned: String = String::new();
    let mut segment: String = String::new();
    let characters: Vec<char> = text::to_chars(input);
    let ghost mut complete: Seq<Seq<char>> = Seq::empty();
    proof {
        reveal(Seq::filter);
    }
    assert(meaningful(complete) =~= cleaned@);
    let mut i: usize = 0;
    while i < characters.len()
        invariant
            i <= characters@.len(),
            (complete, segment@) == sentences_read(characters@.take(i as int)),
            cleaned@ == meaningful(complete),
        decreases characters@.len() - i,
    {
        assert(characters@.take(i + 1).drop_last() =~= characters@.take(i as int));
        let c: char = characters[i];
        i = i + 1;
        segment.push(c);
        if text::char_in(c, "。！？\n") {
            push_non_noise_segment(&mut cleaned, &segment);
            proof {
                meaningful_sentence_is_added(complete, segment@);
                complete = complete.push(segment@);
            }
            segment = String::new();
        }
    }
    assert(characters@.take(characters@.len() as int) =~= characters@);
    if text::char_count(&segment) > 0 {
        push_non_noise_segment(&mut cleaned, &segment);
        proof {
            meaningful_sentence_is_added(complete, segment@);
        }
    }
    cleaned
}

proof fn sentences_read_make_the_text(text: Seq<char>)
    ensures
        sentences_read(text).0.flatten() + sentences_read(text).1 == text,
    decreases text.len(),
{
    if text.len() > 0 {
        let (complete, rest) = sentences_read(text.drop_last());
        sentences_read_make_the_text(text.drop_last());
        complete.lemma_flatten_push(rest.push(text.last()));
        assert(text.drop_last().push(text.last()) =~= text);
    }
}

/// The sentences of a text, one after the other, are the text: reading them loses nothing.
pub proof fn sentences_make_the_text(text: Seq<char>)
    ensures
        sentences(text).flatten() == text,
{
    sentences_read_make_the_text(text);
    let (complete, rest) = sentences_read(text);
    complete.lemma_flatten_push(rest);
}

/// A sentence that asks for something and holds what a request needs is never taken for noise.
pub proof fn needed_sentences_are_not_noise(segment: Seq<char>)
    requires
        ({
            let trimmed = text::spec_trim_any(text::spec_trim(segment), "。！？,、"@);
            spec_contains_preprocess_protected_content(trimmed)
                && spec_contains_preprocess_actionable_content(trimmed)
        }),
    ensures
        !spec_is_obvious_unrelated_noise_segment(segment),
{
    reveal(spec_is_obvious_unrelated_noise_segment);
}

/// A text without noise keeps every character.
pub proof fn text_without_noise_is_kept(text: Seq<char>)
    requires
        forall|i: int|
            0 <= i < sentences(text).len() ==> !spec_is_obvious_unrelated_noise_segment(
                #[trigger] sentences(text)[i],
            ),
    ensures
        spec_without_noise_segments(text) == text,
{
    all_are_kept(sentences(text));
    sentences_make_the_text(text);
}

proof fn all_are_kept(list: Seq<Seq<char>>)
    requires
        forall|i: int|
            0 <= i < list.len() ==> !spec_is_obvious_unrelated_noise_segment(#[trigger] list[i]),
    ensures
        list.filter(|sentence: Seq<char>| !spec_is_obvious_unrelated_noise_segment(sentence))
            == list,
    decreases list.len(),
{
    reveal(Seq::filter);
    if list.len() > 0 {
        all_are_kept(list.drop_last());
        assert(list.drop_last().push(list.last()) =~= list);
    }
}

/// Value of [`without_inline_noise`].
pub open spec fn spec_without_inline_noise(span: Seq<char>) -> Seq<char> {
    text::spec_replace_all(span, INLINE_NOISE@)
}

/// The text without slips of the keyboard.
pub fn without_inline_noise(span: &str) -> (r: String)
    ensures
        r@ == spec_without_inline_noise(span@),
{
    text::replace_all(span, &INLINE_NOISE)
}

/// Value of [`remove_inline_noise_tokens`].
#[verifier::opaque]
pub open spec fn spec_remove_inline_noise_tokens(input: Seq<char>) -> Seq<char> {
    spans::spec_map_unquoted_spans(input, |s: Seq<char>| spec_without_inline_noise(s))
}

/// The text without slips of the keyboard outside quoted literals.
pub fn remove_inline_noise_tokens(input: &str) -> (r: String)
    ensures
        r@ == spec_remove_inline_noise_tokens(input@),
{
    proof {
        reveal(spec_remove_inline_noise_tokens);
    }
    spans::map_unquoted_spans(
        input,
        without_inline_noise,
        Ghost(|s: Seq<char>| spec_without_inline_noise(s)),
    )
}

/// Value of [`remove_obvious_input_noise`].
#[verifier::opaque]
pub open spec fn spec_remove_obvious_input_noise(input: Seq<char>) -> Seq<char> {
    spacing::spec_normalize_input_whitespace(
        spec_remove_inline_noise_tokens(spec_without_noise_segments(input)),
    )
}

/// The request without sentences that do not belong to it and without slips of the keyboard.
pub fn remove_obvious_input_noise(input: &str) -> (r: String)
    ensures
        r@ == spec_remove_obvious_input_noise(input@),
{
    proof {
        reveal(spec_remove_obvious_input_noise);
    }
    spacing::normalize_input_whitespace(&remove_inline_noise_tokens(&without_noise_segments(input)))
}

/// A remark by which a sentence declares itself void.
pub open spec fn is_word_of_void(word: Seq<char>) -> bool {
    ||| word == "キーボードに触っただけ"@
    ||| word == "変換中の文字は無視"@
    ||| word == "依頼とは関係ありません"@
    ||| word == "ここも無視"@
    ||| word == "これは意味ない"@
    ||| word == "意味ないです"@
    ||| word == "貼り付けの残り"@
    ||| word == "意味はありません"@
    ||| word == "意味ありません"@
    ||| word == "意味ないので"@
    ||| word == "意味なし文字"@
    ||| word == "関係ない文字"@
    ||| word == "タッチミスと関係ない話"@
    ||| word == "依頼には含めない"@
    ||| word == "本題だけ圧縮できるか"@
}

/// The text declares itself void, in upper or lower case.
pub open spec fn says_it_is_void(text: Seq<char>) -> bool {
    exists|word: Seq<char>| #[trigger]
        is_word_of_void(word) && parts::holds_in_some_case(text, word)
}

/// The words are those that are looked for.
proof fn says_it_is_void_by_markers(text: Seq<char>)
    ensures
        matching::spec_contains_any_marker(text, EXPLICIT_NOISE_MARKERS@) <==> says_it_is_void(text),
{
    matching::markers_are_found_in_some_case(text, EXPLICIT_NOISE_MARKERS@);
    if matching::spec_contains_any_marker(text, EXPLICIT_NOISE_MARKERS@) {
        let i = choose|i: int|
            0 <= i < EXPLICIT_NOISE_MARKERS@.len() && parts::holds_in_some_case(
                text,
                #[trigger] EXPLICIT_NOISE_MARKERS@[i]@,
            );
        assert(is_word_of_void(EXPLICIT_NOISE_MARKERS@[i]@));
    }
    if says_it_is_void(text) {
        let word = choose|word: Seq<char>| #[trigger]
            is_word_of_void(word) && parts::holds_in_some_case(text, word);
        assert(exists|i: int|
            0 <= i < EXPLICIT_NOISE_MARKERS@.len() && #[trigger] EXPLICIT_NOISE_MARKERS@[i]@ == word) by {
            assert(EXPLICIT_NOISE_MARKERS@[0]@ == "キーボードに触っただけ"@);
            assert(EXPLICIT_NOISE_MARKERS@[1]@ == "変換中の文字は無視"@);
            assert(EXPLICIT_NOISE_MARKERS@[2]@ == "依頼とは関係ありません"@);
            assert(EXPLICIT_NOISE_MARKERS@[3]@ == "ここも無視"@);
            assert(EXPLICIT_NOISE_MARKERS@[4]@ == "これは意味ない"@);
            assert(EXPLICIT_NOISE_MARKERS@[5]@ == "意味ないです"@);
            assert(EXPLICIT_NOISE_MARKERS@[6]@ == "貼り付けの残り"@);
            assert(EXPLICIT_NOISE_MARKERS@[7]@ == "意味はありません"@);
            assert(EXPLICIT_NOISE_MARKERS@[8]@ == "意味ありません"@);
            assert(EXPLICIT_NOISE_MARKERS@[9]@ == "意味ないので"@);
            assert(EXPLICIT_NOISE_MARKERS@[10]@ == "意味なし文字"@);
            assert(EXPLICIT_NOISE_MARKERS@[11]@ == "関係ない文字"@);
            assert(EXPLICIT_NOISE_MARKERS@[12]@ == "タッチミスと関係ない話"@);
            assert(EXPLICIT_NOISE_MARKERS@[13]@ == "依頼には含めない"@);
            assert(EXPLICIT_NOISE_MARKERS@[14]@ == "本題だけ圧縮できるか"@);
        }
    }
}

/// A sign of a sentence without meaning for the request.
pub open spec fn is_word_of_noise(word: Seq<char>) -> bool {
    ||| word == "こんにちｈ"@
    ||| word == "今日はｄあさ"@
    ||| word == "これは関係ない"@
    ||| word == "依頼内容とは関係ない"@
    ||| word == "本題ではない"@
    ||| word == "変な文字"@
    ||| word == "変な入力"@
    ||| word == "打ち間違い"@
    ||| word == "入力ミス"@
    ||| word == "無視して大丈夫"@
    ||| word == "残さなくて大丈夫"@
    ||| word == "圧縮後にはいらない"@
    ||| word == "意味なし文字"@
    ||| word == "関係ない文字"@
}

/// The text bears a sign of a sentence without meaning.
pub open spec fn says_noise(text: Seq<char>) -> bool {
    exists|word: Seq<char>| #[trigger]
        is_word_of_noise(word) && parts::holds_in_some_case(text, word)
}

/// The words are those that are looked for.
proof fn says_noise_by_markers(text: Seq<char>)
    ensures
        matching::spec_contains_any_marker(text, NOISE_MARKERS@) <==> says_noise(text),
{
    matching::markers_are_found_in_some_case(text, NOISE_MARKERS@);
    if matching::spec_contains_any_marker(text, NOISE_MARKERS@) {
        let i = choose|i: int|
            0 <= i < NOISE_MARKERS@.len() && parts::holds_in_some_case(
                text,
                #[trigger] NOISE_MARKERS@[i]@,
            );
        assert(is_word_of_noise(NOISE_MARKERS@[i]@));
    }
    if says_noise(text) {
        let word = choose|word: Seq<char>| #[trigger]
            is_word_of_noise(word) && parts::holds_in_some_case(text, word);
        assert(exists|i: int|
            0 <= i < NOISE_MARKERS@.len() && #[trigger] NOISE_MARKERS@[i]@ == word) by {
            assert(NOISE_MARKERS@[0]@ == "こんにちｈ"@);
            assert(NOISE_MARKERS@[1]@ == "今日はｄあさ"@);
            assert(NOISE_MARKERS@[2]@ == "これは関係ない"@);
            assert(NOISE_MARKERS@[3]@ == "依頼内容とは関係ない"@);
            assert(NOISE_MARKERS@[4]@ == "本題ではない"@);
            assert(NOISE_MARKERS@[5]@ == "変な文字"@);
            assert(NOISE_MARKERS@[6]@ == "変な入力"@);
            assert(NOISE_MARKERS@[7]@ == "打ち間違い"@);
            assert(NOISE_MARKERS@[8]@ == "入力ミス"@);
            assert(NOISE_MARKERS@[9]@ == "無視して大丈夫"@);
            assert(NOISE_MARKERS@[10]@ == "残さなくて大丈夫"@);
            assert(NOISE_MARKERS@[11]@ == "圧縮後にはいらない"@);
            assert(NOISE_MARKERS@[12]@ == "意味なし文字"@);
            assert(NOISE_MARKERS@[13]@ == "関係ない文字"@);
        }
    }
}

/// A word that asks for something.
pub open spec fn is_word_of_action(word: Seq<char>) -> bool {
    ||| word == "修正"@
    ||| word == "追加"@
    ||| word == "実装"@
    ||| word == "更新"@
    ||| word == "作成"@
    ||| word == "調査"@
    ||| word == "保持"@
    ||| word == "維持"@
    ||| word == "変更しない"@
    ||| word == "変更せず"@
    ||| word == "残す"@
    ||| word == "確認"@
    ||| word == "テスト"@
    ||| word == "返して"@
    ||| word == "使って"@
    ||| word == "使用して"@
}

/// The text asks for something.
pub open spec fn asks_for_something(text: Seq<char>) -> bool {
    exists|word: Seq<char>| #[trigger]
        is_word_of_action(word) && parts::holds_in_some_case(text, word)
}

/// The words are those that are looked for.
proof fn asks_for_something_by_markers(text: Seq<char>)
    ensures
        matching::spec_contains_any_marker(text, ACTIONABLE_MARKERS@) <==> asks_for_something(text),
{
    matching::markers_are_found_in_some_case(text, ACTIONABLE_MARKERS@);
    if matching::spec_contains_any_marker(text, ACTIONABLE_MARKERS@) {
        let i = choose|i: int|
            0 <= i < ACTIONABLE_MARKERS@.len() && parts::holds_in_some_case(
                text,
                #[trigger] ACTIONABLE_MARKERS@[i]@,
            );
        assert(is_word_of_action(ACTIONABLE_MARKERS@[i]@));
    }
    if asks_for_something(text) {
        let word = choose|word: Seq<char>| #[trigger]
            is_word_of_action(word) && parts::holds_in_some_case(text, word);
        assert(exists|i: int|
            0 <= i < ACTIONABLE_MARKERS@.len() && #[trigger] ACTIONABLE_MARKERS@[i]@ == word) by {
            assert(ACTIONABLE_MARKERS@[0]@ == "修正"@);
            assert(ACTIONABLE_MARKERS@[1]@ == "追加"@);
            assert(ACTIONABLE_MARKERS@[2]@ == "実装"@);
            assert(ACTIONABLE_MARKERS@[3]@ == "更新"@);
            assert(ACTIONABLE_MARKERS@[4]@ == "作成"@);
            assert(ACTIONABLE_MARKERS@[5]@ == "調査"@);
            assert(ACTIONABLE_MARKERS@[6]@ == "保持"@);
            assert(ACTIONABLE_MARKERS@[7]@ == "維持"@);
            assert(ACTIONABLE_MARKERS@[8]@ == "変更しない"@);
            assert(ACTIONABLE_MARKERS@[9]@ == "変更せず"@);
            assert(ACTIONABLE_MARKERS@[10]@ == "残す"@);
            assert(ACTIONABLE_MARKERS@[11]@ == "確認"@);
            assert(ACTIONABLE_MARKERS@[12]@ == "テスト"@);
            assert(ACTIONABLE_MARKERS@[13]@ == "返して"@);
            assert(ACTIONABLE_MARKERS@[14]@ == "使って"@);
            assert(ACTIONABLE_MARKERS@[15]@ == "使用して"@);
        }
    }
}

/// A word of a constraint, which is never noise.
pub open spec fn is_word_to_protect(word: Seq<char>) -> bool {
    ||| word == "変更しない"@
    ||| word == "変更せず"@
    ||| word == "変えない"@
    ||| word == "維持"@
    ||| word == "保持"@
    ||| word == "残す"@
    ||| word == "消さない"@
    ||| word == "壊さない"@
    ||| word == "追加しない"@
    ||| word == "表示しない"@
    ||| word == "保存しない"@
    ||| word == "読み込まず"@
    ||| word == "だけ"@
    ||| word == "のみ"@
    ||| word == "ではなく"@
    ||| word == "じゃなく"@
    ||| word == "禁止"@
    ||| word == "避け"@
}

/// The text states a constraint.
pub open spec fn states_a_constraint(text: Seq<char>) -> bool {
    exists|word: Seq<char>| #[trigger]
        is_word_to_protect(word) && parts::holds_in_some_case(text, word)
}

/// The words are those that are looked for.
proof fn states_a_constraint_by_markers(text: Seq<char>)
    ensures
        matching::spec_contains_any_marker(text, PROTECTED_MARKERS@) <==> states_a_constraint(text),
{
    matching::markers_are_found_in_some_case(text, PROTECTED_MARKERS@);
    if matching::spec_contains_any_marker(text, PROTECTED_MARKERS@) {
        let i = choose|i: int|
            0 <= i < PROTECTED_MARKERS@.len() && parts::holds_in_some_case(
                text,
                #[trigger] PROTECTED_MARKERS@[i]@,
            );
        assert(is_word_to_protect(PROTECTED_MARKERS@[i]@));
    }
    if states_a_constraint(text) {
        let word = choose|word: Seq<char>| #[trigger]
            is_word_to_protect(word) && parts::holds_in_some_case(text, word);
        assert(exists|i: int|
            0 <= i < PROTECTED_MARKERS@.len() && #[trigger] PROTECTED_MARKERS@[i]@ == word) by {
            assert(PROTECTED_MARKERS@[0]@ == "変更しない"@);
            assert(PROTECTED_MARKERS@[1]@ == "変更せず"@);
            assert(PROTECTED_MARKERS@[2]@ == "変えない"@);
            assert(PROTECTED_MARKERS@[3]@ == "維持"@);
            assert(PROTECTED_MARKERS@[4]@ == "保持"@);
            assert(PROTECTED_MARKERS@[5]@ == "残す"@);
            assert(PROTECTED_MARKERS@[6]@ == "消さない"@);
            assert(PROTECTED_MARKERS@[7]@ == "壊さない"@);
            assert(PROTECTED_MARKERS@[8]@ == "追加しない"@);
            assert(PROTECTED_MARKERS@[9]@ == "表示しない"@);
            assert(PROTECTED_MARKERS@[10]@ == "保存しない"@);
            assert(PROTECTED_MARKERS@[11]@ == "読み込まず"@);
            assert(PROTECTED_MARKERS@[12]@ == "だけ"@);
            assert(PROTECTED_MARKERS@[13]@ == "のみ"@);
            assert(PROTECTED_MARKERS@[14]@ == "ではなく"@);
            assert(PROTECTED_MARKERS@[15]@ == "じゃなく"@);
            assert(PROTECTED_MARKERS@[16]@ == "禁止"@);
            assert(PROTECTED_MARKERS@[17]@ == "避け"@);
        }
    }
}

/// A text is worth keeping where it holds a digit, requires a technical term or states a
/// constraint.
pub open spec fn is_worth_keeping(text: Seq<char>) -> bool {
    ||| exists|i: int| 0 <= i < text.len() && '0' <= #[trigger] text[i] <= '9'
    ||| terms::spec_required_technical_terms(text).len() > 0
    ||| states_a_constraint(text)
}

/// What is worth keeping is looked for.
proof fn what_is_worth_keeping_is_found(text: Seq<char>)
    ensures
        spec_contains_preprocess_protected_content(text) <==> is_worth_keeping(text),
{
    reveal(spec_contains_preprocess_protected_content);
    states_a_constraint_by_markers(text);
}

/// The word alone is the only one that is looked for.
proof fn single_words_are_found(text: Seq<char>, word: &str)
    ensures
        matching::spec_contains_any_marker(text, [word]@) <==> parts::holds_in_some_case(
            text,
            word@,
        ),
{
    matching::markers_are_found_in_some_case(text, [word]@);
    assert([word]@[0]@ == word@);
}

/// A sentence without quotes is noise where, without the marks around it, it declares itself void
/// and does not both ask for something and hold what is worth keeping; where it speaks of a strange
/// input to be ignored and asks for nothing; or where it bears a sign of noise, asks for nothing
/// and holds nothing that is worth keeping. No other is noise.
pub proof fn noise_says_so_and_is_not_needed(segment: Seq<char>)
    requires
        spans::is_plain(text::spec_trim_any(text::spec_trim(segment), "。！？,、"@)),
    ensures
        ({
            let said = text::spec_trim_any(text::spec_trim(segment), "。！？,、"@);
            spec_is_obvious_unrelated_noise_segment(segment) <==> said.len() > 0 && {
                ||| says_it_is_void(said) && !(is_worth_keeping(said) && asks_for_something(said))
                ||| parts::holds_in_some_case(said, "変な入力"@) && parts::holds_in_some_case(
                    said,
                    "無視"@,
                ) && !asks_for_something(said)
                ||| says_noise(said) && !is_worth_keeping(said) && !asks_for_something(said)
            }
        }),
{
    reveal(spec_is_obvious_unrelated_noise_segment);
    let said = text::spec_trim_any(text::spec_trim(segment), "。！？,、"@);
    spans::markers_of_plain_texts_count(said, EXPLICIT_NOISE_MARKERS@);
    spans::markers_of_plain_texts_count(said, NOISE_MARKERS@);
    spans::markers_of_plain_texts_count(said, ACTIONABLE_MARKERS@);
    spans::markers_of_plain_texts_count(said, ["変な入力"]@);
    spans::markers_of_plain_texts_count(said, ["無視"]@);
    says_it_is_void_by_markers(said);
    says_noise_by_markers(said);
    asks_for_something_by_markers(said);
    what_is_worth_keeping_is_found(said);
    single_words_are_found(said, "変な入力");
    single_words_are_found(said, "無視");
}

/// A text is one sentence: a mark that ends a sentence ends it, and none stands before.
pub open spec fn is_one_sentence(text: Seq<char>) -> bool {
    &&& text.len() > 0
    &&& text.last() == '。' || text.last() == '！' || text.last() == '？' || text.last() == '\n'
    &&& forall|i: int|
        0 <= i < text.len() - 1 ==> (#[trigger] text[i]) != '。' && text[i] != '！' && text[i] != '？'
            && text[i] != '\n'
}

/// A text without a mark that ends a sentence is being read.
proof fn sentence_is_being_read(text: Seq<char>)
    requires
        forall|i: int|
            0 <= i < text.len() ==> (#[trigger] text[i]) != '。' && text[i] != '！' && text[i] != '？'
                && text[i] != '\n',
    ensures
        sentences_read(text) == (Seq::<Seq<char>>::empty(), text),
    decreases text.len(),
{
    reveal_strlit("。！？\n");
    if text.len() == 0 {
        assert(text =~= Seq::empty());
    } else {
        let before = text.drop_last();
        assert forall|i: int| 0 <= i < before.len() implies (#[trigger] before[i]) != '。'
            && before[i] != '！' && before[i] != '？' && before[i] != '\n' by {
            assert(before[i] == text[i]);
        }
        sentence_is_being_read(before);
        assert(text.last() == text[text.len() - 1]);
        assert("。！？\n"@ =~= seq!['。', '！', '？', '\n']);
        assert(!"。！？\n"@.contains(text.last()));
        assert(before.push(text.last()) =~= text);
    }
}

/// The first sentence of a text is read before the others.
proof fn first_sentence_is_read(first: Seq<char>, rest: Seq<char>)
    requires
        is_one_sentence(first),
    ensures
        sentences_read(first + rest) == (
            seq![first] + sentences_read(rest).0,
            sentences_read(rest).1,
        ),
    decreases rest.len(),
{
    reveal_strlit("。！？\n");
    let whole = first + rest;
    if rest.len() == 0 {
        assert(whole =~= first);
        let before = first.drop_last();
        assert forall|i: int| 0 <= i < before.len() implies (#[trigger] before[i]) != '。'
            && before[i] != '！' && before[i] != '？' && before[i] != '\n' by {
            assert(before[i] == first[i]);
        }
        sentence_is_being_read(before);
        assert("。！？\n"@ =~= seq!['。', '！', '？', '\n']);
        assert("。！？\n"@[0] == '。' && "。！？\n"@[1] == '！' && "。！？\n"@[2] == '？'
            && "。！？\n"@[3] == '\n');
        assert("。！？\n"@.contains(first.last()));
        assert(before.push(first.last()) =~= first);
        assert(sentences_read(first).0 =~= seq![first] + sentences_read(rest).0);
    } else {
        let before = rest.drop_last();
        first_sentence_is_read(first, before);
        assert(whole.drop_last() =~= first + before);
        assert(whole.last() == rest.last());
        assert(sentences_read(whole).0 =~= seq![first] + sentences_read(rest).0);
    }
}

/// A sentence that is noise is dropped, and any other is kept. What follows is treated as if it
/// stood alone.
pub proof fn noise_is_dropped_sentence_by_sentence(first: Seq<char>, rest: Seq<char>)
    requires
        is_one_sentence(first),
    ensures
        spec_is_obvious_unrelated_noise_segment(first) ==> spec_without_noise_segments(first + rest)
            == spec_without_noise_segments(rest),
        !spec_is_obvious_unrelated_noise_segment(first) ==> spec_without_noise_segments(
            first + rest,
        ) == first + spec_without_noise_segments(rest),
{
    first_sentence_is_read(first, rest);
    let others = sentences(rest);
    let stays = |sentence: Seq<char>| !spec_is_obvious_unrelated_noise_segment(sentence);
    assert(sentences(first + rest) =~= seq![first] + others);
    Seq::filter_distributes_over_add(seq![first], others, stays);
    reveal(Seq::filter);
    assert(seq![first].drop_last() =~= Seq::empty());
    assert(Seq::<Seq<char>>::empty().filter(stays) =~= Seq::empty());
    if spec_is_obvious_unrelated_noise_segment(first) {
        assert(seq![first].filter(stays) =~= Seq::empty());
        assert(sentences(first + rest).filter(stays) =~= others.filter(stays));
    } else {
        assert(seq![first].filter(stays) =~= seq![first]);
        let kept = seq![first] + others.filter(stays);
        assert(kept.first() == first);
        assert(kept.drop_first() =~= others.filter(stays));
    }
}

} // verus!
