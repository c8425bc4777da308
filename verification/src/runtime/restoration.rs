//! What a model has dropped of a request: finding it and putting it back.
use vstd::prelude::*;
use crate::runtime::clauses;
use crate::runtime::constraints;
use crate::contents;
use crate::parts;
use crate::runtime::corrections;
use crate::runtime::matching;
use crate::runtime::preprocess;
use crate::runtime::terms;
use crate::text;
use crate::runtime::typos;
use crate::runtime::clauses::{SharedPredicate, SharedPredicateList};

verus! {

broadcast use crate::contents::group_contents;

/// Labels that models put before their output.
pub const OUTPUT_LABELS: [&'static str; 4] = ["圧縮結果", "要約", "短縮文", "出力"];

/// Marks between a label and what it labels.
pub const LABEL_SEPARATORS: [&'static str; 2] = [":", "："];

/// Terms that models tend to repeat as a label.
pub const LABEL_TERMS: [&'static str; 5] = [
    "TypeScript",
    "PowerShell",
    "DataLoader",
    "LM Studio",
    "clipboard",
];

/// Required terms, misspellings of them by models, and what is meant.
pub const MODEL_TYPOS: [(&'static str, &'static str, &'static str); 7] = [
    ("TypeScript", "TypeScrip", "TypeScript"),
    ("TypeScript", "TypeScritp", "TypeScript"),
    ("PowerShell", "PawerShell", "PowerShell"),
    ("DataLoader", "DataLoder", "DataLoader"),
    ("LM Studio", "LMStduio", "LM Studio"),
    ("LM Studio", "LMS Studio", "LM Studio"),
    ("clipboard", "clpboard", "clipboard"),
];

/// Words that introduce the target of a request.
pub const TARGET_PREFIXES: [&'static str; 3] = ["対象は", "対象:", "対象："];

/// Words by which a term is the means of something.
pub const MEANS_MARKERS: [&'static str; 4] = ["で", "を使って", "を使用して", "を用いて"];

/// Doubled prohibitions of change with what is meant.
pub const DOUBLED_PROHIBITIONS: [(&'static str, &'static str); 4] = [
    ("変更禁止変更せず", "変更しない"),
    ("変更禁止変更しない", "変更しない"),
    ("変更禁止、変更せず", "変更しない"),
    ("変更禁止、変更しない", "変更しない"),
];

/// Phrases of models with the forms that are verified.
pub const VERIFIED_FORMS: [(&'static str, &'static str); 14] = [
    ("バー内に収まり", "はみ出さない"),
    ("バー内に収め", "はみ出さない"),
    ("データ混在禁止", "データ混ざらない"),
    ("検索じょうたい", "検索状態"),
    ("検索状態は残す", "検索状態維持"),
    ("検索状態は残", "検索状態維持"),
    ("触らず", "触らない"),
    ("やめてください", "やめる"),
    ("やめて", "やめる"),
    ("LMS Studio", "LM Studio"),
    ("空もじ列", "空文字列"),
    ("空もじ", "空文字"),
    ("テスと", "テスト"),
    ("UTF,BOM", "UTF-8 BOM"),
];

/// Forms of a refusal to read with the one that is verified.
pub const READ_REFUSALS: [(&'static str, &'static str); 4] = [
    ("読み込み拒否", "読み込まず"),
    ("読み込みを拒否", "読み込まず"),
    ("読込拒否", "読み込まず"),
    ("ファイル拒否", "ファイル読み込まず"),
];

/// Forms of an exclusion of personal data with the one that is verified.
pub const PRIVACY_EXCLUSIONS: [(&'static str, &'static str); 3] = [
    ("個人情報エラー本文除外", "エラー本文に個人情報を含めない"),
    ("個人情報をエラー本文除外", "エラー本文に個人情報を含めない"),
    ("個人情報除外", "個人情報を含めない"),
];

/// Forms of a request to keep something.
pub const RETENTION_FORMS: [(&'static str, &'static str); 3] = [
    ("残してください", "残す"),
    ("残してほしい", "残す"),
    ("残して", "残す"),
];

/// Forms of a request that the window bar stay in place.
pub const FIXED_BAR_FORMS: [(&'static str, &'static str); 2] = [
    ("スクロールしても固定表示", "スクロール時もウィンドウバー固定"),
    ("スクロール時も固定表示", "スクロール時もウィンドウバー固定"),
];

/// Short forms of a request to keep something.
pub const RETENTION_SHORT_FORMS: [(&'static str, &'static str); 4] = [
    ("任意ローカルモデル検証用に残すこと", "任意ローカルモデル検証用に残す"),
    ("任意モデル用に残すこと", "任意モデル用に残す"),
    ("残すこと", "残す"),
    ("してください", ""),
];

/// Short forms of a request for tests.
pub const VERIFICATION_SHORT_FORMS: [(&'static str, &'static str); 17] = [
    ("テストでは", ""),
    ("テストで", ""),
    ("テストも", "テスト"),
    ("正常系と", "正常系/"),
    ("正常系、", "正常系/"),
    (" のケース", "ケース"),
    ("のケース", "ケース"),
    ("のケースを確認できるようにしてください", "テスト確認"),
    ("のケースを確認できるように", "テスト確認"),
    ("ケースを確認できるようにしてください", "ケース確認"),
    ("ケースを確認できるように", "ケース確認"),
    ("を確認できるようにしてください", "確認"),
    ("を確認できるように", "確認"),
    ("確認したいです", "確認"),
    ("追加してほしいですが", "追加"),
    ("を追加し、既存テストの書き方に合わせてください", "、既存形式準拠"),
    ("テストは", "テスト:"),
];

/// Vague phrases for how a file is kept from damage.
pub const VAGUE_MECHANISMS: [&'static str; 4] = [
    "設定ファイル保全方式確立",
    "設定ファイル保全方式",
    "ファイル保全方式確立",
    "保全方式確立",
];

/// Rules of restoration: where the input holds one of the first alternatives and the output none
/// of the second, the constraint is put back; the third is the form of last resort.
pub const RESTORATION_RULES: [(&'static str, &'static str, &'static str); 35] = [
    ("避け|禁止|avoid|must not|do not|don't|never", "避け|回避|禁止|しない|出さない|avoid|must not|do not|don't|never", "禁止"),
    ("しない|不要|ない|without", "しない|せず|禁止|避け|回避|抑制|最小限|不要|ない|without|do not|must not", "しない"),
    ("ではなく|でなく", "ではなく|でなく", "ではなく"),
    ("はみ出さない", "はみ出さない|収ま|収め|バー内", "はみ出さない"),
    ("行わない", "行わない|しない", "行わない"),
    ("止めず|止めない", "止めず|止めない|継続|続行", "起動継続"),
    ("読み込まず", "読み込まず|読まない|読み込み禁止", "読み込まず"),
    ("下げない", "下げない", "下げない"),
    ("廃止", "廃止", "廃止"),
    ("変えず", "変えず|変更しない", "変えず"),
    ("入れない", "入れない|含めない|しない", "入れない"),
    ("影響させない", "影響させない", "影響させない"),
    ("削除しない", "削除しない", "削除しない"),
    ("変更不可", "変更不可|禁止", "変更不可"),
    ("実通信しない", "実通信しない", "実通信しない"),
    ("送信しない", "送信しない", "送信しない"),
    ("二重作成しない", "二重作成しない", "二重作成しない"),
    ("再接続しない", "再接続しない", "再接続しない"),
    ("再試行しない", "再試行しない", "再試行しない"),
    ("超えたら", "超えたら", "超えたら"),
    ("再推論せず", "再推論せず", "再推論せず"),
    ("戻さない", "戻さない", "戻さない"),
    ("参照しない", "参照しない", "参照しない"),
    ("混ぜない|混ざらない", "混ぜない|混ざらない|混在禁止|共有しない", "混在禁止"),
    ("取りすぎない", "取りすぎない", "取りすぎない"),
    ("押さなくても", "押さなくても", "押さなくても"),
    ("クリア", "クリア", "クリア"),
    ("隠れない", "隠れない", "隠れない"),
    ("出さない", "出さない|表示しない|非表示", "出さない"),
    ("見せない", "見せない", "見せない"),
    ("依存せず", "依存せず", "依存せず"),
    ("保存せず", "保存せず", "保存せず"),
    ("変更せず|変更しない|変更なし|変えない|改変せず|改変しない|改変なし", "変更せず|変更しない|変更なし|変えない|改変せず|改変しない|改変なし|維持|保持|そのまま", "変更せず"),
    ("増やさない|増えない|増加させない", "増やさない|増えない|増加させない|重複接続しない|回避|抑制|最小限", "増加回避"),
    ("のみ|だけ|only", "のみ|だけ|いずれか|only", "のみ"),
];

/// What [`stripped_label`] comes to from position `i` of the items on.
pub open spec fn spec_label_mark_stripped(
    items: Seq<&str>,
    i: int,
    trimmed: Seq<char>,
    label: Seq<char>,
) -> Option<Seq<char>>
    decreases items.len() - i,
{
    if i >= items.len() {
        None
    } else {
        let separator = items[i]@;
        match text::spec_strip_prefix(trimmed, label + separator) {
            Some(rest) => {
                if text::spec_trim_start(rest).len() > 0 {
                    Some(text::spec_trim_start(rest))
                } else {
                    spec_label_mark_stripped(items, i + 1, trimmed, label)
                }
            },
            None => spec_label_mark_stripped(items, i + 1, trimmed, label),
        }
    }
}

/// Value of [`stripped_label`].
pub open spec fn spec_stripped_label(trimmed: Seq<char>, label: Seq<char>) -> Option<Seq<char>> {
    spec_label_mark_stripped(LABEL_SEPARATORS@, 0, trimmed, label)
}

/// What follows the label and its mark, where anything does.
pub fn stripped_label(trimmed: &str, label: &str) -> (r: Option<String>)
    ensures
        contents::view_option(r) == spec_stripped_label(trimmed@, label@),
{
    let ghost goal = spec_label_mark_stripped(LABEL_SEPARATORS@, 0, trimmed@, label@);
    let mut i: usize = 0;
    while i < LABEL_SEPARATORS.len()
        invariant
            i <= LABEL_SEPARATORS@.len(),
            goal == spec_label_mark_stripped(LABEL_SEPARATORS@, i as int, trimmed@, label@),
            goal == spec_stripped_label(trimmed@, label@),
        decreases LABEL_SEPARATORS@.len() - i,
    {
        let separator: &str = LABEL_SEPARATORS[i];
        i = i + 1;
        match text::strip_prefix(trimmed, &text::concat2(label, separator)) {
            Some(rest) => {
                if text::char_count(&text::trim_start(&rest)) > 0 {
                    return Some(text::trim_start(&rest));
                }
            },
            None => {
            },
        }
    }
    None
}

/// What [`strip_leading_output_label`] comes to from position `i` of the items on.
pub open spec fn spec_label_stripped(
    items: Seq<&str>,
    i: int,
    trimmed: Seq<char>,
    output: Seq<char>,
) -> Seq<char>
    decreases items.len() - i,
{
    if i >= items.len() {
        output
    } else {
        let label = items[i]@;
        match spec_stripped_label(trimmed, label) {
            Some(rest) => rest,
            None => spec_label_stripped(items, i + 1, trimmed, output),
        }
    }
}

/// Value of [`strip_leading_output_label`].
#[verifier::opaque]
pub open spec fn spec_strip_leading_output_label(output: Seq<char>) -> Seq<char> {
    let trimmed = text::spec_trim_start(output);
    spec_label_stripped(OUTPUT_LABELS@, 0, trimmed, output)
}

/// The output without a label of the model before it.
pub fn strip_leading_output_label(output: &str) -> (r: String)
    ensures
        r@ == spec_strip_leading_output_label(output@),
{
    proof {
        reveal(spec_strip_leading_output_label);
    }
    let trimmed: String = text::trim_start(output);
    let ghost goal = spec_label_stripped(OUTPUT_LABELS@, 0, trimmed@, output@);
    let mut i: usize = 0;
    while i < OUTPUT_LABELS.len()
        invariant
            i <= OUTPUT_LABELS@.len(),
            goal == spec_label_stripped(OUTPUT_LABELS@, i as int, trimmed@, output@),
            goal == spec_strip_leading_output_label(output@),
        decreases OUTPUT_LABELS@.len() - i,
    {
        let label: &str = OUTPUT_LABELS[i];
        i = i + 1;
        match stripped_label(&trimmed, label) {
            Some(rest) => {
                return rest;
            },
            None => {
            },
        }
    }
    output.to_owned()
}

/// The texts differ, letter case aside, in the character at the position and nowhere else.
pub open spec fn differs_only_at(left: Seq<char>, right: Seq<char>, k: int) -> bool {
    &&& 0 <= k < left.len()
    &&& k < right.len()
    &&& text::spec_same_ignoring_case(left.take(k), right.take(k))
    &&& text::spec_lower_char(left[k]) != text::spec_lower_char(right[k])
    &&& text::spec_same_ignoring_case(left.skip(k + 1), right.skip(k + 1))
}

/// The shorter text is, letter case aside, the longer one without the character at the position.
pub open spec fn lacks_only_at(shorter: Seq<char>, longer: Seq<char>, k: int) -> bool {
    &&& 0 <= k <= shorter.len()
    &&& k < longer.len()
    &&& text::spec_same_ignoring_case(shorter.take(k), longer.take(k))
    &&& text::spec_same_ignoring_case(shorter.skip(k), longer.skip(k + 1))
}

/// One character replaced, added or dropped makes one identifier the other, letter case aside.
pub open spec fn spec_ascii_identifiers_are_one_edit_apart(
    left: Seq<char>,
    right: Seq<char>,
) -> bool {
    if left == right {
        false
    } else if left.len() == right.len() {
        exists|k: int| #[trigger] differs_only_at(left, right, k)
    } else if left.len() + 1 == right.len() {
        exists|k: int| #[trigger] lacks_only_at(left, right, k)
    } else if right.len() + 1 == left.len() {
        exists|k: int| #[trigger] lacks_only_at(right, left, k)
    } else {
        false
    }
}

fn differs_in_one_place(left: &str, right: &str) -> (r: bool)
    requires
        left@.len() == right@.len(),
    ensures
        r == exists|k: int| #[trigger] differs_only_at(left@, right@, k),
{
    let a: Vec<char> = text::to_chars(left);
    let b: Vec<char> = text::to_chars(right);
    let mut k: usize = 0;
    while k < a.len()
        invariant
            a@ == left@,
            b@ == right@,
            a@.len() == b@.len(),
            k <= a@.len(),
            forall|j: int| 0 <= j < k ==> !#[trigger] differs_only_at(left@, right@, j),
        decreases a@.len() - k,
    {
        let same_before: bool = text::same_ignoring_case(
            &text::from_range(&a, 0, k),
            &text::from_range(&b, 0, k),
        );
        let same_after: bool = text::same_ignoring_case(
            &text::from_range(&a, k + 1, a.len()),
            &text::from_range(&b, k + 1, b.len()),
        );
        if same_before && text::lower_char(a[k]) != text::lower_char(b[k]) && same_after {
            assert(differs_only_at(left@, right@, k as int));
            return true;
        }
        k = k + 1;
    }
    false
}

fn lacks_one_character(shorter: &str, longer: &str) -> (r: bool)
    requires
        shorter@.len() + 1 == longer@.len(),
    ensures
        r == exists|k: int| #[trigger] lacks_only_at(shorter@, longer@, k),
{
    let a: Vec<char> = text::to_chars(shorter);
    let b: Vec<char> = text::to_chars(longer);
    let mut k: usize = 0;
    while k < b.len()
        invariant
            a@ == shorter@,
            b@ == longer@,
            a@.len() + 1 == b@.len(),
            k <= b@.len(),
            forall|j: int| 0 <= j < k ==> !#[trigger] lacks_only_at(shorter@, longer@, j),
        decreases b@.len() - k,
    {
        let same_before: bool = text::same_ignoring_case(
            &text::from_range(&a, 0, k),
            &text::from_range(&b, 0, k),
        );
        let same_after: bool = text::same_ignoring_case(
            &text::from_range(&a, k, a.len()),
            &text::from_range(&b, k + 1, b.len()),
        );
        if same_before && same_after {
            assert(lacks_only_at(shorter@, longer@, k as int));
            return true;
        }
        k = k + 1;
    }
    false
}

/// Whether one character replaced, added or dropped makes one identifier the other, letter case
/// aside.
pub fn ascii_identifiers_are_one_edit_apart(left: &str, right: &str) -> (r: bool)
    ensures
        r == spec_ascii_identifiers_are_one_edit_apart(left@, right@),
{
    let left_len: usize = text::char_count(left);
    let right_len: usize = text::char_count(right);
    if text::same(left, right) {
        false
    } else if left_len == right_len {
        differs_in_one_place(left, right)
    } else if left_len < right_len && right_len - left_len == 1 {
        lacks_one_character(left, right)
    } else if right_len < left_len && left_len - right_len == 1 {
        lacks_one_character(right, left)
    } else {
        false
    }
}

/// The condition of [`same_first_letter`]: both texts begin with the same character, letter case
/// aside.
pub open spec fn spec_same_first_letter(left: Seq<char>, right: Seq<char>) -> bool {
    let a = left;
    let b = right;
    a.len() > 0 && b.len() > 0 && text::spec_lower_char(a[0]) == text::spec_lower_char(b[0])
}

/// Whether both texts begin with the same character, letter case aside.
pub fn same_first_letter(left: &str, right: &str) -> (r: bool)
    ensures
        r == spec_same_first_letter(left@, right@),
{
    let a: Vec<char> = text::to_chars(left);
    let b: Vec<char> = text::to_chars(right);
    a.len() > 0 && b.len() > 0 && text::lower_char(a[0]) == text::lower_char(b[0])
}

/// What [`first_near_match`] comes to from position `i` of the items on.
pub open spec fn spec_near_match_among(
    items: Seq<Seq<char>>,
    i: int,
    required: Seq<char>,
) -> Option<Seq<char>>
    decreases items.len() - i,
{
    if i >= items.len() {
        None
    } else {
        let candidate = items[i];
        if candidate.len() >= 5
            && spec_same_first_letter(candidate, required)
            && spec_ascii_identifiers_are_one_edit_apart(candidate, required) {
            Some(candidate)
        } else {
            spec_near_match_among(items, i + 1, required)
        }
    }
}

/// Value of [`first_near_match`].
#[verifier::opaque]
pub open spec fn spec_first_near_match(
    candidates: Seq<Seq<char>>,
    required: Seq<char>,
) -> Option<Seq<char>> {
    spec_near_match_among(candidates, 0, required)
}

/// The first candidate of five characters or more that is one edit from the required identifier
/// and begins like it.
pub fn first_near_match(candidates: &Vec<String>, required: &str) -> (r: Option<String>)
    ensures
        contents::view_option(r) == spec_first_near_match(contents::views(candidates@), required@),
{
    proof {
        reveal(spec_first_near_match);
    }
    let ghost goal = spec_near_match_among(contents::views(candidates@), 0, required@);
    let mut i: usize = 0;
    while i < candidates.len()
        invariant
            i <= candidates@.len(),
            goal == spec_near_match_among(contents::views(candidates@), i as int, required@),
            goal == spec_first_near_match(contents::views(candidates@), required@),
        decreases candidates@.len() - i,
    {
        assert(contents::views(candidates@)[i as int] == candidates@[i as int]@);
        let candidate: &str = &candidates[i];
        i = i + 1;
        if text::char_count(candidate) >= 5
            && same_first_letter(candidate, required)
            && ascii_identifiers_are_one_edit_apart(candidate, required) {
            return Some(candidate.to_owned());
        }
    }
    None
}

/// The state of [`normalize_near_match_required_identifiers`] after the given items.
pub open spec fn spec_near_matches_made(items: Seq<Seq<char>>, normalized: Seq<char>) -> Seq<char>
    decreases items.len(),
{
    if items.len() == 0 {
        normalized
    } else {
        let normalized = spec_near_matches_made(items.drop_last(), normalized);
        let required = items.last();
        if required.len() < 5
            || !matching::spec_all_identifier(required)
            || matching::spec_contains_ascii_case_insensitive(normalized, required) {
            normalized
        } else {
            match spec_first_near_match(text::spec_split_tokens(normalized, "_"@), required) {
                None => normalized,
                Some(candidate) => {
                    typos::spec_replace_exact_ascii_token(normalized, candidate, required)
                },
            }
        }
    }
}

/// Value of [`normalize_near_match_required_identifiers`].
#[verifier::opaque]
pub open spec fn spec_normalize_near_match_required_identifiers(
    input: Seq<char>,
    output: Seq<char>,
) -> Seq<char> {
    let normalized = output;
    spec_near_matches_made(terms::spec_required_technical_terms(input), normalized)
}

/// The output with identifiers that are one edit from a required one, which it lacks, made that
/// one.
pub fn normalize_near_match_required_identifiers(input: &str, output: &str) -> (r: String)
    ensures
        r@ == spec_normalize_near_match_required_identifiers(input@, output@),
{
    proof {
        reveal(spec_normalize_near_match_required_identifiers);
    }
    let mut normalized: String = output.to_owned();
    let items: Vec<String> = terms::required_technical_terms(input);
    let ghost initial_normalized = normalized@;
    let mut i: usize = 0;
    while i < items.len()
        invariant
            i <= items@.len(),
            normalized@ == spec_near_matches_made(
                contents::views(items@).take(i as int),
                initial_normalized,
            ),
        decreases items@.len() - i,
    {
        assert(contents::views(items@).take(i + 1).drop_last()
            =~= contents::views(items@).take(i as int));
        let required: &str = &items[i];
        i = i + 1;
        if text::char_count(required) < 5
            || !matching::all_identifier(required)
            || matching::contains_ascii_case_insensitive(&normalized, required) {
            continue;
        }
        let candidate: String = match first_near_match(
            &text::split_tokens(&normalized, "_"),
            required,
        ) {
            Some(value) => value,
            None => {
                continue;
            },
        };
        normalized = typos::replace_exact_ascii_token(&normalized, &candidate, required);
    }
    assert(contents::views(items@).take(items@.len() as int) =~= contents::views(items@));
    normalized
}

/// The state of [`normalize_known_required_term_typos`] after the given items.
pub open spec fn spec_model_typos_corrected(
    items: Seq<(&str, &str, &str)>,
    input: Seq<char>,
    normalized: Seq<char>,
) -> Seq<char>
    decreases items.len(),
{
    if items.len() == 0 {
        normalized
    } else {
        let normalized = spec_model_typos_corrected(items.drop_last(), input, normalized);
        let required_term = items.last().0@;
        let typo = items.last().1@;
        let replacement = items.last().2@;
        if (matching::spec_contains_ascii_case_insensitive(input, required_term)
            || matching::spec_contains_ascii_case_insensitive(input, typo))
            && text::spec_contains(normalized, typo) {
            typos::spec_replace_exact_ascii_token(normalized, typo, replacement)
        } else {
            normalized
        }
    }
}

/// Value of [`normalize_known_required_term_typos`].
#[verifier::opaque]
pub open spec fn spec_normalize_known_required_term_typos(
    input: Seq<char>,
    output: Seq<char>,
) -> Seq<char> {
    let normalized = output;
    let normalized = if matching::spec_contains_ascii_case_insensitive(input, "columns"@) {
        text::spec_replace(
            text::spec_replace(normalized, "column mappings"@, "columns mapping"@),
            "column mapping"@,
            "columns mapping"@,
        )
    } else {
        normalized
    };
    let normalized = spec_model_typos_corrected(MODEL_TYPOS@, input, normalized);
    spec_normalize_near_match_required_identifiers(input, normalized)
}

/// The output with the known and the near misspellings of required terms corrected.
pub fn normalize_known_required_term_typos(input: &str, output: &str) -> (r: String)
    ensures
        r@ == spec_normalize_known_required_term_typos(input@, output@),
{
    proof {
        reveal(spec_normalize_known_required_term_typos);
    }
    let mut normalized: String = output.to_owned();
    if matching::contains_ascii_case_insensitive(input, "columns") {
        normalized = text::replace(
            &text::replace(&normalized, "column mappings", "columns mapping"),
            "column mapping",
            "columns mapping",
        );
    }
    let ghost initial_normalized = normalized@;
    let mut i: usize = 0;
    while i < MODEL_TYPOS.len()
        invariant
            i <= MODEL_TYPOS@.len(),
            normalized@ == spec_model_typos_corrected(
                MODEL_TYPOS@.take(i as int),
                input@,
                initial_normalized,
            ),
        decreases MODEL_TYPOS@.len() - i,
    {
        assert(MODEL_TYPOS@.take(i + 1).drop_last() =~= MODEL_TYPOS@.take(i as int));
        let required_term: &str = MODEL_TYPOS[i].0;
        let typo: &str = MODEL_TYPOS[i].1;
        let replacement: &str = MODEL_TYPOS[i].2;
        i = i + 1;
        if (matching::contains_ascii_case_insensitive(input, required_term)
            || matching::contains_ascii_case_insensitive(input, typo))
            && text::contains(&normalized, typo) {
            normalized = typos::replace_exact_ascii_token(&normalized, typo, replacement);
        }
    }
    assert(MODEL_TYPOS@.take(MODEL_TYPOS@.len() as int) =~= MODEL_TYPOS@);
    normalize_near_match_required_identifiers(input, &normalized)
}

/// Value of [`body_without_listed_prefix`].
#[verifier::opaque]
pub open spec fn spec_body_without_listed_prefix(
    trimmed: Seq<char>,
    separator: Seq<char>,
) -> Option<Seq<char>> {
    match text::spec_split_once(trimmed, separator) {
        None => None,
        Some(parts) => {
            let terms = text::spec_segments(parts.0, "/"@);
            let body = text::spec_trim_start(parts.1);
            if terms.len() > 0
                && parts.0.len() <= 80
                && matching::spec_all_terms_present(terms, body) {
                Some(body)
            } else {
                None
            }
        },
    }
}

/// What follows the separator, where what precedes it lists only terms that follow again.
pub fn body_without_listed_prefix(trimmed: &str, separator: &str) -> (r: Option<String>)
    ensures
        contents::view_option(r) == spec_body_without_listed_prefix(trimmed@, separator@),
{
    proof {
        reveal(spec_body_without_listed_prefix);
    }
    let parts = match text::split_once(trimmed, separator) {
        Some(value) => value,
        None => {
            return None;
        },
    };
    let terms: Vec<String> = text::segments(&parts.0, "/");
    let body: String = text::trim_start(&parts.1);
    if terms.len() > 0
        && text::char_count(&parts.0) <= 80
        && matching::all_terms_present(&terms, &body) {
        return Some(body);
    }
    None
}

/// What [`body_without_listed_prefixes`] comes to from position `i` of the items on.
pub open spec fn spec_listed_prefix_dropped(
    items: Seq<&str>,
    i: int,
    trimmed: Seq<char>,
) -> Option<Seq<char>>
    decreases items.len() - i,
{
    if i >= items.len() {
        None
    } else {
        let separator = items[i]@;
        match spec_body_without_listed_prefix(trimmed, separator) {
            Some(body) => Some(body),
            None => spec_listed_prefix_dropped(items, i + 1, trimmed),
        }
    }
}

/// Value of [`body_without_listed_prefixes`].
#[verifier::opaque]
pub open spec fn spec_body_without_listed_prefixes(trimmed: Seq<char>) -> Option<Seq<char>> {
    spec_listed_prefix_dropped(LABEL_SEPARATORS@, 0, trimmed)
}

/// What follows a prefix that lists only terms that follow again.
pub fn body_without_listed_prefixes(trimmed: &str) -> (r: Option<String>)
    ensures
        contents::view_option(r) == spec_body_without_listed_prefixes(trimmed@),
{
    proof {
        reveal(spec_body_without_listed_prefixes);
    }
    let ghost goal = spec_listed_prefix_dropped(LABEL_SEPARATORS@, 0, trimmed@);
    let mut i: usize = 0;
    while i < LABEL_SEPARATORS.len()
        invariant
            i <= LABEL_SEPARATORS@.len(),
            goal == spec_listed_prefix_dropped(LABEL_SEPARATORS@, i as int, trimmed@),
            goal == spec_body_without_listed_prefixes(trimmed@),
        decreases LABEL_SEPARATORS@.len() - i,
    {
        let separator: &str = LABEL_SEPARATORS[i];
        i = i + 1;
        match body_without_listed_prefix(trimmed, separator) {
            Some(body) => {
                return Some(body);
            },
            None => {
            },
        }
    }
    None
}

/// What [`body_without_label_term`] comes to from position `i` of the items on.
pub open spec fn spec_label_term_dropped(
    items: Seq<&str>,
    i: int,
    trimmed: Seq<char>,
    term: Seq<char>,
) -> Option<Seq<char>>
    decreases items.len() - i,
{
    if i >= items.len() {
        None
    } else {
        let separator = items[i]@;
        match text::spec_strip_prefix(trimmed, term + separator) {
            Some(rest) => {
                if matching::spec_contains_ascii_case_insensitive(text::spec_trim_start(rest), term) {
                    Some(text::spec_trim_start(rest))
                } else {
                    spec_label_term_dropped(items, i + 1, trimmed, term)
                }
            },
            None => spec_label_term_dropped(items, i + 1, trimmed, term),
        }
    }
}

/// Value of [`body_without_label_term`].
#[verifier::opaque]
pub open spec fn spec_body_without_label_term(
    trimmed: Seq<char>,
    term: Seq<char>,
) -> Option<Seq<char>> {
    spec_label_term_dropped(LABEL_SEPARATORS@, 0, trimmed, term)
}

/// What follows the term as a label, where it follows again.
pub fn body_without_label_term(trimmed: &str, term: &str) -> (r: Option<String>)
    ensures
        contents::view_option(r) == spec_body_without_label_term(trimmed@, term@),
{
    proof {
        reveal(spec_body_without_label_term);
    }
    let ghost goal = spec_label_term_dropped(LABEL_SEPARATORS@, 0, trimmed@, term@);
    let mut i: usize = 0;
    while i < LABEL_SEPARATORS.len()
        invariant
            i <= LABEL_SEPARATORS@.len(),
            goal == spec_label_term_dropped(LABEL_SEPARATORS@, i as int, trimmed@, term@),
            goal == spec_body_without_label_term(trimmed@, term@),
        decreases LABEL_SEPARATORS@.len() - i,
    {
        let separator: &str = LABEL_SEPARATORS[i];
        i = i + 1;
        match text::strip_prefix(trimmed, &text::concat2(term, separator)) {
            Some(rest) => {
                if matching::contains_ascii_case_insensitive(&text::trim_start(&rest), term) {
                    return Some(text::trim_start(&rest));
                }
            },
            None => {
            },
        }
    }
    None
}

/// What [`remove_redundant_required_term_prefixes`] comes to from position `i` of the items on.
pub open spec fn spec_label_terms_dropped(items: Seq<&str>, i: int, trimmed: Seq<char>) -> Seq<char>
    decreases items.len() - i,
{
    if i >= items.len() {
        trimmed
    } else {
        let term = items[i]@;
        match spec_body_without_label_term(trimmed, term) {
            Some(rest) => rest,
            None => spec_label_terms_dropped(items, i + 1, trimmed),
        }
    }
}

/// Value of [`remove_redundant_required_term_prefixes`].
#[verifier::opaque]
pub open spec fn spec_remove_redundant_required_term_prefixes(output: Seq<char>) -> Seq<char> {
    let trimmed = text::spec_trim(output);
    match spec_body_without_listed_prefixes(trimmed) {
        Some(body) => body,
        None => spec_label_terms_dropped(LABEL_TERMS@, 0, trimmed),
    }
}

/// The output without a prefix of terms that its body holds.
pub fn remove_redundant_required_term_prefixes(output: &str) -> (r: String)
    ensures
        r@ == spec_remove_redundant_required_term_prefixes(output@),
{
    proof {
        reveal(spec_remove_redundant_required_term_prefixes);
    }
    let trimmed: String = text::trim(output);
    match body_without_listed_prefixes(&trimmed) {
        Some(body) => {
            body
        },
        None => {
            let ghost goal = spec_label_terms_dropped(LABEL_TERMS@, 0, trimmed@);
            let mut i: usize = 0;
            while i < LABEL_TERMS.len()
                invariant
                    i <= LABEL_TERMS@.len(),
                    goal == spec_label_terms_dropped(LABEL_TERMS@, i as int, trimmed@),
                    goal == spec_remove_redundant_required_term_prefixes(output@),
                decreases LABEL_TERMS@.len() - i,
            {
                let term: &str = LABEL_TERMS[i];
                i = i + 1;
                match body_without_label_term(&trimmed, term) {
                    Some(rest) => {
                        return rest;
                    },
                    None => {
                    },
                }
            }
            trimmed
        },
    }
}

/// What [`explicit_target`] comes to from position `i` of the items on.
pub open spec fn spec_target_after(items: Seq<&str>, i: int, clause: Seq<char>) -> Option<Seq<char>>
    decreases items.len() - i,
{
    if i >= items.len() {
        None
    } else {
        let prefix = items[i]@;
        match text::spec_strip_prefix(clause, prefix) {
            Some(rest) => {
                Some(
                    text::spec_trim(
                        text::spec_trim_end_text(
                            text::spec_trim_end_text(text::spec_trim(rest), "です"@),
                            "である"@,
                        ),
                    ),
                )
            },
            None => spec_target_after(items, i + 1, clause),
        }
    }
}

/// Value of [`explicit_target`].
pub open spec fn spec_explicit_target(clause: Seq<char>) -> Option<Seq<char>> {
    spec_target_after(TARGET_PREFIXES@, 0, clause)
}

/// The target that a clause names for the whole request.
pub fn explicit_target(clause: &str) -> (r: Option<String>)
    ensures
        contents::view_option(r) == spec_explicit_target(clause@),
{
    let ghost goal = spec_target_after(TARGET_PREFIXES@, 0, clause@);
    let mut i: usize = 0;
    while i < TARGET_PREFIXES.len()
        invariant
            i <= TARGET_PREFIXES@.len(),
            goal == spec_target_after(TARGET_PREFIXES@, i as int, clause@),
            goal == spec_explicit_target(clause@),
        decreases TARGET_PREFIXES@.len() - i,
    {
        let prefix: &str = TARGET_PREFIXES[i];
        i = i + 1;
        match text::strip_prefix(clause, prefix) {
            Some(rest) => {
                return Some(
                    text::trim(
                        &text::trim_end_text(
                            &text::trim_end_text(&text::trim(&rest), "です"),
                            "である",
                        ),
                    ),
                );
            },
            None => {
            },
        }
    }
    None
}

/// The condition of [`any_term_only_in_target`]: the target holds a term that the output lacks.
#[verifier::opaque]
pub open spec fn spec_any_term_only_in_target(
    terms: Seq<Seq<char>>,
    target: Seq<char>,
    output: Seq<char>,
) -> bool {
    exists|i: int|
        #![trigger terms[i]] 0 <= i < terms.len()
        && matching::spec_contains_ascii_case_insensitive(target, terms[i])
            && !matching::spec_contains_ascii_case_insensitive(output, terms[i])
}

/// Whether the target holds a term that the output lacks.
pub fn any_term_only_in_target(terms: &Vec<String>, target: &str, output: &str) -> (r: bool)
    ensures
        r == spec_any_term_only_in_target(contents::views(terms@), target@, output@),
{
    proof {
        reveal(spec_any_term_only_in_target);
    }
    let mut i: usize = 0;
    while i < terms.len()
        invariant
            i <= terms@.len(),
            forall|j: int|
                #![trigger contents::views(terms@)[j]] 0 <= j < i ==> !((matching::spec_contains_ascii_case_insensitive(
                    target@,
                    contents::views(terms@)[j],
                )
                    && !matching::spec_contains_ascii_case_insensitive(
                        output@,
                        contents::views(terms@)[j],
                    ))),
        decreases terms@.len() - i,
    {
        proof {
            reveal(spec_any_term_only_in_target);
        }
        let term: &str = &terms[i];
        assert(contents::views(terms@)[i as int] == terms@[i as int]@);
        if matching::contains_ascii_case_insensitive(target, term)
            && !matching::contains_ascii_case_insensitive(output, term) {
            return true;
        }
        i = i + 1;
    }
    false
}

/// The state of [`restore_missing_explicit_target_context`] after the given items.
pub open spec fn spec_targets_restored(
    items: Seq<Seq<char>>,
    required_terms: Seq<Seq<char>>,
    limit: int,
    restored: Seq<char>,
) -> Seq<char>
    decreases items.len(),
{
    if items.len() == 0 {
        restored
    } else {
        let restored = spec_targets_restored(items.drop_last(), required_terms, limit, restored);
        let clause = items.last();
        match spec_explicit_target(clause) {
            None => restored,
            Some(target) => {
                if target.len() == 0
                    || !spec_any_term_only_in_target(required_terms, target, restored) {
                    restored
                } else {
                    let candidate = target + "を対象に、"@ + text::spec_trim_start(restored);
                    if candidate.len() < limit {
                        candidate
                    } else {
                        restored
                    }
                }
            },
        }
    }
}

/// Value of [`restore_missing_explicit_target_context`].
#[verifier::opaque]
pub open spec fn spec_restore_missing_explicit_target_context(
    input: Seq<char>,
    output: Seq<char>,
) -> Seq<char> {
    let required_terms = terms::spec_required_technical_terms(input);
    let limit: int = text::spec_trim(input).len() as int;
    let restored = output;
    spec_targets_restored(
        text::spec_segments(preprocess::spec_preprocess_input_for_llm(input), "。！？\n;；"@),
        required_terms,
        limit,
        restored,
    )
}

/// The output with the targets put before it that the input names and whose terms it lacks, as
/// long as it stays shorter than the input.
pub fn restore_missing_explicit_target_context(input: &str, output: &str) -> (r: String)
    ensures
        r@ == spec_restore_missing_explicit_target_context(input@, output@),
{
    proof {
        reveal(spec_restore_missing_explicit_target_context);
    }
    let required_terms: Vec<String> = terms::required_technical_terms(input);
    let limit: usize = text::char_count(&text::trim(input));
    let mut restored: String = output.to_owned();
    let items: Vec<String> = text::segments(
        &preprocess::preprocess_input_for_llm(input),
        "。！？\n;；",
    );
    let ghost initial_restored = restored@;
    let mut i: usize = 0;
    while i < items.len()
        invariant
            i <= items@.len(),
            restored@ == spec_targets_restored(
                contents::views(items@).take(i as int),
                contents::views(required_terms@),
                limit as int,
                initial_restored,
            ),
        decreases items@.len() - i,
    {
        assert(contents::views(items@).take(i + 1).drop_last()
            =~= contents::views(items@).take(i as int));
        let clause: &str = &items[i];
        i = i + 1;
        let target: String = match explicit_target(clause) {
            Some(value) => value,
            None => {
                continue;
            },
        };
        if text::char_count(&target) == 0
            || !any_term_only_in_target(&required_terms, &target, &restored) {
            continue;
        }
        let candidate: String = text::concat3(&target, "を対象に、", &text::trim_start(&restored));
        if text::char_count(&candidate) < limit {
            restored = candidate;
        }
    }
    assert(contents::views(items@).take(items@.len() as int) =~= contents::views(items@));
    restored
}

/// The state of [`nearest_anchor`] after the given items.
pub open spec fn spec_nearest_anchor_among(
    items: Seq<Seq<char>>,
    term: Seq<char>,
    after_term: Seq<char>,
    output: Seq<char>,
    best_start: int,
) -> (Seq<char>, int, bool)
    decreases items.len(),
{
    if items.len() == 0 {
        (Seq::<char>::empty(), best_start, false)
    } else {
        let (best, best_start, found) = spec_nearest_anchor_among(items.drop_last(), term, after_term, output, best_start);
        let anchor = items.last();
        if anchor == term || !text::spec_contains(after_term, anchor) {
            (best, best_start, found)
        } else {
            match text::spec_find(output, anchor) {
                Some(start) => {
                    if !found || start < best_start {
                        let best = anchor;
                        let best_start: int = start;
                        let found = true;
                        (best, best_start, found)
                    } else {
                        (best, best_start, found)
                    }
                },
                None => (best, best_start, found),
            }
        }
    }
}

/// Value of [`nearest_anchor`].
pub open spec fn spec_nearest_anchor(
    required_terms: Seq<Seq<char>>,
    term: Seq<char>,
    after_term: Seq<char>,
    output: Seq<char>,
) -> Option<Seq<char>> {
    let best_start: int = 0;
    let (best, best_start, found) = spec_nearest_anchor_among(
        required_terms,
        term,
        after_term,
        output,
        best_start,
    );
    if !found {
        None
    } else {
        Some(best)
    }
}

/// Of the other terms after the given one, that which the output holds first.
pub fn nearest_anchor(
    required_terms: &Vec<String>,
    term: &str,
    after_term: &str,
    output: &str,
) -> (r: Option<String>)
    ensures
        contents::view_option(r)
            == spec_nearest_anchor(contents::views(required_terms@), term@, after_term@, output@),
{
    let mut best: String = String::new();
    let mut best_start: usize = 0;
    let mut found: bool = false;
    let ghost initial_best_start = best_start as int;
    let mut i: usize = 0;
    while i < required_terms.len()
        invariant
            i <= required_terms@.len(),
            (best@, best_start as int, found) == spec_nearest_anchor_among(
                contents::views(required_terms@).take(i as int),
                term@,
                after_term@,
                output@,
                initial_best_start,
            ),
        decreases required_terms@.len() - i,
    {
        assert(contents::views(required_terms@).take(i + 1).drop_last()
            =~= contents::views(required_terms@).take(i as int));
        let anchor: &str = &required_terms[i];
        i = i + 1;
        if text::same(anchor, term) || !text::contains(after_term, anchor) {
            continue;
        }
        match text::find(output, anchor) {
            Some(start) => {
                if !found || start < best_start {
                    best = anchor.to_owned();
                    best_start = start;
                    found = true;
                }
            },
            None => {
            },
        }
    }
    assert(contents::views(required_terms@).take(required_terms@.len() as int)
        =~= contents::views(required_terms@));
    if !found {
        return None;
    }
    Some(best)
}

/// Value of [`mechanism_candidate`].
#[verifier::opaque]
pub open spec fn spec_mechanism_candidate(
    clause: Seq<char>,
    term: Seq<char>,
    required_terms: Seq<Seq<char>>,
    output: Seq<char>,
    limit: int,
) -> Option<Seq<char>> {
    match text::spec_split_once(clause, term) {
        None => None,
        Some(sides) => {
            let after_term = sides.1;
            if !matching::spec_starts_with_marker(text::spec_trim_start(after_term), MEANS_MARKERS@) {
                None
            } else {
                match spec_nearest_anchor(required_terms, term, after_term, output) {
                    None => None,
                    Some(anchor) => {
                        match text::spec_find(output, anchor) {
                            None => None,
                            Some(start) => {
                                let before = text::spec_take(output, start);
                                let after = text::spec_skip(output, start);
                                let candidate = spec_placed_before(before, term, after);
                                if candidate.len() < limit
                                    && matching::spec_contains_ascii_case_insensitive(
                                        candidate,
                                        anchor,
                                    ) {
                                    Some(candidate)
                                } else {
                                    None
                                }
                            },
                        }
                    },
                }
            }
        },
    }
}

/// The output with the term put, as the means, before the first term that it serves in the
/// clause.
pub fn mechanism_candidate(
    clause: &str,
    term: &str,
    required_terms: &Vec<String>,
    output: &str,
    limit: usize,
) -> (r: Option<String>)
    ensures
        contents::view_option(r)
            == spec_mechanism_candidate(
                clause@,
                term@,
                contents::views(required_terms@),
                output@,
                limit as int,
            ),
{
    proof {
        reveal(spec_mechanism_candidate);
    }
    let sides = match text::split_once(clause, term) {
        Some(value) => value,
        None => {
            return None;
        },
    };
    let after_term: String = sides.1.clone();
    if !matching::starts_with_marker(&text::trim_start(&after_term), &MEANS_MARKERS) {
        return None;
    }
    let anchor: String = match nearest_anchor(required_terms, term, &after_term, output) {
        Some(value) => value,
        None => {
            return None;
        },
    };
    let start: usize = match text::find(output, &anchor) {
        Some(value) => value,
        None => {
            return None;
        },
    };
    let before: String = text::take(output, start);
    let after: String = text::skip(output, start);
    let candidate: String = placed_before(&before, term, &after);
    if text::char_count(&candidate) < limit
        && matching::contains_ascii_case_insensitive(&candidate, &anchor) {
        return Some(candidate);
    }
    None
}

/// Value of [`placed_before`].
pub open spec fn spec_placed_before(
    before: Seq<char>,
    term: Seq<char>,
    after: Seq<char>,
) -> Seq<char> {
    match text::spec_strip_suffix(before, "の"@) {
        Some(stem) => stem + "を"@ + term + "で"@ + after,
        None => before + term + "で"@ + after,
    }
}

/// The text with the term, as the means, between its two parts.
pub fn placed_before(before: &str, term: &str, after: &str) -> (r: String)
    ensures
        r@ == spec_placed_before(before@, term@, after@),
{
    match text::strip_suffix(before, "の") {
        Some(stem) => {
            text::concat5(&stem, "を", term, "で", after)
        },
        None => {
            text::concat4(before, term, "で", after)
        },
    }
}

/// What [`first_mechanism`] comes to from position `i` of the items on.
pub open spec fn spec_mechanism_among(
    items: Seq<Seq<char>>,
    i: int,
    term: Seq<char>,
    required_terms: Seq<Seq<char>>,
    output: Seq<char>,
    limit: int,
) -> Option<Seq<char>>
    decreases items.len() - i,
{
    if i >= items.len() {
        None
    } else {
        let clause = items[i];
        match spec_mechanism_candidate(clause, term, required_terms, output, limit) {
            Some(candidate) => Some(candidate),
            None => {
                spec_mechanism_among(items, i + 1, term, required_terms, output, limit)
            },
        }
    }
}

/// Value of [`first_mechanism`].
#[verifier::opaque]
pub open spec fn spec_first_mechanism(
    clauses: Seq<Seq<char>>,
    term: Seq<char>,
    required_terms: Seq<Seq<char>>,
    output: Seq<char>,
    limit: int,
) -> Option<Seq<char>> {
    spec_mechanism_among(clauses, 0, term, required_terms, output, limit)
}

/// The output with the term put back as the means that the first fitting clause makes it.
pub fn first_mechanism(
    clauses: &Vec<String>,
    term: &str,
    required_terms: &Vec<String>,
    output: &str,
    limit: usize,
) -> (r: Option<String>)
    ensures
        contents::view_option(r)
            == spec_first_mechanism(
                contents::views(clauses@),
                term@,
                contents::views(required_terms@),
                output@,
                limit as int,
            ),
{
    proof {
        reveal(spec_first_mechanism);
    }
    let ghost goal = spec_mechanism_among(
        contents::views(clauses@),
        0,
        term@,
        contents::views(required_terms@),
        output@,
        limit as int,
    );
    let mut i: usize = 0;
    while i < clauses.len()
        invariant
            i <= clauses@.len(),
            goal == spec_mechanism_among(
                contents::views(clauses@),
                i as int,
                term@,
                contents::views(required_terms@),
                output@,
                limit as int,
            ),
            goal == spec_first_mechanism(
                contents::views(clauses@),
                term@,
                contents::views(required_terms@),
                output@,
                limit as int,
            ),
        decreases clauses@.len() - i,
    {
        assert(contents::views(clauses@)[i as int] == clauses@[i as int]@);
        let clause: &str = &clauses[i];
        i = i + 1;
        match mechanism_candidate(clause, term, required_terms, output, limit) {
            Some(candidate) => {
                return Some(candidate);
            },
            None => {
            },
        }
    }
    None
}

/// The state of [`restore_missing_mechanism_terms`] after the given items.
pub open spec fn spec_mechanisms_restored(
    items: Seq<Seq<char>>,
    clauses: Seq<Seq<char>>,
    required_terms: Seq<Seq<char>>,
    limit: int,
    restored: Seq<char>,
) -> Seq<char>
    decreases items.len(),
{
    if items.len() == 0 {
        restored
    } else {
        let restored = spec_mechanisms_restored(items.drop_last(), clauses, required_terms, limit, restored);
        let term = items.last();
        if matching::spec_contains_ascii_case_insensitive(restored, term) {
            restored
        } else {
            match spec_first_mechanism(clauses, term, required_terms, restored, limit) {
                Some(candidate) => candidate,
                None => restored,
            }
        }
    }
}

/// Value of [`restore_missing_mechanism_terms`].
#[verifier::opaque]
pub open spec fn spec_restore_missing_mechanism_terms(
    input: Seq<char>,
    output: Seq<char>,
) -> Seq<char> {
    let required_terms = terms::spec_required_technical_terms(input);
    let clauses = text::spec_segments(
        preprocess::spec_preprocess_input_for_llm(input),
        "。！？\n;；"@,
    );
    let limit: int = text::spec_trim(input).len() as int;
    let restored = output;
    spec_mechanisms_restored(required_terms, clauses, required_terms, limit, restored)
}

/// The output with the terms put back that it lacks and that are the means of others, as long as
/// it stays shorter than the input.
pub fn restore_missing_mechanism_terms(input: &str, output: &str) -> (r: String)
    ensures
        r@ == spec_restore_missing_mechanism_terms(input@, output@),
{
    proof {
        reveal(spec_restore_missing_mechanism_terms);
    }
    let required_terms: Vec<String> = terms::required_technical_terms(input);
    let clauses: Vec<String> = text::segments(
        &preprocess::preprocess_input_for_llm(input),
        "。！？\n;；",
    );
    let limit: usize = text::char_count(&text::trim(input));
    let mut restored: String = output.to_owned();
    let ghost initial_restored = restored@;
    let mut i: usize = 0;
    while i < required_terms.len()
        invariant
            i <= required_terms@.len(),
            restored@ == spec_mechanisms_restored(
                contents::views(required_terms@).take(i as int),
                contents::views(clauses@),
                contents::views(required_terms@),
                limit as int,
                initial_restored,
            ),
        decreases required_terms@.len() - i,
    {
        assert(contents::views(required_terms@).take(i + 1).drop_last()
            =~= contents::views(required_terms@).take(i as int));
        let term: &str = &required_terms[i];
        i = i + 1;
        if matching::contains_ascii_case_insensitive(&restored, term) {
            continue;
        }
        match first_mechanism(&clauses, term, &required_terms, &restored, limit) {
            Some(candidate) => {
                restored = candidate;
            },
            None => {
            },
        }
    }
    assert(contents::views(required_terms@).take(required_terms@.len() as int)
        =~= contents::views(required_terms@));
    restored
}

/// Value of [`append_restoration_phrase`].
pub open spec fn spec_append_restoration_phrase(output: Seq<char>, phrase: Seq<char>) -> Seq<char> {
    let body = text::spec_trim_end_any(text::spec_trim(output), "。.;；、,"@);
    let addition = text::spec_trim_end_any(text::spec_trim(phrase), "。.;；、,"@);
    if body.len() == 0 {
        addition
    } else {
        if addition.len() == 0 {
            body
        } else {
            body + "、"@ + addition + "。"@
        }
    }
}

/// The output with the phrase after it.
pub fn append_restoration_phrase(output: &str, phrase: &str) -> (r: String)
    ensures
        r@ == spec_append_restoration_phrase(output@, phrase@),
{
    let body: String = text::trim_end_any(&text::trim(output), "。.;；、,");
    let addition: String = text::trim_end_any(&text::trim(phrase), "。.;；、,");
    if text::char_count(&body) == 0 {
        return addition;
    }
    if text::char_count(&addition) == 0 {
        return body;
    }
    text::concat4(&body, "、", &addition, "。")
}

/// Value of [`missing_critical_mechanism_phrases`].
pub open spec fn spec_missing_critical_mechanism_phrases(
    input: Seq<char>,
    output: Seq<char>,
) -> Seq<Seq<char>> {
    let phrases = Seq::<Seq<char>>::empty();
    if text::spec_contains(input, "一時ファイル"@)
        && text::spec_contains(input, "置換"@)
        && !(text::spec_contains(output, "一時ファイル"@) && text::spec_contains(output, "置換"@)) {
        phrases.push("一時ファイルへ書いてから置換"@)
    } else {
        phrases
    }
}

/// The means of keeping a file from damage that the input asks for and the output lacks.
pub fn missing_critical_mechanism_phrases(input: &str, output: &str) -> (r: Vec<String>)
    ensures
        contents::views(r@) == spec_missing_critical_mechanism_phrases(input@, output@),
{
    let mut phrases: Vec<String> = Vec::new();
    if text::contains(input, "一時ファイル")
        && text::contains(input, "置換")
        && !(text::contains(output, "一時ファイル") && text::contains(output, "置換")) {
        phrases.push("一時ファイルへ書いてから置換".to_owned());
    }
    phrases
}

/// The state of [`replace_vague_mechanism_with_phrase`] after the given items.
pub open spec fn spec_vague_replaced(
    items: Seq<&str>,
    phrase: Seq<char>,
    replaced: Seq<char>,
) -> Seq<char>
    decreases items.len(),
{
    if items.len() == 0 {
        replaced
    } else {
        let replaced = spec_vague_replaced(items.drop_last(), phrase, replaced);
        let vague = items.last()@;
        text::spec_replace(replaced, vague, phrase)
    }
}

/// Value of [`replace_vague_mechanism_with_phrase`].
pub open spec fn spec_replace_vague_mechanism_with_phrase(
    output: Seq<char>,
    phrase: Seq<char>,
) -> Seq<char> {
    let replaced = output;
    spec_vague_replaced(VAGUE_MECHANISMS@, phrase, replaced)
}

/// The output with vague phrases for the means made the phrase.
pub fn replace_vague_mechanism_with_phrase(output: &str, phrase: &str) -> (r: String)
    ensures
        r@ == spec_replace_vague_mechanism_with_phrase(output@, phrase@),
{
    let mut replaced: String = output.to_owned();
    let ghost initial_replaced = replaced@;
    let mut i: usize = 0;
    while i < VAGUE_MECHANISMS.len()
        invariant
            i <= VAGUE_MECHANISMS@.len(),
            replaced@ == spec_vague_replaced(
                VAGUE_MECHANISMS@.take(i as int),
                phrase@,
                initial_replaced,
            ),
        decreases VAGUE_MECHANISMS@.len() - i,
    {
        assert(VAGUE_MECHANISMS@.take(i + 1).drop_last() =~= VAGUE_MECHANISMS@.take(i as int));
        let vague: &str = VAGUE_MECHANISMS[i];
        i = i + 1;
        replaced = text::replace(&replaced, vague, phrase);
    }
    assert(VAGUE_MECHANISMS@.take(VAGUE_MECHANISMS@.len() as int) =~= VAGUE_MECHANISMS@);
    replaced
}

/// The state of [`restore_missing_critical_mechanisms`] after the given items.
pub open spec fn spec_critical_restored(
    items: Seq<Seq<char>>,
    input: Seq<char>,
    restored: Seq<char>,
) -> Seq<char>
    decreases items.len(),
{
    if items.len() == 0 {
        restored
    } else {
        let restored = spec_critical_restored(items.drop_last(), input, restored);
        let phrase = items.last();
        let replaced = spec_replace_vague_mechanism_with_phrase(restored, phrase);
        if replaced != restored {
            replaced
        } else {
            let candidate = spec_append_restoration_phrase(restored, phrase);
            if candidate.len() < text::spec_trim(input).len() {
                candidate
            } else {
                restored
            }
        }
    }
}

/// Value of [`restore_missing_critical_mechanisms`].
#[verifier::opaque]
pub open spec fn spec_restore_missing_critical_mechanisms(
    input: Seq<char>,
    output: Seq<char>,
) -> Seq<char> {
    let restored = output;
    spec_critical_restored(spec_missing_critical_mechanism_phrases(input, output), input, restored)
}

/// The output with the means of keeping a file from damage put back, as long as it stays shorter
/// than the input or a vague phrase gives way.
pub fn restore_missing_critical_mechanisms(input: &str, output: &str) -> (r: String)
    ensures
        r@ == spec_restore_missing_critical_mechanisms(input@, output@),
{
    proof {
        reveal(spec_restore_missing_critical_mechanisms);
    }
    let mut restored: String = output.to_owned();
    let items: Vec<String> = missing_critical_mechanism_phrases(input, output);
    let ghost initial_restored = restored@;
    let mut i: usize = 0;
    while i < items.len()
        invariant
            i <= items@.len(),
            restored@ == spec_critical_restored(
                contents::views(items@).take(i as int),
                input@,
                initial_restored,
            ),
        decreases items@.len() - i,
    {
        assert(contents::views(items@).take(i + 1).drop_last()
            =~= contents::views(items@).take(i as int));
        let phrase: &str = &items[i];
        i = i + 1;
        let replaced: String = replace_vague_mechanism_with_phrase(&restored, phrase);
        if !text::same(&replaced, &restored) {
            restored = replaced;
            continue;
        }
        let candidate: String = append_restoration_phrase(&restored, phrase);
        if text::char_count(&candidate) < text::char_count(&text::trim(input)) {
            restored = candidate;
        }
    }
    assert(contents::views(items@).take(items@.len() as int) =~= contents::views(items@));
    restored
}

/// Value of [`adopted`].
pub open spec fn spec_adopted(current: Seq<char>, candidate: Seq<char>) -> Seq<char> {
    if candidate != text::spec_trim(current) {
        candidate
    } else {
        current
    }
}

/// The candidate, where it is more than the current text trimmed.
pub fn adopted(current: &str, candidate: &str) -> (r: String)
    ensures
        r@ == spec_adopted(current@, candidate@),
{
    if !text::same(candidate, &text::trim(current)) {
        return candidate.to_owned();
    }
    current.to_owned()
}

/// Value of [`with_required_terms`].
#[verifier::opaque]
pub open spec fn spec_with_required_terms(input_text: Seq<char>, prompt: Seq<char>) -> Seq<char> {
    let validation_input = corrections::spec_normalized_verification_input(input_text);
    let typed = spec_normalize_known_required_term_typos(validation_input, text::spec_trim(prompt));
    let corrected = spec_adopted(
        prompt,
        spec_strip_leading_output_label(spec_remove_redundant_required_term_prefixes(typed)),
    );
    let mechanized = spec_adopted(
        corrected,
        spec_restore_missing_mechanism_terms(validation_input, text::spec_trim(corrected)),
    );
    let secured = spec_adopted(
        mechanized,
        spec_restore_missing_critical_mechanisms(validation_input, text::spec_trim(mechanized)),
    );
    let targeted = spec_adopted(
        secured,
        spec_restore_missing_explicit_target_context(validation_input, text::spec_trim(secured)),
    );
    let output = text::spec_trim(targeted);
    if output.len() == 0 {
        targeted
    } else {
        let missing_terms = matching::spec_absent_terms(
            terms::spec_required_technical_terms(validation_input),
            output,
        );
        if missing_terms.len() == 0 {
            targeted
        } else {
            let listed = text::spec_join(missing_terms, "/"@);
            let restored = listed + ": "@ + output;
            if restored.len() < text::spec_trim(input_text).len() {
                restored
            } else {
                targeted
            }
        }
    }
}

/// The prompt with misspelt required terms corrected and missing ones put back, as long as it
/// stays shorter than the request.
pub fn with_required_terms(input_text: &str, prompt: &str) -> (r: String)
    ensures
        r@ == spec_with_required_terms(input_text@, prompt@),
{
    proof {
        reveal(spec_with_required_terms);
    }
    let validation_input: String = corrections::normalized_verification_input(input_text);
    let typed: String = normalize_known_required_term_typos(&validation_input, &text::trim(prompt));
    let corrected: String = adopted(
        prompt,
        &strip_leading_output_label(&remove_redundant_required_term_prefixes(&typed)),
    );
    let mechanized: String = adopted(
        &corrected,
        &restore_missing_mechanism_terms(&validation_input, &text::trim(&corrected)),
    );
    let secured: String = adopted(
        &mechanized,
        &restore_missing_critical_mechanisms(&validation_input, &text::trim(&mechanized)),
    );
    let targeted: String = adopted(
        &secured,
        &restore_missing_explicit_target_context(&validation_input, &text::trim(&secured)),
    );
    let output: String = text::trim(&targeted);
    if text::char_count(&output) == 0 {
        return targeted;
    }
    let missing_terms: Vec<String> = matching::absent_terms(
        &terms::required_technical_terms(&validation_input),
        &output,
    );
    if missing_terms.len() == 0 {
        return targeted;
    }
    let listed: String = text::join(&missing_terms, "/");
    let restored: String = text::concat3(&listed, ": ", &output);
    if text::char_count(&restored) < text::char_count(&text::trim(input_text)) {
        return restored;
    }
    targeted
}

/// Value of [`normalize_required_constraint_terms`].
#[verifier::opaque]
pub open spec fn spec_normalize_required_constraint_terms(
    input: Seq<char>,
    output: Seq<char>,
) -> Seq<char> {
    let normalized = text::spec_replace_all(
        spec_strip_leading_output_label(output),
        DOUBLED_PROHIBITIONS@,
    );
    let normalized = if text::spec_contains(input, "変更しない"@) {
        text::spec_replace(normalized, "変更せず"@, "変更しない"@)
    } else {
        normalized
    };
    let normalized = if text::spec_contains(input, "保存しない"@) {
        text::spec_replace(normalized, "保存せず"@, "保存しない"@)
    } else {
        normalized
    };
    let normalized = if text::spec_contains(input, "任意"@) {
        text::spec_replace(normalized, "更新可能"@, "任意"@)
    } else {
        normalized
    };
    let normalized = if matching::spec_contains_any_marker(
        input,
        ["残してください", "残して", "残す"]@,
    ) {
        text::spec_replace_all(normalized, RETENTION_FORMS@)
    } else {
        normalized
    };
    let normalized = if matching::spec_contains_any_marker(
        input,
        ["いりません", "いらない", "不要"]@,
    ) {
        text::spec_replace(normalized, "いりません"@, "不要"@)
    } else {
        normalized
    };
    let normalized = if text::spec_contains(input, "ウィンドウバー"@) {
        text::spec_replace_all(normalized, FIXED_BAR_FORMS@)
    } else {
        normalized
    };
    let normalized = text::spec_replace_all(normalized, VERIFIED_FORMS@);
    let normalized = if text::spec_contains(input, "読み込まず"@) {
        text::spec_replace_all(normalized, READ_REFUSALS@)
    } else {
        normalized
    };
    let normalized = if text::spec_contains(input, "個人情報"@)
        && matching::spec_contains_any_marker(input, ["入れない", "含めない"]@) {
        text::spec_replace_all(normalized, PRIVACY_EXCLUSIONS@)
    } else {
        normalized
    };
    if text::spec_contains(input, "確認"@) && !text::spec_contains(normalized, "確認"@) {
        text::spec_replace(normalized, "検証"@, "確認"@)
    } else if text::spec_contains(input, "テスト"@) && !text::spec_contains(normalized, "テスト"@) {
        text::spec_replace(normalized, "検証"@, "テスト"@)
    } else {
        normalized
    }
}

/// The output with its constraints put in the forms that are verified, as far as the input asks
/// for them.
pub fn normalize_required_constraint_terms(input: &str, output: &str) -> (r: String)
    ensures
        r@ == spec_normalize_required_constraint_terms(input@, output@),
{
    proof {
        reveal(spec_normalize_required_constraint_terms);
    }
    let mut normalized: String = text::replace_all(
        &strip_leading_output_label(output),
        &DOUBLED_PROHIBITIONS,
    );
    if text::contains(input, "変更しない") {
        normalized = text::replace(&normalized, "変更せず", "変更しない");
    }
    if text::contains(input, "保存しない") {
        normalized = text::replace(&normalized, "保存せず", "保存しない");
    }
    if text::contains(input, "任意") {
        normalized = text::replace(&normalized, "更新可能", "任意");
    }
    if matching::contains_any_marker(input, &["残してください", "残して", "残す"]) {
        normalized = text::replace_all(&normalized, &RETENTION_FORMS);
    }
    if matching::contains_any_marker(input, &["いりません", "いらない", "不要"]) {
        normalized = text::replace(&normalized, "いりません", "不要");
    }
    if text::contains(input, "ウィンドウバー") {
        normalized = text::replace_all(&normalized, &FIXED_BAR_FORMS);
    }
    normalized = text::replace_all(&normalized, &VERIFIED_FORMS);
    if text::contains(input, "読み込まず") {
        normalized = text::replace_all(&normalized, &READ_REFUSALS);
    }
    if text::contains(input, "個人情報")
        && matching::contains_any_marker(input, &["入れない", "含めない"]) {
        normalized = text::replace_all(&normalized, &PRIVACY_EXCLUSIONS);
    }
    if text::contains(input, "確認") && !text::contains(&normalized, "確認") {
        normalized = text::replace(&normalized, "検証", "確認");
    } else if text::contains(input, "テスト") && !text::contains(&normalized, "テスト") {
        normalized = text::replace(&normalized, "検証", "テスト");
    }
    normalized
}

/// The state of [`with_new_phrases`] after the given items.
pub open spec fn spec_new_phrases_among(
    items: Seq<Seq<char>>,
    all_phrases: Seq<Seq<char>>,
) -> Seq<Seq<char>>
    decreases items.len(),
{
    if items.len() == 0 {
        all_phrases
    } else {
        let all_phrases = spec_new_phrases_among(items.drop_last(), all_phrases);
        let phrase = items.last();
        if !all_phrases.contains(phrase) {
            all_phrases.push(phrase)
        } else {
            all_phrases
        }
    }
}

/// Value of [`with_new_phrases`].
pub open spec fn spec_with_new_phrases(
    phrases: Seq<Seq<char>>,
    more: Seq<Seq<char>>,
) -> Seq<Seq<char>> {
    let all_phrases = phrases;
    spec_new_phrases_among(more, all_phrases)
}

/// The phrases followed by those of the other list that are new.
pub fn with_new_phrases(phrases: &Vec<String>, more: &Vec<String>) -> (r: Vec<String>)
    ensures
        contents::views(r@)
            == spec_with_new_phrases(contents::views(phrases@), contents::views(more@)),
{
    let mut all_phrases: Vec<String> = text::copy_list(phrases);
    let ghost initial_all_phrases = contents::views(all_phrases@);
    let mut i: usize = 0;
    while i < more.len()
        invariant
            i <= more@.len(),
            contents::views(all_phrases@) == spec_new_phrases_among(
                contents::views(more@).take(i as int),
                initial_all_phrases,
            ),
        decreases more@.len() - i,
    {
        assert(contents::views(more@).take(i + 1).drop_last()
            =~= contents::views(more@).take(i as int));
        let phrase: &str = &more[i];
        i = i + 1;
        if !text::list_has(&all_phrases, phrase) {
            all_phrases.push(phrase.to_owned());
        }
    }
    assert(contents::views(more@).take(more@.len() as int) =~= contents::views(more@));
    all_phrases
}

/// The condition of [`any_focus_clause`]: some clause limits the request to its main point.
#[verifier::opaque]
pub open spec fn spec_any_focus_clause(clauses: Seq<Seq<char>>) -> bool {
    exists|i: int|
        #![trigger clauses[i]] 0 <= i < clauses.len()
        && text::spec_contains(clauses[i], "本題"@)
            && matching::spec_contains_any_marker(clauses[i], ["だけ", "のみ"]@)
}

/// Whether some clause limits the request to its main point.
pub fn any_focus_clause(clauses: &Vec<String>) -> (r: bool)
    ensures
        r == spec_any_focus_clause(contents::views(clauses@)),
{
    proof {
        reveal(spec_any_focus_clause);
    }
    let mut i: usize = 0;
    while i < clauses.len()
        invariant
            i <= clauses@.len(),
            forall|j: int|
                #![trigger contents::views(clauses@)[j]] 0 <= j < i ==> !((text::spec_contains(
                    contents::views(clauses@)[j],
                    "本題"@,
                )
                    && matching::spec_contains_any_marker(
                        contents::views(clauses@)[j],
                        ["だけ", "のみ"]@,
                    ))),
        decreases clauses@.len() - i,
    {
        proof {
            reveal(spec_any_focus_clause);
        }
        let clause: &str = &clauses[i];
        assert(contents::views(clauses@)[i as int] == clauses@[i as int]@);
        if text::contains(clause, "本題")
            && matching::contains_any_marker(clause, &["だけ", "のみ"]) {
            return true;
        }
        i = i + 1;
    }
    false
}

/// Value of [`missing_focus_scope_restoration_phrases`].
#[verifier::opaque]
pub open spec fn spec_missing_focus_scope_restoration_phrases(
    input: Seq<char>,
    output: Seq<char>,
) -> Seq<Seq<char>> {
    let phrases = Seq::<Seq<char>>::empty();
    if spec_any_focus_clause(clauses::spec_required_constraint_clauses(input))
        && !matching::spec_contains_any_marker(output, ["本題のみ", "本題だけ"]@) {
        phrases.push("本題のみ"@)
    } else {
        phrases
    }
}

/// The limitation to the main point, where the input states it and the output lacks it.
pub fn missing_focus_scope_restoration_phrases(input: &str, output: &str) -> (r: Vec<String>)
    ensures
        contents::views(r@) == spec_missing_focus_scope_restoration_phrases(input@, output@),
{
    proof {
        reveal(spec_missing_focus_scope_restoration_phrases);
    }
    let mut phrases: Vec<String> = Vec::new();
    if any_focus_clause(&clauses::required_constraint_clauses(input))
        && !matching::contains_any_marker(output, &["本題のみ", "本題だけ"]) {
        phrases.push("本題のみ".to_owned());
    }
    phrases
}

/// The condition of [`retention_constraint_satisfied`]: the output keeps what the clause asks to
/// keep.
#[verifier::opaque]
pub open spec fn spec_retention_constraint_satisfied(clause: Seq<char>, output: Seq<char>) -> bool {
    if !matching::spec_contains_any_marker(output, ["残す", "残して", "維持", "保持"]@) {
        false
    } else {
        if text::spec_contains(clause, "任意"@) && !text::spec_contains(output, "任意"@) {
            false
        } else {
            if text::spec_contains(clause, "ローカルモデル"@)
                && !matching::spec_contains_any_marker(output, ["ローカルモデル", "任意モデル"]@) {
                false
            } else {
                matching::spec_all_terms_present(
                    terms::spec_required_technical_terms(clause),
                    output,
                )
            }
        }
    }
}

/// Whether the output keeps what the clause asks to keep.
pub fn retention_constraint_satisfied(clause: &str, output: &str) -> (r: bool)
    ensures
        r == spec_retention_constraint_satisfied(clause@, output@),
{
    proof {
        reveal(spec_retention_constraint_satisfied);
    }
    if !matching::contains_any_marker(output, &["残す", "残して", "維持", "保持"]) {
        return false;
    }
    if text::contains(clause, "任意") && !text::contains(output, "任意") {
        return false;
    }
    if text::contains(clause, "ローカルモデル")
        && !matching::contains_any_marker(output, &["ローカルモデル", "任意モデル"]) {
        return false;
    }
    matching::all_terms_present(&terms::required_technical_terms(clause), output)
}

/// What [`first_retention_segment`] comes to from position `i` of the items on.
pub open spec fn spec_retention_among(items: Seq<Seq<char>>, i: int) -> Option<Seq<char>>
    decreases items.len() - i,
{
    if i >= items.len() {
        None
    } else {
        let segment = items[i];
        if matching::spec_contains_any_marker(segment, ["残す", "残して"]@) {
            Some(segment)
        } else {
            spec_retention_among(items, i + 1)
        }
    }
}

/// Value of [`first_retention_segment`].
#[verifier::opaque]
pub open spec fn spec_first_retention_segment(clause_segments: Seq<Seq<char>>) -> Option<Seq<char>> {
    spec_retention_among(clause_segments, 0)
}

/// The first segment that asks to keep something.
pub fn first_retention_segment(clause_segments: &Vec<String>) -> (r: Option<String>)
    ensures
        contents::view_option(r) == spec_first_retention_segment(contents::views(clause_segments@)),
{
    proof {
        reveal(spec_first_retention_segment);
    }
    let ghost goal = spec_retention_among(contents::views(clause_segments@), 0);
    let mut i: usize = 0;
    while i < clause_segments.len()
        invariant
            i <= clause_segments@.len(),
            goal == spec_retention_among(contents::views(clause_segments@), i as int),
            goal == spec_first_retention_segment(contents::views(clause_segments@)),
        decreases clause_segments@.len() - i,
    {
        assert(contents::views(clause_segments@)[i as int] == clause_segments@[i as int]@);
        let segment: &str = &clause_segments[i];
        i = i + 1;
        if matching::contains_any_marker(segment, &["残す", "残して"]) {
            return Some(segment.to_owned());
        }
    }
    None
}

/// Value of [`retention_constraint_restoration_phrase`].
#[verifier::opaque]
pub open spec fn spec_retention_constraint_restoration_phrase(
    clause: Seq<char>,
) -> Option<Seq<char>> {
    match spec_first_retention_segment(text::spec_segments(clause, "、,"@)) {
        None => None,
        Some(segment) => {
            let shortened = text::spec_replace_all(
                clauses::spec_compact_constraint_clause(segment),
                RETENTION_SHORT_FORMS@,
            );
            let phrase = text::spec_trim(
                text::spec_trim_end_any(text::spec_trim(shortened), "。！？、,"@),
            );
            if phrase.len() == 0 {
                None
            } else {
                Some(phrase)
            }
        },
    }
}

/// The short form of what the clause asks to keep.
pub fn retention_constraint_restoration_phrase(clause: &str) -> (r: Option<String>)
    ensures
        contents::view_option(r) == spec_retention_constraint_restoration_phrase(clause@),
{
    proof {
        reveal(spec_retention_constraint_restoration_phrase);
    }
    let segment: String = match first_retention_segment(&text::segments(clause, "、,")) {
        Some(value) => value,
        None => {
            return None;
        },
    };
    let shortened: String = text::replace_all(
        &clauses::compact_constraint_clause(&segment),
        &RETENTION_SHORT_FORMS,
    );
    let phrase: String = text::trim(&text::trim_end_any(&text::trim(&shortened), "。！？、,"));
    if text::char_count(&phrase) == 0 {
        return None;
    }
    Some(phrase)
}

/// The state of [`missing_retention_constraint_restoration_phrases`] after the given items.
pub open spec fn spec_retentions_missing(items: Seq<Seq<char>>, output: Seq<char>) -> Seq<Seq<char>>
    decreases items.len(),
{
    if items.len() == 0 {
        Seq::<Seq<char>>::empty()
    } else {
        let phrases = spec_retentions_missing(items.drop_last(), output);
        let clause = items.last();
        if !matching::spec_contains_any_marker(clause, ["残す", "残して"]@)
            || spec_retention_constraint_satisfied(clause, output) {
            phrases
        } else {
            match spec_retention_constraint_restoration_phrase(clause) {
                None => phrases,
                Some(phrase) => {
                    if !phrases.contains(phrase) {
                        phrases.push(phrase)
                    } else {
                        phrases
                    }
                },
            }
        }
    }
}

/// Value of [`missing_retention_constraint_restoration_phrases`].
#[verifier::opaque]
pub open spec fn spec_missing_retention_constraint_restoration_phrases(
    input: Seq<char>,
    output: Seq<char>,
) -> Seq<Seq<char>> {
    spec_retentions_missing(clauses::spec_required_constraint_clauses(input), output)
}

/// The requests to keep something that the output lacks, in short form, each once.
pub fn missing_retention_constraint_restoration_phrases(
    input: &str,
    output: &str,
) -> (r: Vec<String>)
    ensures
        contents::views(r@)
            == spec_missing_retention_constraint_restoration_phrases(input@, output@),
{
    proof {
        reveal(spec_missing_retention_constraint_restoration_phrases);
    }
    let mut phrases: Vec<String> = Vec::new();
    let items: Vec<String> = clauses::required_constraint_clauses(input);
    let mut i: usize = 0;
    while i < items.len()
        invariant
            i <= items@.len(),
            contents::views(phrases@) == spec_retentions_missing(
                contents::views(items@).take(i as int),
                output@,
            ),
        decreases items@.len() - i,
    {
        assert(contents::views(items@).take(i + 1).drop_last()
            =~= contents::views(items@).take(i as int));
        let clause: &str = &items[i];
        i = i + 1;
        if !matching::contains_any_marker(clause, &["残す", "残して"])
            || retention_constraint_satisfied(clause, output) {
            continue;
        }
        let phrase: String = match retention_constraint_restoration_phrase(clause) {
            Some(value) => value,
            None => {
                continue;
            },
        };
        if !text::list_has(&phrases, &phrase) {
            phrases.push(phrase);
        }
    }
    assert(contents::views(items@).take(items@.len() as int) =~= contents::views(items@));
    phrases
}

/// Value of [`missing_nonnegative_constraint_restoration_phrases`].
#[verifier::opaque]
pub open spec fn spec_missing_nonnegative_constraint_restoration_phrases(
    input: Seq<char>,
    output: Seq<char>,
) -> Seq<Seq<char>> {
    spec_with_new_phrases(
        spec_missing_retention_constraint_restoration_phrases(input, output),
        spec_missing_focus_scope_restoration_phrases(input, output),
    )
}

/// The constraints other than negations that the output lacks, in short form.
pub fn missing_nonnegative_constraint_restoration_phrases(
    input: &str,
    output: &str,
) -> (r: Vec<String>)
    ensures
        contents::views(r@)
            == spec_missing_nonnegative_constraint_restoration_phrases(input@, output@),
{
    proof {
        reveal(spec_missing_nonnegative_constraint_restoration_phrases);
    }
    with_new_phrases(
        &missing_retention_constraint_restoration_phrases(input, output),
        &missing_focus_scope_restoration_phrases(input, output),
    )
}

/// Value of [`missing_targets`].
#[verifier::opaque]
pub open spec fn spec_missing_targets(targets: Seq<Seq<char>>, output: Seq<char>) -> Seq<Seq<char>> {
    targets.filter(
        |target: Seq<char>| !constraints::spec_shared_predicate_target_satisfied(target, output),
    ).map_values(|target: Seq<char>| clauses::spec_compact_shared_predicate_target(target))
}

/// The short forms of the targets that the output does not name.
pub fn missing_targets(targets: &Vec<String>, output: &str) -> (r: Vec<String>)
    ensures
        contents::views(r@) == spec_missing_targets(contents::views(targets@), output@),
{
    proof {
        reveal(spec_missing_targets);
        reveal(Seq::filter);
    }
    let mut out: Vec<String> = Vec::new();
    let mut i: usize = 0;
    while i < targets.len()
        invariant
            i <= targets@.len(),
            contents::views(out@) == spec_missing_targets(
                contents::views(targets@).take(i as int),
                output@,
            ),
        decreases targets@.len() - i,
    {
        proof {
            reveal(spec_missing_targets);
            reveal(Seq::filter);
        }
        assert(contents::views(targets@).take(i + 1).drop_last()
            =~= contents::views(targets@).take(i as int));
        let target: &str = &targets[i];
        i = i + 1;
        if !constraints::shared_predicate_target_satisfied(target, output) {
            out.push(clauses::compact_shared_predicate_target(target));
        }
        assert(contents::views(out@) =~= spec_missing_targets(
            contents::views(targets@).take(i as int),
            output@,
        ));
    }
    assert(contents::views(targets@).take(targets@.len() as int) =~= contents::views(targets@));
    out
}

/// Value of [`shared_predicate_list_restoration_phrase`].
#[verifier::opaque]
pub open spec fn spec_shared_predicate_list_restoration_phrase(
    list: SharedPredicate,
    output: Seq<char>,
) -> Option<Seq<char>> {
    let missing = spec_missing_targets(list.targets, output);
    if missing.len() == 0 {
        None
    } else {
        let listed = text::spec_join(missing, "/"@);
        Some(listed + list.predicate)
    }
}

/// The predicate of a list with the targets that the output does not name.
pub fn shared_predicate_list_restoration_phrase(
    list: &SharedPredicateList,
    output: &str,
) -> (r: Option<String>)
    ensures
        contents::view_option(r) == spec_shared_predicate_list_restoration_phrase(list@, output@),
{
    proof {
        reveal(spec_shared_predicate_list_restoration_phrase);
    }
    let missing: Vec<String> = missing_targets(&list.targets, output);
    if missing.len() == 0 {
        return None;
    }
    let listed: String = text::join(&missing, "/");
    Some(text::concat2(&listed, &list.predicate))
}

/// Value of [`counted_item_list_restoration_phrase`].
#[verifier::opaque]
pub open spec fn spec_counted_item_list_restoration_phrase(
    list: SharedPredicate,
    output: Seq<char>,
) -> Option<Seq<char>> {
    if constraints::spec_all_targets_satisfied(list.targets, output) {
        None
    } else {
        let targets = text::spec_join(clauses::spec_compact_targets(list.targets), "/"@);
        Some("保存対象="@ + targets + list.predicate)
    }
}

/// The whole list, where the output does not name all of its targets.
pub fn counted_item_list_restoration_phrase(
    list: &SharedPredicateList,
    output: &str,
) -> (r: Option<String>)
    ensures
        contents::view_option(r) == spec_counted_item_list_restoration_phrase(list@, output@),
{
    proof {
        reveal(spec_counted_item_list_restoration_phrase);
    }
    if constraints::all_targets_satisfied(&list.targets, output) {
        return None;
    }
    let targets: String = text::join(&clauses::compact_targets(&list.targets), "/");
    Some(text::concat3("保存対象=", &targets, &list.predicate))
}

/// Value of [`list_constraint_restoration_phrase`].
#[verifier::opaque]
pub open spec fn spec_list_constraint_restoration_phrase(
    clause: Seq<char>,
    output: Seq<char>,
) -> Option<Seq<char>> {
    if clauses::spec_parse_conditional_value_list(clause) is Some {
        clauses::spec_structured_constraint_clause(clause)
    } else {
        match clauses::spec_parse_shared_predicate_list(clause) {
            None => None,
            Some(list) => {
                spec_shared_predicate_list_restoration_phrase(list, output)
            },
        }
    }
}

/// The short form of the list that a clause gives, as far as the output lacks it.
pub fn list_constraint_restoration_phrase(clause: &str, output: &str) -> (r: Option<String>)
    ensures
        contents::view_option(r) == spec_list_constraint_restoration_phrase(clause@, output@),
{
    proof {
        reveal(spec_list_constraint_restoration_phrase);
    }
    if clauses::parse_conditional_value_list(clause).is_some() {
        return clauses::structured_constraint_clause(clause);
    }
    let list: SharedPredicateList = match clauses::parse_shared_predicate_list(clause) {
        Some(value) => value,
        None => {
            return None;
        },
    };
    shared_predicate_list_restoration_phrase(&list, output)
}

/// Value of [`counted_list_phrases`].
#[verifier::opaque]
pub open spec fn spec_counted_list_phrases(input: Seq<char>, output: Seq<char>) -> Seq<Seq<char>> {
    let phrases = Seq::<Seq<char>>::empty();
    match clauses::spec_parse_counted_item_reference_list(input) {
        Some(list) => {
            match spec_counted_item_list_restoration_phrase(list, output) {
                Some(phrase) => phrases.push(phrase),
                None => phrases,
            }
        },
        None => phrases,
    }
}

/// The list that the input refers to by its number, where the output lacks some of it.
pub fn counted_list_phrases(input: &str, output: &str) -> (r: Vec<String>)
    ensures
        contents::views(r@) == spec_counted_list_phrases(input@, output@),
{
    proof {
        reveal(spec_counted_list_phrases);
    }
    let mut phrases: Vec<String> = Vec::new();
    match clauses::parse_counted_item_reference_list(input) {
        Some(list) => {
            match counted_item_list_restoration_phrase(&list, output) {
                Some(phrase) => {
                    phrases.push(phrase);
                },
                None => {
                },
            }
        },
        None => {
        },
    }
    phrases
}

/// The state of [`missing_list_constraint_restoration_phrases`] after the given items.
pub open spec fn spec_lists_missing(
    items: Seq<Seq<char>>,
    output: Seq<char>,
    phrases: Seq<Seq<char>>,
) -> Seq<Seq<char>>
    decreases items.len(),
{
    if items.len() == 0 {
        phrases
    } else {
        let phrases = spec_lists_missing(items.drop_last(), output, phrases);
        let clause = items.last();
        if constraints::spec_list_constraint_satisfied(clause, output) {
            phrases
        } else {
            match spec_list_constraint_restoration_phrase(clause, output) {
                None => phrases,
                Some(phrase) => {
                    if !phrases.contains(phrase) {
                        phrases.push(phrase)
                    } else {
                        phrases
                    }
                },
            }
        }
    }
}

/// Value of [`missing_list_constraint_restoration_phrases`].
#[verifier::opaque]
pub open spec fn spec_missing_list_constraint_restoration_phrases(
    input: Seq<char>,
    output: Seq<char>,
) -> Seq<Seq<char>> {
    let phrases = spec_counted_list_phrases(input, output);
    spec_lists_missing(clauses::spec_input_clauses(input), output, phrases)
}

/// The lists of the input that the output lacks, in short form, each once.
pub fn missing_list_constraint_restoration_phrases(input: &str, output: &str) -> (r: Vec<String>)
    ensures
        contents::views(r@) == spec_missing_list_constraint_restoration_phrases(input@, output@),
{
    proof {
        reveal(spec_missing_list_constraint_restoration_phrases);
    }
    let mut phrases: Vec<String> = counted_list_phrases(input, output);
    let items: Vec<String> = clauses::input_clauses(input);
    let ghost initial_phrases = contents::views(phrases@);
    let mut i: usize = 0;
    while i < items.len()
        invariant
            i <= items@.len(),
            contents::views(phrases@) == spec_lists_missing(
                contents::views(items@).take(i as int),
                output@,
                initial_phrases,
            ),
        decreases items@.len() - i,
    {
        assert(contents::views(items@).take(i + 1).drop_last()
            =~= contents::views(items@).take(i as int));
        let clause: &str = &items[i];
        i = i + 1;
        if constraints::list_constraint_satisfied(clause, output) {
            continue;
        }
        let phrase: String = match list_constraint_restoration_phrase(clause, output) {
            Some(value) => value,
            None => {
                continue;
            },
        };
        if !text::list_has(&phrases, &phrase) {
            phrases.push(phrase);
        }
    }
    assert(contents::views(items@).take(items@.len() as int) =~= contents::views(items@));
    phrases
}

/// Value of [`state_persistence_restoration_phrase`].
#[verifier::opaque]
pub open spec fn spec_state_persistence_restoration_phrase(
    clause: Seq<char>,
    output: Seq<char>,
) -> Seq<char> {
    if matching::spec_contains_any_marker(clause, ["ページ番号", "ページ"]@)
        && text::spec_contains(clause, "検索条件"@)
        && text::spec_contains(clause, "検索状態"@)
        && matching::spec_contains_any_marker(output, ["useSearchParams", "URL", "クエリ管理"]@)
        && matching::spec_contains_any_marker(
            output,
            ["維持", "保持", "残す", "消えない", "消さない"]@,
        ) {
        "ページ変更時も検索条件/状態維持"@
    } else {
        clauses::spec_compact_constraint_clause(clause)
    }
}

/// The short form of a request to keep a state.
pub fn state_persistence_restoration_phrase(clause: &str, output: &str) -> (r: String)
    ensures
        r@ == spec_state_persistence_restoration_phrase(clause@, output@),
{
    proof {
        reveal(spec_state_persistence_restoration_phrase);
    }
    if matching::contains_any_marker(clause, &["ページ番号", "ページ"])
        && text::contains(clause, "検索条件")
        && text::contains(clause, "検索状態")
        && matching::contains_any_marker(output, &["useSearchParams", "URL", "クエリ管理"])
        && matching::contains_any_marker(output, &["維持", "保持", "残す", "消えない", "消さない"]) {
        return "ページ変更時も検索条件/状態維持".to_owned();
    }
    clauses::compact_constraint_clause(clause)
}

/// The state of [`missing_state_persistence_restoration_phrases`] after the given items.
pub open spec fn spec_states_missing(items: Seq<Seq<char>>, output: Seq<char>) -> Seq<Seq<char>>
    decreases items.len(),
{
    if items.len() == 0 {
        Seq::<Seq<char>>::empty()
    } else {
        let phrases = spec_states_missing(items.drop_last(), output);
        let clause = items.last();
        if !constraints::spec_is_state_persistence_clause(clause)
            || constraints::spec_state_persistence_clause_satisfied(clause, output) {
            phrases
        } else {
            let phrase = spec_state_persistence_restoration_phrase(clause, output);
            if text::spec_trim(phrase).len() > 0 && !phrases.contains(phrase) {
                phrases.push(phrase)
            } else {
                phrases
            }
        }
    }
}

/// Value of [`missing_state_persistence_restoration_phrases`].
#[verifier::opaque]
pub open spec fn spec_missing_state_persistence_restoration_phrases(
    input: Seq<char>,
    output: Seq<char>,
) -> Seq<Seq<char>> {
    spec_states_missing(clauses::spec_required_constraint_clauses(input), output)
}

/// The requests to keep a state that the output lacks, in short form, each once.
pub fn missing_state_persistence_restoration_phrases(input: &str, output: &str) -> (r: Vec<String>)
    ensures
        contents::views(r@) == spec_missing_state_persistence_restoration_phrases(input@, output@),
{
    proof {
        reveal(spec_missing_state_persistence_restoration_phrases);
    }
    let mut phrases: Vec<String> = Vec::new();
    let items: Vec<String> = clauses::required_constraint_clauses(input);
    let mut i: usize = 0;
    while i < items.len()
        invariant
            i <= items@.len(),
            contents::views(phrases@) == spec_states_missing(
                contents::views(items@).take(i as int),
                output@,
            ),
        decreases items@.len() - i,
    {
        assert(contents::views(items@).take(i + 1).drop_last()
            =~= contents::views(items@).take(i as int));
        let clause: &str = &items[i];
        i = i + 1;
        if !constraints::is_state_persistence_clause(clause)
            || constraints::state_persistence_clause_satisfied(clause, output) {
            continue;
        }
        let phrase: String = state_persistence_restoration_phrase(clause, output);
        if text::char_count(&text::trim(&phrase)) > 0 && !text::list_has(&phrases, &phrase) {
            phrases.push(phrase);
        }
    }
    assert(contents::views(items@).take(items@.len() as int) =~= contents::views(items@));
    phrases
}

/// Value of [`verification_restoration_phrase`].
#[verifier::opaque]
pub open spec fn spec_verification_restoration_phrase(clause: Seq<char>) -> Seq<char> {
    text::spec_trim(
        text::spec_replace_all(
            clauses::spec_compact_constraint_clause(clause),
            VERIFICATION_SHORT_FORMS@,
        ),
    )
}

/// The short form of a request for tests.
pub fn verification_restoration_phrase(clause: &str) -> (r: String)
    ensures
        r@ == spec_verification_restoration_phrase(clause@),
{
    proof {
        reveal(spec_verification_restoration_phrase);
    }
    text::trim(
        &text::replace_all(&clauses::compact_constraint_clause(clause), &VERIFICATION_SHORT_FORMS),
    )
}

/// The state of [`missing_verification_restoration_phrases`] after the given items.
pub open spec fn spec_tests_missing(items: Seq<Seq<char>>, output: Seq<char>) -> Seq<Seq<char>>
    decreases items.len(),
{
    if items.len() == 0 {
        Seq::<Seq<char>>::empty()
    } else {
        let phrases = spec_tests_missing(items.drop_last(), output);
        let clause = items.last();
        if !constraints::spec_is_verification_constraint_clause(clause)
            || constraints::spec_verification_constraint_satisfied(clause, output) {
            phrases
        } else {
            let phrase = spec_verification_restoration_phrase(clause);
            if text::spec_trim(phrase).len() > 0 && !phrases.contains(phrase) {
                phrases.push(phrase)
            } else {
                phrases
            }
        }
    }
}

/// Value of [`missing_verification_restoration_phrases`].
#[verifier::opaque]
pub open spec fn spec_missing_verification_restoration_phrases(
    input: Seq<char>,
    output: Seq<char>,
) -> Seq<Seq<char>> {
    spec_tests_missing(clauses::spec_input_clauses(input), output)
}

/// The requests for tests that the output lacks, in short form, each once.
pub fn missing_verification_restoration_phrases(input: &str, output: &str) -> (r: Vec<String>)
    ensures
        contents::views(r@) == spec_missing_verification_restoration_phrases(input@, output@),
{
    proof {
        reveal(spec_missing_verification_restoration_phrases);
    }
    let mut phrases: Vec<String> = Vec::new();
    let items: Vec<String> = clauses::input_clauses(input);
    let mut i: usize = 0;
    while i < items.len()
        invariant
            i <= items@.len(),
            contents::views(phrases@) == spec_tests_missing(
                contents::views(items@).take(i as int),
                output@,
            ),
        decreases items@.len() - i,
    {
        assert(contents::views(items@).take(i + 1).drop_last()
            =~= contents::views(items@).take(i as int));
        let clause: &str = &items[i];
        i = i + 1;
        if !constraints::is_verification_constraint_clause(clause)
            || constraints::verification_constraint_satisfied(clause, output) {
            continue;
        }
        let phrase: String = verification_restoration_phrase(clause);
        if text::char_count(&text::trim(&phrase)) > 0 && !text::list_has(&phrases, &phrase) {
            phrases.push(phrase);
        }
    }
    assert(contents::views(items@).take(items@.len() as int) =~= contents::views(items@));
    phrases
}

/// What [`first_clause_with`] comes to from position `i` of the items on.
pub open spec fn spec_clause_with_among(
    items: Seq<Seq<char>>,
    i: int,
    alternatives: Seq<Seq<char>>,
) -> Option<Seq<char>>
    decreases items.len() - i,
{
    if i >= items.len() {
        None
    } else {
        let clause = items[i];
        if constraints::spec_contains_any_of(clause, alternatives) {
            Some(clause)
        } else {
            spec_clause_with_among(items, i + 1, alternatives)
        }
    }
}

/// Value of [`first_clause_with`].
#[verifier::opaque]
pub open spec fn spec_first_clause_with(
    clauses: Seq<Seq<char>>,
    alternatives: Seq<Seq<char>>,
) -> Option<Seq<char>> {
    spec_clause_with_among(clauses, 0, alternatives)
}

/// The first clause that holds one of the alternatives.
pub fn first_clause_with(clauses: &Vec<String>, alternatives: &Vec<String>) -> (r: Option<String>)
    ensures
        contents::view_option(r)
            == spec_first_clause_with(contents::views(clauses@), contents::views(alternatives@)),
{
    proof {
        reveal(spec_first_clause_with);
    }
    let ghost goal = spec_clause_with_among(
        contents::views(clauses@),
        0,
        contents::views(alternatives@),
    );
    let mut i: usize = 0;
    while i < clauses.len()
        invariant
            i <= clauses@.len(),
            goal == spec_clause_with_among(
                contents::views(clauses@),
                i as int,
                contents::views(alternatives@),
            ),
            goal == spec_first_clause_with(
                contents::views(clauses@),
                contents::views(alternatives@),
            ),
        decreases clauses@.len() - i,
    {
        assert(contents::views(clauses@)[i as int] == clauses@[i as int]@);
        let clause: &str = &clauses[i];
        i = i + 1;
        if constraints::contains_any_of(clause, alternatives) {
            return Some(clause.to_owned());
        }
    }
    None
}

/// The condition of [`any_exclusive`]: some alternative is a word of limitation.
pub open spec fn spec_any_exclusive(alternatives: Seq<Seq<char>>) -> bool {
    exists|i: int|
        #![trigger alternatives[i]] 0 <= i < alternatives.len()
        && text::spec_is_one_of(alternatives[i], ["のみ", "だけ"]@)
}

/// Whether some alternative is a word of limitation.
pub fn any_exclusive(alternatives: &Vec<String>) -> (r: bool)
    ensures
        r == spec_any_exclusive(contents::views(alternatives@)),
{
    let mut i: usize = 0;
    while i < alternatives.len()
        invariant
            i <= alternatives@.len(),
            forall|j: int|
                #![trigger contents::views(alternatives@)[j]] 0 <= j < i ==> !(text::spec_is_one_of(
                    contents::views(alternatives@)[j],
                    ["のみ", "だけ"]@,
                )),
        decreases alternatives@.len() - i,
    {
        let alternative: &str = &alternatives[i];
        assert(contents::views(alternatives@)[i as int] == alternatives@[i as int]@);
        if text::is_one_of(alternative, &["のみ", "だけ"]) {
            return true;
        }
        i = i + 1;
    }
    false
}

/// Value of [`phrase_or_fallback`].
#[verifier::opaque]
pub open spec fn spec_phrase_or_fallback(
    phrase: Seq<char>,
    kept: Seq<Seq<char>>,
    fallback_marker: Seq<char>,
) -> Seq<char> {
    if constraints::spec_contains_any_of(phrase, kept) {
        phrase
    } else {
        text::spec_trim(phrase) + fallback_marker
    }
}

/// The phrase, with the form of last resort after it where it holds none of the alternatives.
pub fn phrase_or_fallback(phrase: &str, kept: &Vec<String>, fallback_marker: &str) -> (r: String)
    ensures
        r@ == spec_phrase_or_fallback(phrase@, contents::views(kept@), fallback_marker@),
{
    proof {
        reveal(spec_phrase_or_fallback);
    }
    if constraints::contains_any_of(phrase, kept) {
        return phrase.to_owned();
    }
    text::concat2(&text::trim(phrase), fallback_marker)
}

/// Value of [`restoration_phrase_of`].
#[verifier::opaque]
pub open spec fn spec_restoration_phrase_of(
    source_clause: Seq<char>,
    required: Seq<Seq<char>>,
    kept: Seq<Seq<char>>,
    fallback_marker: Seq<char>,
) -> Option<Seq<char>> {
    if clauses::spec_parse_conditional_value_list(source_clause) is Some
        || clauses::spec_parse_shared_predicate_list(source_clause) is Some {
        None
    } else {
        if spec_any_exclusive(required) && text::spec_contains(source_clause, "本題"@) {
            Some(spec_phrase_or_fallback("本題のみ"@, kept, fallback_marker))
        } else {
            let compact = clauses::spec_compact_constraint_clause(source_clause);
            if text::spec_trim(compact).len() == 0 {
                Some(spec_phrase_or_fallback(fallback_marker, kept, fallback_marker))
            } else {
                Some(spec_phrase_or_fallback(compact, kept, fallback_marker))
            }
        }
    }
}

/// The short form of the constraint of a clause; nothing where the clause gives a list, which is
/// put back elsewhere.
pub fn restoration_phrase_of(
    source_clause: &str,
    required: &Vec<String>,
    kept: &Vec<String>,
    fallback_marker: &str,
) -> (r: Option<String>)
    ensures
        contents::view_option(r)
            == spec_restoration_phrase_of(
                source_clause@,
                contents::views(required@),
                contents::views(kept@),
                fallback_marker@,
            ),
{
    proof {
        reveal(spec_restoration_phrase_of);
    }
    if clauses::parse_conditional_value_list(source_clause).is_some()
        || clauses::parse_shared_predicate_list(source_clause).is_some() {
        return None;
    }
    if any_exclusive(required) && text::contains(source_clause, "本題") {
        return Some(phrase_or_fallback("本題のみ", kept, fallback_marker));
    }
    let compact: String = clauses::compact_constraint_clause(source_clause);
    if text::char_count(&text::trim(&compact)) == 0 {
        return Some(phrase_or_fallback(fallback_marker, kept, fallback_marker));
    }
    Some(phrase_or_fallback(&compact, kept, fallback_marker))
}

/// Value of [`rule_restoration_phrase`].
#[verifier::opaque]
pub open spec fn spec_rule_restoration_phrase(
    input: Seq<char>,
    output: Seq<char>,
    required: Seq<Seq<char>>,
    kept: Seq<Seq<char>>,
    fallback_marker: Seq<char>,
) -> Option<Seq<char>> {
    if !constraints::spec_constraint_marker_matches_input(input, required)
        || constraints::spec_contains_any_of(output, kept) {
        None
    } else {
        match spec_first_clause_with(clauses::spec_required_constraint_clauses(input), required) {
            Some(source_clause) => {
                spec_restoration_phrase_of(source_clause, required, kept, fallback_marker)
            },
            None => Some(spec_phrase_or_fallback(fallback_marker, kept, fallback_marker)),
        }
    }
}

/// What one rule of restoration puts back, where the output breaks it.
pub fn rule_restoration_phrase(
    input: &str,
    output: &str,
    required: &Vec<String>,
    kept: &Vec<String>,
    fallback_marker: &str,
) -> (r: Option<String>)
    ensures
        contents::view_option(r)
            == spec_rule_restoration_phrase(
                input@,
                output@,
                contents::views(required@),
                contents::views(kept@),
                fallback_marker@,
            ),
{
    proof {
        reveal(spec_rule_restoration_phrase);
    }
    if !constraints::constraint_marker_matches_input(input, required)
        || constraints::contains_any_of(output, kept) {
        return None;
    }
    match first_clause_with(&clauses::required_constraint_clauses(input), required) {
        Some(source_clause) => {
            restoration_phrase_of(&source_clause, required, kept, fallback_marker)
        },
        None => {
            Some(phrase_or_fallback(fallback_marker, kept, fallback_marker))
        },
    }
}

/// The state of [`missing_rule_phrases`] after the given items.
pub open spec fn spec_rules_broken(
    items: Seq<(&str, &str, &str)>,
    input: Seq<char>,
    output: Seq<char>,
) -> Seq<Seq<char>>
    decreases items.len(),
{
    if items.len() == 0 {
        Seq::<Seq<char>>::empty()
    } else {
        let phrases = spec_rules_broken(items.drop_last(), input, output);
        let required = items.last().0@;
        let kept = items.last().1@;
        let fallback_marker = items.last().2@;
        match spec_rule_restoration_phrase(
            input,
            output,
            text::spec_split_any(required, "|"@),
            text::spec_split_any(kept, "|"@),
            fallback_marker,
        ) {
            None => phrases,
            Some(phrase) => {
                if !phrases.contains(phrase) {
                    phrases.push(phrase)
                } else {
                    phrases
                }
            },
        }
    }
}

/// Value of [`missing_rule_phrases`].
#[verifier::opaque]
pub open spec fn spec_missing_rule_phrases(input: Seq<char>, output: Seq<char>) -> Seq<Seq<char>> {
    spec_rules_broken(RESTORATION_RULES@, input, output)
}

/// What the rules of restoration put back, each once.
pub fn missing_rule_phrases(input: &str, output: &str) -> (r: Vec<String>)
    ensures
        contents::views(r@) == spec_missing_rule_phrases(input@, output@),
{
    proof {
        reveal(spec_missing_rule_phrases);
    }
    let mut phrases: Vec<String> = Vec::new();
    let mut i: usize = 0;
    while i < RESTORATION_RULES.len()
        invariant
            i <= RESTORATION_RULES@.len(),
            contents::views(phrases@) == spec_rules_broken(
                RESTORATION_RULES@.take(i as int),
                input@,
                output@,
            ),
        decreases RESTORATION_RULES@.len() - i,
    {
        assert(RESTORATION_RULES@.take(i + 1).drop_last() =~= RESTORATION_RULES@.take(i as int));
        let required: &str = RESTORATION_RULES[i].0;
        let kept: &str = RESTORATION_RULES[i].1;
        let fallback_marker: &str = RESTORATION_RULES[i].2;
        i = i + 1;
        let phrase: String = match rule_restoration_phrase(
            input,
            output,
            &text::split_any(required, "|"),
            &text::split_any(kept, "|"),
            fallback_marker,
        ) {
            Some(value) => value,
            None => {
                continue;
            },
        };
        if !text::list_has(&phrases, &phrase) {
            phrases.push(phrase);
        }
    }
    assert(RESTORATION_RULES@.take(RESTORATION_RULES@.len() as int) =~= RESTORATION_RULES@);
    phrases
}

/// Value of [`missing_constraint_restoration_phrases`].
#[verifier::opaque]
pub open spec fn spec_missing_constraint_restoration_phrases(
    input: Seq<char>,
    output: Seq<char>,
) -> Seq<Seq<char>> {
    let negations = spec_missing_rule_phrases(input, output);
    let states = spec_with_new_phrases(
        negations,
        spec_missing_state_persistence_restoration_phrases(input, output),
    );
    let tests = spec_with_new_phrases(
        states,
        spec_missing_verification_restoration_phrases(input, output),
    );
    let lists = spec_with_new_phrases(
        tests,
        spec_missing_list_constraint_restoration_phrases(input, output),
    );
    let retentions = spec_with_new_phrases(
        lists,
        spec_missing_retention_constraint_restoration_phrases(input, output),
    );
    spec_with_new_phrases(retentions, spec_missing_focus_scope_restoration_phrases(input, output))
}

/// The constraints of the input that the output lacks, in short form, each once: negations,
/// states, tests, lists, what is to be kept and the limitation to the main point.
pub fn missing_constraint_restoration_phrases(input: &str, output: &str) -> (r: Vec<String>)
    ensures
        contents::views(r@) == spec_missing_constraint_restoration_phrases(input@, output@),
{
    proof {
        reveal(spec_missing_constraint_restoration_phrases);
    }
    let negations: Vec<String> = missing_rule_phrases(input, output);
    let states: Vec<String> = with_new_phrases(
        &negations,
        &missing_state_persistence_restoration_phrases(input, output),
    );
    let tests: Vec<String> = with_new_phrases(
        &states,
        &missing_verification_restoration_phrases(input, output),
    );
    let lists: Vec<String> = with_new_phrases(
        &tests,
        &missing_list_constraint_restoration_phrases(input, output),
    );
    let retentions: Vec<String> = with_new_phrases(
        &lists,
        &missing_retention_constraint_restoration_phrases(input, output),
    );
    with_new_phrases(&retentions, &missing_focus_scope_restoration_phrases(input, output))
}

/// A mark stands at the position, and enough of the text stands before it.
pub open spec fn is_soft_cut(text: Seq<char>, min_characters: int, i: int) -> bool {
    &&& 0 <= i < text.len()
    &&& "。、;/ "@.contains(text[i])
    &&& text::spec_trim(text::spec_take(text, i)).len() >= min_characters
}

/// The position is the last at which the text may be cut.
pub open spec fn is_last_soft_cut(text: Seq<char>, min_characters: int, i: int) -> bool {
    &&& is_soft_cut(text, min_characters, i)
    &&& forall|k: int| i < k ==> !#[trigger] is_soft_cut(text, min_characters, k)
}

/// Value of [`best_soft_cut`].
pub open spec fn spec_best_soft_cut(hard_cut: Seq<char>, min_characters: int) -> Seq<char> {
    if exists|i: int| is_last_soft_cut(hard_cut, min_characters, i) {
        text::spec_trim(
            text::spec_take(
                hard_cut,
                choose|i: int| is_last_soft_cut(hard_cut, min_characters, i),
            ),
        )
    } else {
        hard_cut
    }
}

/// What stands before the last mark with enough before it; the text where there is none.
pub fn best_soft_cut(hard_cut: &str, min_characters: usize) -> (r: String)
    ensures
        r@ == spec_best_soft_cut(hard_cut@, min_characters as int),
{
    let characters: Vec<char> = text::to_chars(hard_cut);
    let ghost min = min_characters as int;
    let mut i: usize = characters.len();
    while i > 0
        invariant
            i <= characters@.len(),
            characters@ == hard_cut@,
            min == min_characters,
            forall|k: int| i <= k ==> !#[trigger] is_soft_cut(hard_cut@, min, k),
        decreases i,
    {
        i = i - 1;
        if text::char_in(characters[i], "。、;/ ") {
            let candidate: String = text::trim(&text::take(hard_cut, i));
            if text::char_count(&candidate) >= min_characters {
                proof {
                    assert(is_last_soft_cut(hard_cut@, min, i as int));
                    let chosen = choose|k: int| is_last_soft_cut(hard_cut@, min, k);
                    assert(is_last_soft_cut(hard_cut@, min, chosen));
                    assert(chosen == i) by {
                        if chosen < i {
                            assert(!is_soft_cut(hard_cut@, min, i as int));
                        } else if i < chosen {
                            assert(!is_soft_cut(hard_cut@, min, chosen));
                        }
                    }
                }
                return candidate;
            }
        }
    }
    proof {
        assert forall|k: int| !is_last_soft_cut(hard_cut@, min, k) by {
            assert(!is_soft_cut(hard_cut@, min, k));
        }
    }
    hard_cut.to_owned()
}

/// Value of [`trim_to_char_budget`].
#[verifier::opaque]
pub open spec fn spec_trim_to_char_budget(text: Seq<char>, max_chars: int) -> Option<Seq<char>> {
    if max_chars == 0 {
        None
    } else {
        if text.len() <= max_chars {
            Some(text::spec_trim(text))
        } else {
            let hard_cut = text::spec_trim(text::spec_take(text, max_chars));
            let soft_cut = spec_best_soft_cut(hard_cut, max_chars / 2);
            let trimmed = text::spec_trim_end_space_or(
                text::spec_trim_start_space_or(soft_cut, "、/;:："@),
                "、/;:："@,
            );
            if trimmed.len() == 0 {
                None
            } else {
                Some(trimmed)
            }
        }
    }
}

/// The text cut to the given number of characters, at a mark where one stands in its second half;
/// nothing where nothing remains.
pub fn trim_to_char_budget(text: &str, max_chars: usize) -> (r: Option<String>)
    ensures
        contents::view_option(r) == spec_trim_to_char_budget(text@, max_chars as int),
{
    proof {
        reveal(spec_trim_to_char_budget);
    }
    if max_chars == 0 {
        return None;
    }
    if text::char_count(text) <= max_chars {
        return Some(text::trim(text));
    }
    let hard_cut: String = text::trim(&text::take(text, max_chars));
    let soft_cut: String = best_soft_cut(&hard_cut, max_chars / 2);
    let trimmed: String = text::trim_end_space_or(
        &text::trim_start_space_or(&soft_cut, "、/;:："),
        "、/;:：",
    );
    if text::char_count(&trimmed) == 0 {
        return None;
    }
    Some(trimmed)
}

/// Value of [`restoration_candidate`].
#[verifier::opaque]
pub open spec fn spec_restoration_candidate(
    restored: Seq<char>,
    phrase: Seq<char>,
    input_len: int,
) -> Option<Seq<char>> {
    let candidate = spec_append_restoration_phrase(restored, phrase);
    if candidate.len() < input_len {
        Some(candidate)
    } else {
        if input_len < 3 || input_len - 3 < phrase.len() {
            None
        } else {
            match spec_trim_to_char_budget(restored, (input_len - 3) - phrase.len()) {
                None => None,
                Some(trimmed_output) => {
                    Some(spec_append_restoration_phrase(trimmed_output, phrase))
                },
            }
        }
    }
}

/// The text with the phrase after it, the text cut where both would be as long as the request.
pub fn restoration_candidate(restored: &str, phrase: &str, input_len: usize) -> (r: Option<String>)
    ensures
        contents::view_option(r)
            == spec_restoration_candidate(restored@, phrase@, input_len as int),
{
    proof {
        reveal(spec_restoration_candidate);
    }
    let candidate: String = append_restoration_phrase(restored, phrase);
    if text::char_count(&candidate) < input_len {
        return Some(candidate);
    }
    if input_len < 3 || input_len - 3 < text::char_count(phrase) {
        return None;
    }
    let trimmed_output: String = match trim_to_char_budget(
        restored,
        (input_len - 3) - text::char_count(phrase),
    ) {
        Some(value) => value,
        None => {
            return None;
        },
    };
    Some(append_restoration_phrase(&trimmed_output, phrase))
}

/// Value of [`complete_candidate`].
#[verifier::opaque]
pub open spec fn spec_complete_candidate(
    input_text: Seq<char>,
    validation_input: Seq<char>,
    candidate: Seq<char>,
) -> Seq<char> {
    if terms::spec_contains_required_technical_terms(validation_input, candidate) {
        candidate
    } else {
        spec_with_required_terms(input_text, candidate)
    }
}

/// The candidate with missing required terms put back.
pub fn complete_candidate(input_text: &str, validation_input: &str, candidate: &str) -> (r: String)
    ensures
        r@ == spec_complete_candidate(input_text@, validation_input@, candidate@),
{
    proof {
        reveal(spec_complete_candidate);
    }
    if terms::contains_required_technical_terms(validation_input, candidate) {
        return candidate.to_owned();
    }
    with_required_terms(input_text, candidate)
}

/// Value of [`phrases_to_restore`].
#[verifier::opaque]
pub open spec fn spec_phrases_to_restore(
    input_text: Seq<char>,
    output: Seq<char>,
    preserves_negatives: bool,
) -> Seq<Seq<char>> {
    if preserves_negatives {
        spec_missing_nonnegative_constraint_restoration_phrases(input_text, output)
    } else {
        spec_missing_constraint_restoration_phrases(input_text, output)
    }
}

/// The constraints to put back: all of them where a negation is lost, else those that are no
/// negations.
pub fn phrases_to_restore(
    input_text: &str,
    output: &str,
    preserves_negatives: bool,
) -> (r: Vec<String>)
    ensures
        contents::views(r@) == spec_phrases_to_restore(input_text@, output@, preserves_negatives),
{
    proof {
        reveal(spec_phrases_to_restore);
    }
    if preserves_negatives {
        return missing_nonnegative_constraint_restoration_phrases(input_text, output);
    }
    missing_constraint_restoration_phrases(input_text, output)
}

/// What [`with_required_constraints`] comes to from position `i` of the items on.
pub open spec fn spec_constraints_restored(
    items: Seq<Seq<char>>,
    i: int,
    restored: Seq<char>,
    applied: bool,
    input_len: int,
    input_text: Seq<char>,
    validation_input: Seq<char>,
    preserves_negatives: bool,
    normalized: Seq<char>,
) -> Seq<char>
    decreases items.len() - i,
{
    if i >= items.len() {
        if preserves_negatives && applied {
            restored
        } else {
            normalized
        }
    } else {
        let phrase = items[i];
        match spec_restoration_candidate(restored, phrase, input_len) {
            None => {
                spec_constraints_restored(
                    items,
                    i + 1,
                    restored,
                    applied,
                    input_len,
                    input_text,
                    validation_input,
                    preserves_negatives,
                    normalized,
                )
            },
            Some(appended) => {
                let candidate = spec_complete_candidate(input_text, validation_input, appended);
                if candidate.len() >= input_len
                    || !terms::spec_contains_required_technical_terms(validation_input, candidate) {
                    spec_constraints_restored(
                        items,
                        i + 1,
                        restored,
                        applied,
                        input_len,
                        input_text,
                        validation_input,
                        preserves_negatives,
                        normalized,
                    )
                } else {
                    let restored = candidate;
                    let applied = true;
                    if !preserves_negatives
                        && constraints::spec_preserves_negative_constraints(input_text, restored) {
                        restored
                    } else {
                        spec_constraints_restored(
                            items,
                            i + 1,
                            restored,
                            applied,
                            input_len,
                            input_text,
                            validation_input,
                            preserves_negatives,
                            normalized,
                        )
                    }
                }
            },
        }
    }
}

/// Value of [`with_required_constraints`].
#[verifier::opaque]
pub open spec fn spec_with_required_constraints(
    input_text: Seq<char>,
    preserve_negations: bool,
    prompt: Seq<char>,
) -> Seq<char> {
    if !preserve_negations {
        prompt
    } else {
        let validation_input = corrections::spec_normalized_verification_input(input_text);
        let normalized = spec_adopted(
            prompt,
            spec_normalize_required_constraint_terms(validation_input, text::spec_trim(prompt)),
        );
        let output = text::spec_trim(normalized);
        if output.len() == 0 {
            normalized
        } else {
            let preserves_negatives = constraints::spec_preserves_negative_constraints(
                input_text,
                output,
            );
            let input_len: int = text::spec_trim(input_text).len() as int;
            let restored = output;
            let applied = false;
            spec_constraints_restored(
                spec_phrases_to_restore(input_text, output, preserves_negatives),
                0,
                restored,
                applied,
                input_len,
                input_text,
                validation_input,
                preserves_negatives,
                normalized,
            )
        }
    }
}

/// The prompt with missing constraints put back one after the other, as long as it stays shorter
/// than the request and keeps its terms. Where a negation is lost, only a prompt that keeps them
/// all is taken.
pub fn with_required_constraints(
    input_text: &str,
    preserve_negations: bool,
    prompt: &str,
) -> (r: String)
    ensures
        r@ == spec_with_required_constraints(input_text@, preserve_negations, prompt@),
{
    proof {
        reveal(spec_with_required_constraints);
    }
    if !preserve_negations {
        return prompt.to_owned();
    }
    let validation_input: String = corrections::normalized_verification_input(input_text);
    let normalized: String = adopted(
        prompt,
        &normalize_required_constraint_terms(&validation_input, &text::trim(prompt)),
    );
    let output: String = text::trim(&normalized);
    if text::char_count(&output) == 0 {
        return normalized;
    }
    let preserves_negatives: bool = constraints::preserves_negative_constraints(input_text, &output);
    let input_len: usize = text::char_count(&text::trim(input_text));
    let mut restored: String = output.clone();
    let mut applied: bool = false;
    let items: Vec<String> = phrases_to_restore(input_text, &output, preserves_negatives);
    let ghost goal = spec_constraints_restored(
        contents::views(items@),
        0,
        restored@,
        applied,
        input_len as int,
        input_text@,
        validation_input@,
        preserves_negatives,
        normalized@,
    );
    let mut i: usize = 0;
    while i < items.len()
        invariant
            i <= items@.len(),
            goal == spec_constraints_restored(
                contents::views(items@),
                i as int,
                restored@,
                applied,
                input_len as int,
                input_text@,
                validation_input@,
                preserves_negatives,
                normalized@,
            ),
            goal == spec_with_required_constraints(input_text@, preserve_negations, prompt@),
        decreases items@.len() - i,
    {
        assert(contents::views(items@)[i as int] == items@[i as int]@);
        let phrase: &str = &items[i];
        i = i + 1;
        let appended: String = match restoration_candidate(&restored, phrase, input_len) {
            Some(value) => value,
            None => {
                continue;
            },
        };
        let candidate: String = complete_candidate(input_text, &validation_input, &appended);
        if text::char_count(&candidate) >= input_len
            || !terms::contains_required_technical_terms(&validation_input, &candidate) {
            continue;
        }
        restored = candidate;
        applied = true;
        if !preserves_negatives
            && constraints::preserves_negative_constraints(input_text, &restored) {
            return restored;
        }
    }
    if preserves_negatives && applied {
        return restored;
    }
    normalized
}

/// What comes of putting constraints back one after the other, from any state on.
proof fn restoring_stays_within_bounds(
    items: Seq<Seq<char>>,
    i: int,
    restored: Seq<char>,
    applied: bool,
    input_len: int,
    input_text: Seq<char>,
    validation_input: Seq<char>,
    preserves_negatives: bool,
    normalized: Seq<char>,
)
    requires
        0 <= i,
        applied ==> restored.len() < input_len && terms::spec_contains_required_technical_terms(
            validation_input,
            restored,
        ),
    ensures
        ({
            let result = spec_constraints_restored(
                items,
                i,
                restored,
                applied,
                input_len,
                input_text,
                validation_input,
                preserves_negatives,
                normalized,
            );
            result == normalized || (result.len() < input_len
                && terms::spec_contains_required_technical_terms(validation_input, result) && (
            preserves_negatives || constraints::spec_preserves_negative_constraints(
                input_text,
                result,
            )))
        }),
    decreases items.len() - i,
{
    if i < items.len() {
        match spec_restoration_candidate(restored, items[i], input_len) {
            None => {
                restoring_stays_within_bounds(
                    items,
                    i + 1,
                    restored,
                    applied,
                    input_len,
                    input_text,
                    validation_input,
                    preserves_negatives,
                    normalized,
                );
            },
            Some(appended) => {
                let candidate = spec_complete_candidate(input_text, validation_input, appended);
                let fits = candidate.len() < input_len
                    && terms::spec_contains_required_technical_terms(validation_input, candidate);
                restoring_stays_within_bounds(
                    items,
                    i + 1,
                    if fits {
                        candidate
                    } else {
                        restored
                    },
                    fits || applied,
                    input_len,
                    input_text,
                    validation_input,
                    preserves_negatives,
                    normalized,
                );
            },
        }
    }
}

/// Putting constraints back leaves a prompt as it is but for its wording, or makes one that is
/// shorter than the request and holds its required terms. Where a prompt had lost a negation of
/// the request, one with constraints put back keeps them all.
pub proof fn restored_constraints_stay_within_bounds(input_text: Seq<char>, prompt: Seq<char>)
    ensures
        ({
            let input = corrections::spec_normalized_verification_input(input_text);
            let worded = spec_adopted(
                prompt,
                spec_normalize_required_constraint_terms(input, text::spec_trim(prompt)),
            );
            let result = spec_with_required_constraints(input_text, true, prompt);
            result == worded || (result.len() < text::spec_trim(input_text).len()
                && terms::spec_contains_required_technical_terms(input, result) && (
            constraints::spec_preserves_negative_constraints(input_text, text::spec_trim(worded))
                || constraints::spec_preserves_negative_constraints(input_text, result)))
        }),
{
    reveal(spec_with_required_constraints);
    let input = corrections::spec_normalized_verification_input(input_text);
    let worded = spec_adopted(
        prompt,
        spec_normalize_required_constraint_terms(input, text::spec_trim(prompt)),
    );
    let output = text::spec_trim(worded);
    let kept = constraints::spec_preserves_negative_constraints(input_text, output);
    restoring_stays_within_bounds(
        spec_phrases_to_restore(input_text, output, kept),
        0,
        output,
        false,
        text::spec_trim(input_text).len() as int,
        input_text,
        input,
        kept,
        worded,
    );
}

/// After required terms are put back a prompt holds each of them, unless it is empty or a list of
/// those that it lacks does not fit before it.
pub proof fn restored_terms_are_held(input_text: Seq<char>, prompt: Seq<char>, term: Seq<char>)
    requires
        term.len() > 0,
        terms::spec_required_technical_terms(
            corrections::spec_normalized_verification_input(input_text),
        ).contains(term),
    ensures
        ({
            let input = corrections::spec_normalized_verification_input(input_text);
            let result = spec_with_required_terms(input_text, prompt);
            let output = text::spec_trim(result);
            let missing = matching::spec_absent_terms(
                terms::spec_required_technical_terms(input),
                output,
            );
            ||| output.len() == 0
            ||| matching::spec_contains_ascii_case_insensitive(result, term)
            ||| matching::spec_contains_ascii_case_insensitive(output, term)
            ||| (text::spec_join(missing, "/"@) + ": "@ + output).len() >= text::spec_trim(
                input_text,
            ).len()
        }),
{
    reveal(spec_with_required_terms);
    reveal_strlit(": ");
    let input = corrections::spec_normalized_verification_input(input_text);
    let required = terms::spec_required_technical_terms(input);
    let typed = spec_normalize_known_required_term_typos(input, text::spec_trim(prompt));
    let corrected = spec_adopted(
        prompt,
        spec_strip_leading_output_label(spec_remove_redundant_required_term_prefixes(typed)),
    );
    let mechanized = spec_adopted(
        corrected,
        spec_restore_missing_mechanism_terms(input, text::spec_trim(corrected)),
    );
    let secured = spec_adopted(
        mechanized,
        spec_restore_missing_critical_mechanisms(input, text::spec_trim(mechanized)),
    );
    let targeted = spec_adopted(
        secured,
        spec_restore_missing_explicit_target_context(input, text::spec_trim(secured)),
    );
    let output = text::spec_trim(targeted);
    let missing = matching::spec_absent_terms(required, output);
    let listed = text::spec_join(missing, "/"@) + ": "@;
    let restored = listed + output;
    matching::absent_terms_are_not_held(required, output, term);
    if output.len() > 0 && missing.len() > 0 && restored.len() < text::spec_trim(input_text).len() {
        assert(spec_with_required_terms(input_text, prompt) == restored);
        if missing.contains(term) {
            let k = choose|k: int| 0 <= k < missing.len() && missing[k] == term;
            matching::listed_terms_are_held(missing, output, k);
        } else {
            assert(listed.last() == ' ');
            matching::terms_are_held_after_more(listed, output, term);
        }
    }
}

/// Phrases that join a list are held by it, and so are those that it held before; nothing else joins
/// it.
proof fn joined_phrases_are_held(
    phrases: Seq<Seq<char>>,
    more: Seq<Seq<char>>,
    phrase: Seq<char>,
)
    ensures
        spec_with_new_phrases(phrases, more).contains(phrase) <==> phrases.contains(phrase)
            || more.contains(phrase),
    decreases more.len(),
{
    if more.len() > 0 {
        let fewer = more.drop_last();
        let before = spec_with_new_phrases(phrases, fewer);
        joined_phrases_are_held(phrases, fewer, phrase);
        parts::pushed_item(fewer, more.last(), phrase);
        assert(fewer.push(more.last()) =~= more);
        parts::pushed_item(before, more.last(), phrase);
    }
}

/// What is put back where a negation is lost are the lacking constraints of every kind: negations,
/// states, tests, lists, what is to be kept and the limitation to the main point. Where no negation
/// is lost, it is what is to be kept and that limitation.
pub proof fn lacking_constraints_of_every_kind_are_put_back(
    input: Seq<char>,
    output: Seq<char>,
    phrase: Seq<char>,
)
    ensures
        spec_phrases_to_restore(input, output, false).contains(phrase) <==> {
            ||| spec_missing_rule_phrases(input, output).contains(phrase)
            ||| spec_missing_state_persistence_restoration_phrases(input, output).contains(phrase)
            ||| spec_missing_verification_restoration_phrases(input, output).contains(phrase)
            ||| spec_missing_list_constraint_restoration_phrases(input, output).contains(phrase)
            ||| spec_missing_retention_constraint_restoration_phrases(input, output).contains(phrase)
            ||| spec_missing_focus_scope_restoration_phrases(input, output).contains(phrase)
        },
        spec_phrases_to_restore(input, output, true).contains(phrase) <==> {
            ||| spec_missing_retention_constraint_restoration_phrases(input, output).contains(phrase)
            ||| spec_missing_focus_scope_restoration_phrases(input, output).contains(phrase)
        },
{
    reveal(spec_phrases_to_restore);
    reveal(spec_missing_constraint_restoration_phrases);
    reveal(spec_missing_nonnegative_constraint_restoration_phrases);
    let states = spec_missing_state_persistence_restoration_phrases(input, output);
    let tests = spec_missing_verification_restoration_phrases(input, output);
    let lists = spec_missing_list_constraint_restoration_phrases(input, output);
    let kept = spec_missing_retention_constraint_restoration_phrases(input, output);
    let focus = spec_missing_focus_scope_restoration_phrases(input, output);
    let first = spec_missing_rule_phrases(input, output);
    let second = spec_with_new_phrases(first, states);
    let third = spec_with_new_phrases(second, tests);
    let fourth = spec_with_new_phrases(third, lists);
    let fifth = spec_with_new_phrases(fourth, kept);
    joined_phrases_are_held(first, states, phrase);
    joined_phrases_are_held(second, tests, phrase);
    joined_phrases_are_held(third, lists, phrase);
    joined_phrases_are_held(fourth, kept, phrase);
    joined_phrases_are_held(fifth, focus, phrase);
    joined_phrases_are_held(kept, focus, phrase);
}

/// What broken rules put back is gathered from each of them.
proof fn broken_rules_are_gathered(
    items: Seq<(&str, &str, &str)>,
    input: Seq<char>,
    output: Seq<char>,
    k: int,
)
    requires
        0 <= k < items.len(),
    ensures
        spec_rule_restoration_phrase(
            input,
            output,
            text::spec_split_any(items[k].0@, "|"@),
            text::spec_split_any(items[k].1@, "|"@),
            items[k].2@,
        ) matches Some(phrase) ==> spec_rules_broken(items, input, output).contains(phrase),
    decreases items.len(),
{
    let fewer = items.drop_last();
    let before = spec_rules_broken(fewer, input, output);
    match spec_rule_restoration_phrase(
        input,
        output,
        text::spec_split_any(items[k].0@, "|"@),
        text::spec_split_any(items[k].1@, "|"@),
        items[k].2@,
    ) {
        Some(phrase) => {
            if k < items.len() - 1 {
                assert(fewer[k] == items[k]);
                broken_rules_are_gathered(fewer, input, output, k);
            }
            match spec_rule_restoration_phrase(
                input,
                output,
                text::spec_split_any(items.last().0@, "|"@),
                text::spec_split_any(items.last().1@, "|"@),
                items.last().2@,
            ) {
                Some(last) => {
                    parts::pushed_item(before, last, phrase);
                },
                None => {},
            }
        },
        None => {},
    }
}

/// A rule of restoration that the output breaks puts a phrase back, unless the clause that asks for
/// it gives a list, and the phrase satisfies the rule.
pub proof fn broken_rules_are_mended(input: Seq<char>, output: Seq<char>, k: int)
    requires
        0 <= k < RESTORATION_RULES@.len(),
        constraints::spec_constraint_marker_matches_input(
            input,
            text::spec_split_any(RESTORATION_RULES@[k].0@, "|"@),
        ),
        !constraints::spec_contains_any_of(
            output,
            text::spec_split_any(RESTORATION_RULES@[k].1@, "|"@),
        ),
        constraints::spec_contains_any_of(
            RESTORATION_RULES@[k].2@,
            text::spec_split_any(RESTORATION_RULES@[k].1@, "|"@),
        ),
        spec_first_clause_with(
            clauses::spec_required_constraint_clauses(input),
            text::spec_split_any(RESTORATION_RULES@[k].0@, "|"@),
        ) matches Some(clause) ==> clauses::spec_parse_conditional_value_list(clause) is None
            && clauses::spec_parse_shared_predicate_list(clause) is None,
    ensures
        exists|n: int|
            0 <= n < spec_phrases_to_restore(input, output, false).len()
                && constraints::spec_contains_any_of(
                #[trigger] spec_phrases_to_restore(input, output, false)[n],
                text::spec_split_any(RESTORATION_RULES@[k].1@, "|"@),
            ),
{
    reveal(spec_missing_rule_phrases);
    reveal(spec_rule_restoration_phrase);
    reveal(spec_restoration_phrase_of);
    let required = text::spec_split_any(RESTORATION_RULES@[k].0@, "|"@);
    let kept = text::spec_split_any(RESTORATION_RULES@[k].1@, "|"@);
    let resort = RESTORATION_RULES@[k].2@;
    let found = spec_first_clause_with(clauses::spec_required_constraint_clauses(input), required);
    phrases_satisfy_the_rule("本題のみ"@, kept, resort);
    phrases_satisfy_the_rule(resort, kept, resort);
    if found is Some {
        phrases_satisfy_the_rule(
            clauses::spec_compact_constraint_clause(found->Some_0),
            kept,
            resort,
        );
    }
    let phrase = spec_rule_restoration_phrase(input, output, required, kept, resort)->Some_0;
    broken_rules_are_gathered(RESTORATION_RULES@, input, output, k);
    lacking_constraints_of_every_kind_are_put_back(input, output, phrase);
    let phrases = spec_phrases_to_restore(input, output, false);
    let n = choose|n: int| 0 <= n < phrases.len() && phrases[n] == phrase;
    assert(constraints::spec_contains_any_of(phrases[n], kept));
}

/// A phrase with the form of last resort after it where it needs it satisfies the rule.
proof fn phrases_satisfy_the_rule(phrase: Seq<char>, kept: Seq<Seq<char>>, resort: Seq<char>)
    requires
        constraints::spec_contains_any_of(resort, kept),
    ensures
        constraints::spec_contains_any_of(spec_phrase_or_fallback(phrase, kept, resort), kept),
{
    reveal(spec_phrase_or_fallback);
    if !constraints::spec_contains_any_of(phrase, kept) {
        let trimmed = text::spec_trim(phrase);
        let whole = trimmed + resort;
        let i = choose|i: int|
            #![trigger kept[i]]
            0 <= i < kept.len() && text::spec_contains(
                text::spec_lowercase(resort),
                text::spec_lowercase(kept[i]),
            );
        let nothing = Seq::<char>::empty();
        parts::held_by_the_whole(
            text::spec_lowercase(trimmed),
            text::spec_lowercase(resort),
            nothing,
            text::spec_lowercase(kept[i]),
        );
        assert(text::spec_lowercase(trimmed) + text::spec_lowercase(resort) + nothing
            =~= text::spec_lowercase(whole));
        assert(text::spec_contains(text::spec_lowercase(whole), text::spec_lowercase(kept[i])));
    }
}

/// Where the first lacking constraint, put after the prompt, fits and makes it keep all negative
/// constraints and terms, the prompt with it is the result: what was lost is put back.
pub proof fn lost_negations_are_put_back(input_text: Seq<char>, prompt: Seq<char>)
    requires
        ({
            let input = corrections::spec_normalized_verification_input(input_text);
            let worded = spec_adopted(
                prompt,
                spec_normalize_required_constraint_terms(input, text::spec_trim(prompt)),
            );
            let output = text::spec_trim(worded);
            let phrases = spec_phrases_to_restore(input_text, output, false);
            &&& output.len() > 0
            &&& !constraints::spec_preserves_negative_constraints(input_text, output)
            &&& phrases.len() > 0
            &&& spec_append_restoration_phrase(output, phrases[0]).len() < text::spec_trim(
                input_text,
            ).len()
            &&& terms::spec_contains_required_technical_terms(
                input,
                spec_append_restoration_phrase(output, phrases[0]),
            )
            &&& constraints::spec_preserves_negative_constraints(
                input_text,
                spec_append_restoration_phrase(output, phrases[0]),
            )
        }),
    ensures
        constraints::spec_preserves_negative_constraints(
            input_text,
            spec_with_required_constraints(input_text, true, prompt),
        ),
{
    reveal(spec_with_required_constraints);
    reveal(spec_restoration_candidate);
    reveal(spec_complete_candidate);
}

/// A prompt is left as it is where negations need not be kept.
pub proof fn nothing_is_put_back_unasked(input_text: Seq<char>, prompt: Seq<char>)
    ensures
        spec_with_required_constraints(input_text, false, prompt) == prompt,
{
    reveal(spec_with_required_constraints);
}

/// Whether identifiers are one edit apart does not depend on which is taken first, and texts that
/// are the same are not.
pub proof fn edits_go_both_ways(left: Seq<char>, right: Seq<char>)
    ensures
        spec_ascii_identifiers_are_one_edit_apart(left, right)
            == spec_ascii_identifiers_are_one_edit_apart(right, left),
        !spec_ascii_identifiers_are_one_edit_apart(left, left),
{
    if left != right && left.len() == right.len() {
        if exists|k: int| #[trigger] differs_only_at(left, right, k) {
            let k = choose|k: int| #[trigger] differs_only_at(left, right, k);
            assert(differs_only_at(right, left, k));
        }
        if exists|k: int| #[trigger] differs_only_at(right, left, k) {
            let k = choose|k: int| #[trigger] differs_only_at(right, left, k);
            assert(differs_only_at(left, right, k));
        }
    }
}

/// A text with one character changed, added or dropped is one edit apart from it.
pub proof fn single_edits_are_told(before: Seq<char>, c: char, other: char, after: Seq<char>)
    ensures
        text::spec_lower_char(c) != text::spec_lower_char(other)
            ==> spec_ascii_identifiers_are_one_edit_apart(
            before + seq![c] + after,
            before + seq![other] + after,
        ),
        spec_ascii_identifiers_are_one_edit_apart(before + after, before + seq![c] + after),
{
    let one = before + seq![c] + after;
    let two = before + seq![other] + after;
    let none = before + after;
    let k = before.len() as int;
    assert(one.take(k) =~= before && two.take(k) =~= before && none.take(k) =~= before);
    assert(one.skip(k + 1) =~= after && two.skip(k + 1) =~= after && none.skip(k) =~= after);
    assert(one[k] == c && two[k] == other);
    if text::spec_lower_char(c) != text::spec_lower_char(other) {
        assert(differs_only_at(one, two, k));
    }
    assert(lacks_only_at(none, one, k));
}

/// A text that is cut to a number of characters has no more than these.
pub proof fn cut_texts_fit(text: Seq<char>, max_chars: int)
    requires
        0 <= max_chars,
    ensures
        spec_trim_to_char_budget(text, max_chars) matches Some(cut) ==> cut.len() <= max_chars,
        0 < text.len() <= max_chars ==> spec_trim_to_char_budget(text, max_chars) == Some(
            text::spec_trim(text),
        ),
{
    reveal(spec_trim_to_char_budget);
    text::trim_start_of(text);
    text::trim_end_of(text::spec_trim_start(text));
    let taken = text::spec_take(text, max_chars);
    text::trim_start_of(taken);
    text::trim_end_of(text::spec_trim_start(taken));
    let hard_cut = text::spec_trim(taken);
    let half = max_chars / 2;
    let soft_cut = spec_best_soft_cut(hard_cut, half);
    if exists|i: int| is_last_soft_cut(hard_cut, half, i) {
        let i = choose|i: int| is_last_soft_cut(hard_cut, half, i);
        let head = text::spec_take(hard_cut, i);
        text::trim_start_of(head);
        text::trim_end_of(text::spec_trim_start(head));
    }
    let started = text::spec_trim_start_space_or(soft_cut, "、/;:："@);
    start_trimmed_texts_are_no_longer(soft_cut, "、/;:："@);
    end_trimmed_texts_are_no_longer(started, "、/;:："@);
}

/// A text that is trimmed at its start is no longer than it was.
proof fn start_trimmed_texts_are_no_longer(text: Seq<char>, set: Seq<char>)
    ensures
        text::spec_trim_start_space_or(text, set).len() <= text.len(),
    decreases text.len(),
{
    if text.len() > 0 {
        start_trimmed_texts_are_no_longer(text.drop_first(), set);
    }
}

/// A text that is trimmed at its end is no longer than it was.
proof fn end_trimmed_texts_are_no_longer(text: Seq<char>, set: Seq<char>)
    ensures
        text::spec_trim_end_space_or(text, set).len() <= text.len(),
    decreases text.len(),
{
    if text.len() > 0 {
        end_trimmed_texts_are_no_longer(text.drop_last(), set);
    }
}

/// The word labels an answer.
pub open spec fn is_label(word: Seq<char>) -> bool {
    word == "圧縮結果"@ || word == "要約"@ || word == "短縮文"@ || word == "出力"@
}

/// The text begins with a label and a colon of either width.
pub open spec fn begins_with_label(text: Seq<char>) -> bool {
    exists|label: Seq<char>| #[trigger]
        is_label(label) && (text::spec_starts_with(text, label + ":"@) || text::spec_starts_with(
            text,
            label + "："@,
        ))
}

/// A label before an answer is dropped with its colon, and so is the white space behind it.
pub proof fn labels_are_dropped(label: Seq<char>, colon: Seq<char>, rest: Seq<char>)
    requires
        is_label(label),
        colon == ":"@ || colon == "："@,
        text::spec_trim_start(rest).len() > 0,
    ensures
        spec_strip_leading_output_label(label + colon + rest) == text::spec_trim_start(rest),
{
    reveal(spec_strip_leading_output_label);
    labels_begin_apart();
    reveal_strlit(":");
    reveal_strlit("：");
    let output = label + colon + rest;
    assert(output[0] == label[0]);
    assert(text::spec_trim_start(output) == output);
    label_is_stripped(label, colon, rest);
    assert(OUTPUT_LABELS@[0]@ == "圧縮結果"@);
    assert(OUTPUT_LABELS@[1]@ == "要約"@);
    assert(OUTPUT_LABELS@[2]@ == "短縮文"@);
    assert(OUTPUT_LABELS@[3]@ == "出力"@);
    reveal_with_fuel(spec_label_stripped, 5);
    if label != "圧縮結果"@ {
        other_labels_do_not_match(output, "圧縮結果"@);
        if label != "要約"@ {
            other_labels_do_not_match(output, "要約"@);
            if label != "短縮文"@ {
                other_labels_do_not_match(output, "短縮文"@);
            }
        }
    }
}

/// An answer that begins with no label stays as it is.
pub proof fn answers_without_labels_stay(output: Seq<char>)
    requires
        !begins_with_label(text::spec_trim_start(output)),
    ensures
        spec_strip_leading_output_label(output) == output,
{
    reveal(spec_strip_leading_output_label);
    let trimmed = text::spec_trim_start(output);
    assert(OUTPUT_LABELS@[0]@ == "圧縮結果"@);
    assert(OUTPUT_LABELS@[1]@ == "要約"@);
    assert(OUTPUT_LABELS@[2]@ == "短縮文"@);
    assert(OUTPUT_LABELS@[3]@ == "出力"@);
    assert(LABEL_SEPARATORS@[0]@ == ":"@ && LABEL_SEPARATORS@[1]@ == "："@);
    assert(is_label("圧縮結果"@) && is_label("要約"@) && is_label("短縮文"@) && is_label("出力"@));
    reveal_with_fuel(spec_label_stripped, 5);
    reveal_with_fuel(spec_label_mark_stripped, 3);
}

/// Labels begin with different characters, none of which is white space.
proof fn labels_begin_apart()
    ensures
        "圧縮結果"@.len() > 0 && "圧縮結果"@[0] == '圧',
        "要約"@.len() > 0 && "要約"@[0] == '要',
        "短縮文"@.len() > 0 && "短縮文"@[0] == '短',
        "出力"@.len() > 0 && "出力"@[0] == '出',
{
    reveal_strlit("圧縮結果");
    reveal_strlit("要約");
    reveal_strlit("短縮文");
    reveal_strlit("出力");
}

/// A text that begins with another character has not the label.
proof fn other_labels_do_not_match(text: Seq<char>, label: Seq<char>)
    requires
        text.len() > 0,
        label.len() > 0,
        text[0] != label[0],
    ensures
        spec_stripped_label(text, label) is None,
{
    reveal_with_fuel(spec_label_mark_stripped, 3);
    assert forall|mark: Seq<char>| !#[trigger] text::spec_starts_with(text, label + mark) by {
        if text::spec_starts_with(text, label + mark) {
            assert(text.subrange(0, (label + mark).len() as int)[0] == (label + mark)[0]);
        }
    }
}

/// A label with a colon is stripped.
proof fn label_is_stripped(label: Seq<char>, colon: Seq<char>, rest: Seq<char>)
    requires
        label.len() > 0,
        colon == ":"@ || colon == "："@,
        text::spec_trim_start(rest).len() > 0,
    ensures
        spec_stripped_label(label + colon + rest, label) == Some(text::spec_trim_start(rest)),
{
    reveal_strlit(":");
    reveal_strlit("：");
    reveal_with_fuel(spec_label_mark_stripped, 3);
    assert(LABEL_SEPARATORS@[0]@ == ":"@ && LABEL_SEPARATORS@[1]@ == "："@);
    let output = label + colon + rest;
    let start = label + colon;
    assert(output.subrange(0, start.len() as int) =~= start);
    assert(output.skip(start.len() as int) =~= rest);
    if colon == "："@ {
        if text::spec_starts_with(output, label + ":"@) {
            let place = label.len() as int;
            assert(output.subrange(0, place + 1)[place] == (label + ":"@)[place]);
            assert(output[place] == ':');
        }
    }
}

/// A phrase that is put back stands in the answer, which stays shorter than the request.
pub proof fn restored_phrases_fit(restored: Seq<char>, phrase: Seq<char>, input_len: int)
    requires
        text::spec_trim_end_any(text::spec_trim(phrase), "。.;；、,"@).len() > 0,
    ensures
        spec_restoration_candidate(restored, phrase, input_len) matches Some(candidate)
            ==> candidate.len() < input_len && text::spec_contains(
            candidate,
            text::spec_trim_end_any(text::spec_trim(phrase), "。.;；、,"@),
        ),
{
    reveal(spec_restoration_candidate);
    reveal_strlit("、");
    reveal_strlit("。");
    appended_phrases_are_there(restored, phrase);
    ends_are_shorter(text::spec_trim(phrase), "。.;；、,"@);
    text::trim_start_of(phrase);
    text::trim_end_of(text::spec_trim_start(phrase));
    let budget = (input_len - 3) - phrase.len();
    if input_len >= 3 && budget >= 0 {
        cut_texts_fit(restored, budget);
        match spec_trim_to_char_budget(restored, budget) {
            None => {},
            Some(cut) => {
                appended_phrases_are_there(cut, phrase);
                ends_are_shorter(text::spec_trim(cut), "。.;；、,"@);
                text::trim_start_of(cut);
                text::trim_end_of(text::spec_trim_start(cut));
            },
        }
    }
}

/// A text trimmed at its end is no longer than the text.
proof fn ends_are_shorter(text: Seq<char>, set: Seq<char>)
    ensures
        text::spec_trim_end_any(text, set).len() <= text.len(),
    decreases text.len(),
{
    if text.len() > 0 && set.contains(text.last()) {
        ends_are_shorter(text.drop_last(), set);
    }
}

/// A phrase that is appended stands in the result, behind what was there.
pub proof fn appended_phrases_are_there(output: Seq<char>, phrase: Seq<char>)
    ensures
        ({
            let body = text::spec_trim_end_any(text::spec_trim(output), "。.;；、,"@);
            let addition = text::spec_trim_end_any(text::spec_trim(phrase), "。.;；、,"@);
            let whole = spec_append_restoration_phrase(output, phrase);
            &&& text::spec_contains(whole, addition)
            &&& text::spec_starts_with(whole, body)
            &&& body.len() > 0 && addition.len() > 0 ==> whole == body + "、"@ + addition + "。"@
            &&& body.len() == 0 ==> whole == addition
            &&& addition.len() == 0 ==> whole == body
        }),
{
    let body = text::spec_trim_end_any(text::spec_trim(output), "。.;；、,"@);
    let addition = text::spec_trim_end_any(text::spec_trim(phrase), "。.;；、,"@);
    let whole = spec_append_restoration_phrase(output, phrase);
    let none = Seq::<char>::empty();
    parts::parts_are_held(body + "、"@, addition, "。"@);
    parts::parts_are_held(none, addition, none);
    assert(none + addition + none =~= addition);
    assert(whole.subrange(0, body.len() as int) =~= body) by {
        if addition.len() == 0 && body.len() == 0 {
            assert(whole =~= body);
        }
    }
    if addition.len() == 0 {
        assert(text::occurs_at(whole, addition, 0)) by {
            assert(whole.subrange(0, 0) =~= addition);
        }
        assert(body.len() == 0 ==> whole =~= body);
    }
}

/// Phrases that are put back are those that were there and the new ones, each once.
pub proof fn new_phrases_are_added_once(
    phrases: Seq<Seq<char>>,
    more: Seq<Seq<char>>,
    phrase: Seq<char>,
)
    ensures
        spec_with_new_phrases(phrases, more).contains(phrase) <==> phrases.contains(phrase)
            || more.contains(phrase),
        phrases.no_duplicates() ==> spec_with_new_phrases(phrases, more).no_duplicates(),
    decreases more.len(),
{
    if more.len() > 0 {
        let before = more.drop_last();
        new_phrases_are_added_once(phrases, before, phrase);
        let all = spec_new_phrases_among(before, phrases);
        parts::pushed_item(all, more.last(), phrase);
        parts::pushed_item(before, more.last(), phrase);
        assert(before.push(more.last()) =~= more);
    } else {
        assert(!more.contains(phrase));
    }
}

/// The target of a request is what stands behind the words that introduce it, without the words that
/// end the sentence.
pub proof fn targets_stand_behind_their_words(prefix: Seq<char>, target: Seq<char>)
    requires
        prefix == "対象は"@ || prefix == "対象:"@ || prefix == "対象："@,
        target.len() > 0,
        !text::spec_is_whitespace(target[0]),
        !text::spec_is_whitespace(target[target.len() - 1]),
        target[target.len() - 1] != 'す',
        target[target.len() - 1] != 'る',
    ensures
        spec_explicit_target(prefix + target) == Some(target),
        spec_explicit_target(prefix + target + "です"@) == Some(target),
{
    reveal_strlit("対象は");
    reveal_strlit("対象:");
    reveal_strlit("対象：");
    reveal_strlit("です");
    reveal_strlit("である");
    assert(TARGET_PREFIXES@[0]@ == "対象は"@);
    assert(TARGET_PREFIXES@[1]@ == "対象:"@);
    assert(TARGET_PREFIXES@[2]@ == "対象："@);
    let polite = target + "です"@;
    prefix_is_dropped(prefix, target);
    prefix_is_dropped(prefix, polite);
    assert(prefix + target + "です"@ =~= prefix + polite);
    assert(polite[0] == target[0]);
    assert(polite[polite.len() - 1] == 'す');
    clauses::firm_texts_are_trimmed(target);
    clauses::firm_texts_are_trimmed(polite);
    no_other_end(target, "です"@);
    no_other_end(target, "である"@);
    assert(polite.subrange(polite.len() - 2, polite.len() as int) =~= "です"@);
    assert(text::spec_ends_with(polite, "です"@));
    assert(polite.take(polite.len() - 2) =~= target);
}

/// A text that ends with another character does not end with the words.
proof fn no_other_end(text: Seq<char>, end: Seq<char>)
    requires
        text.len() > 0,
        end.len() > 0,
        text[text.len() - 1] != end[end.len() - 1],
    ensures
        text::spec_trim_end_text(text, end) == text,
{
    if text::spec_ends_with(text, end) {
        let size = text.len() as int;
        assert(text.subrange(size - end.len(), size)[end.len() - 1] == end[end.len() - 1]);
    }
}

/// The words that introduce a target are dropped.
proof fn prefix_is_dropped(prefix: Seq<char>, rest: Seq<char>)
    requires
        prefix == "対象は"@ || prefix == "対象:"@ || prefix == "対象："@,
    ensures
        spec_explicit_target(prefix + rest) == Some(
            text::spec_trim(
                text::spec_trim_end_text(
                    text::spec_trim_end_text(text::spec_trim(rest), "です"@),
                    "である"@,
                ),
            ),
        ),
{
    reveal_strlit("対象は");
    reveal_strlit("対象:");
    reveal_strlit("対象：");
    reveal_with_fuel(spec_target_after, 4);
    assert(TARGET_PREFIXES@[0]@ == "対象は"@);
    assert(TARGET_PREFIXES@[1]@ == "対象:"@);
    assert(TARGET_PREFIXES@[2]@ == "対象："@);
    let whole = prefix + rest;
    assert(whole.subrange(0, 3) =~= prefix);
    assert(whole.skip(3) =~= rest);
    assert forall|other: Seq<char>|
        other.len() == 3 && other[2] != prefix[2] implies !#[trigger] text::spec_starts_with(
        whole,
        other,
    ) by {
        if text::spec_starts_with(whole, other) {
            assert(whole.subrange(0, 3)[2] == other[2]);
        }
    }
}

/// Writing to a temporary file before replacing is put back where the request speaks of both and
/// the answer does not.
pub proof fn replacing_by_a_temporary_file_is_put_back(input: Seq<char>, output: Seq<char>)
    ensures
        spec_missing_critical_mechanism_phrases(input, output) == (if text::spec_contains(
            input,
            "一時ファイル"@,
        ) && text::spec_contains(input, "置換"@) && (!text::spec_contains(output, "一時ファイル"@)
            || !text::spec_contains(output, "置換"@)) {
            seq!["一時ファイルへ書いてから置換"@]
        } else {
            Seq::empty()
        }),
{
    assert(Seq::<Seq<char>>::empty().push("一時ファイルへ書いてから置換"@) =~= seq![
        "一時ファイルへ書いてから置換"@,
    ]);
}

/// Each required term stands in a part of the answer, or is named by it, unless the answer is blank
/// or has no room to name the terms that it lacks.
pub proof fn required_terms_are_put_back(input_text: Seq<char>, prompt: Seq<char>, k: int)
    requires
        ({
            let input = corrections::spec_normalized_verification_input(input_text);
            0 <= k < terms::spec_required_technical_terms(input).len()
        }),
    ensures
        ({
            let input = corrections::spec_normalized_verification_input(input_text);
            let required = terms::spec_required_technical_terms(input);
            let answer = spec_with_required_terms(input_text, prompt);
            let said = text::spec_trim(answer);
            ||| said.len() == 0
            ||| text::spec_contains(answer, required[k])
            ||| exists|part: Seq<char>|
                text::spec_contains(answer, part) && #[trigger]
                    matching::spec_contains_ascii_case_insensitive(part, required[k])
            ||| (text::spec_join(matching::spec_absent_terms(required, said), "/"@) + ": "@
                + said).len() >= text::spec_trim(input_text).len()
        }),
{
    reveal(spec_with_required_terms);
    let input = corrections::spec_normalized_verification_input(input_text);
    let required = terms::spec_required_technical_terms(input);
    let answer = spec_with_required_terms(input_text, prompt);
    let typed = spec_normalize_known_required_term_typos(input, text::spec_trim(prompt));
    let corrected = spec_adopted(
        prompt,
        spec_strip_leading_output_label(spec_remove_redundant_required_term_prefixes(typed)),
    );
    let mechanized = spec_adopted(
        corrected,
        spec_restore_missing_mechanism_terms(input, text::spec_trim(corrected)),
    );
    let secured = spec_adopted(
        mechanized,
        spec_restore_missing_critical_mechanisms(input, text::spec_trim(mechanized)),
    );
    let targeted = spec_adopted(
        secured,
        spec_restore_missing_explicit_target_context(input, text::spec_trim(secured)),
    );
    let output = text::spec_trim(targeted);
    let missing = matching::spec_absent_terms(required, output);
    let listed = text::spec_join(missing, "/"@);
    let restored = listed + ": "@ + output;
    let none = Seq::<char>::empty();
    assert(required.contains(required[k]));
    matching::absent_terms_are_not_held(required, output, required[k]);
    parts::trimmed_texts_are_held(targeted);
    parts::parts_are_held(listed + ": "@, output, none);
    assert(listed + ": "@ + output + none =~= restored);
    if missing.contains(required[k]) {
        let n = choose|n: int| 0 <= n < missing.len() && missing[n] == required[k];
        parts::joined_texts_are_held(missing, "/"@, n);
        parts::held_by_the_whole(none, listed, ": "@ + output, required[k]);
        assert(none + listed + (": "@ + output) =~= restored);
    } else {
        assert(matching::spec_contains_ascii_case_insensitive(output, required[k]));
    }
}

} // verus!
