//! The constraints of a request and whether a shorter version keeps them.
use vstd::prelude::*;
use crate::runtime::clauses;
use crate::contents;
use crate::parts;
use crate::runtime::matching;
use crate::runtime::terms;
use crate::text;

verus! {

broadcast use crate::contents::group_contents;

/// Signs that something is kept.
pub const KEEPING_MARKERS: [&'static str; 8] = [
    "消えない",
    "消さない",
    "維持",
    "保持",
    "残す",
    "残して",
    "keep",
    "preserve",
];

/// States that a request may name.
pub const NAMED_STATES: [&'static str; 5] = [
    "検索条件",
    "検索状態",
    "入力状態",
    "選択状態",
    "表示状態",
];

/// Signs of a test.
pub const TEST_MARKERS: [&'static str; 12] = [
    "テスト",
    "test",
    "spec",
    "assert",
    "vitest",
    "jest",
    "playwright",
    "pytest",
    "junit",
    "rspec",
    "cypress",
    "selenium",
];

/// Kinds of test cases that have to be named where the request names them.
pub const VERIFICATION_CASES: [&'static str; 3] = ["正常系", "異常系", "境界値"];

/// Particles after which an item of a list is described.
pub const ITEM_PARTICLES: [&'static str; 5] = ["に", "の", "を", "が", "は"];

/// Short forms under which targets are compared.
pub const ANCHOR_SHORT_FORMS: [(&'static str, &'static str); 14] = [
    ("既存の", ""),
    ("成功した時の", "成功"),
    ("成功時の", "成功"),
    ("入力した", ""),
    ("最近開いた", ""),
    ("処理", ""),
    ("形式", ""),
    ("の内容", ""),
    ("オプション", ""),
    ("の表示", "表示"),
    ("マッピング", "mapping"),
    ("columns", "column"),
    (" の ", ""),
    ("の", ""),
];

/// Predicates by which a request forbids a change.
pub const SOURCE_PREDICATES: [&'static str; 12] = [
    "変更しない",
    "変更せず",
    "変更なし",
    "変えない",
    "変えず",
    "改変しない",
    "改変せず",
    "改変なし",
    "維持",
    "保持",
    "preserve",
    "keep",
];

/// Predicates by which an output keeps a prohibition of change.
pub const OUTPUT_PREDICATES: [&'static str; 17] = [
    "変更しない",
    "変更せず",
    "変更なし",
    "変えない",
    "変えず",
    "改変しない",
    "改変せず",
    "改変なし",
    "維持",
    "保持",
    "そのまま",
    "禁止",
    "しない",
    "せず",
    "preserve",
    "keep",
    "unchanged",
];

/// Words that say of what aspect of a target a clause speaks.
pub const ASPECT_WORDS: [&'static str; 4] = ["意味", "形式", "名前", "名"];

/// Rules of negation: where the input holds one of the first alternatives, the output has to hold
/// one of the second.
pub const NEGATION_RULES: [(&'static str, &'static str); 41] = [
    ("避け|禁止|avoid|must not|do not|don't|never", "避け|回避|禁止|しない|avoid|must not|do not|don't|never"),
    ("しない|不要|なし|without", "しない|せず|禁止|避け|回避|抑制|最小限|不要|なし|without|do not|must not"),
    ("変更せず|変更しない|変更なし|変えない|改変せず|改変しない|改変なし", "変更せず|変更しない|変更なし|変えない|改変せず|改変しない|改変なし|維持|保持|そのまま"),
    ("ではなく|でなく", "ではなく|でなく"),
    ("はみ出さない", "はみ出さない|収ま|収め|バー内"),
    ("行わない", "行わない|しない"),
    ("書き換えず", "書き換えず|書き換えない"),
    ("壊れない", "壊れない|壊れず|壊さない|破損しない"),
    ("削除せず", "削除せず|削除しない|維持|保持|共存"),
    ("読み込まず", "読み込まず|読まない|読み込み禁止"),
    ("下げない", "下げない"),
    ("廃止", "廃止"),
    ("変えず", "変えず|変更せず|変更しない"),
    ("入れない", "入れない|含めない|しない"),
    ("影響させない", "影響させない"),
    ("削除しない", "削除しない"),
    ("変更不可", "変更不可|禁止"),
    ("実通信しない", "実通信しない"),
    ("送信しない", "送信しない"),
    ("二重作成しない", "二重作成しない"),
    ("再接続しない", "再接続しない"),
    ("再試行しない", "再試行しない"),
    ("増えない", "増えない|増やさない|しない|回避|抑制|最小限"),
    ("増やさない", "増えない|増やさない|しない|回避|抑制|最小限"),
    ("増加させない", "増えない|増やさない|しない|回避|抑制|最小限"),
    ("超えたら", "超えたら"),
    ("再推論せず", "再推論せず"),
    ("戻さない", "戻さない"),
    ("参照しない", "参照しない"),
    ("混ぜない|混ざらない", "混ぜない|混ざらない|混在禁止|共有しない"),
    ("取りすぎない", "取りすぎない"),
    ("押さなくても", "押さなくても"),
    ("クリア", "クリア"),
    ("隠れない", "隠れない"),
    ("出さない", "出さない|表示しない|非表示"),
    ("見せない", "見せない"),
    ("失わない", "失わない|残す|保持"),
    ("依存せず", "依存せず"),
    ("保存せず", "保存せず"),
    ("増やさない|増えない|増加させない", "増やさない|増えない|増加させない|重複接続しない|回避|抑制|最小限"),
    ("のみ|だけ|only", "のみ|だけ|いずれか|only"),
];

/// Verb forms of negation in a clause.
pub const NEGATIVE_FORMS: [&'static str; 5] = ["ないで", "せず", "さず", "ず", "ない"];

/// Forms that end like a negation and are none.
pub const NON_NEGATIVE_FORMS: [&'static str; 3] = ["かかわらず", "関わらず", "問わず"];

/// Signs of a negation, or of what amounts to one, in an output.
pub const OUTPUT_NEGATIVE_MARKERS: [&'static str; 15] = [
    "しない",
    "せず",
    "ない",
    "なし",
    "不要",
    "禁止",
    "非表示",
    "避け",
    "回避",
    "維持",
    "保持",
    "unchanged",
    "without",
    "must not",
    "do not",
];

/// Signs that something is to be added or used.
pub const POSITIVE_MARKERS: [&'static str; 9] = [
    "入れ",
    "追加",
    "導入",
    "設定",
    "使用",
    "使",
    "有効",
    "実行",
    "作成",
];

/// Signs that something is not to be done.
pub const EXCLUSION_MARKERS: [&'static str; 8] = [
    "しない",
    "せず",
    "ない",
    "なし",
    "不要",
    "禁止",
    "避け",
    "除外",
];

/// Signs that an item before a list is a clause of its own.
pub const PRECEDING_ACTION_MARKERS: [&'static str; 9] = [
    "維持し",
    "保持し",
    "変更し",
    "変更せ",
    "変えず",
    "追加し",
    "修正し",
    "設定し",
    "実装し",
];

/// Words between an item and what is to be done with it.
pub const ITEM_ACTION_MARKERS: [&'static str; 5] = [
    "をテスト",
    "を確認",
    "を検証",
    "をtest",
    "をverify",
];

/// Endings of a request.
pub const ITEM_SUFFIXES: [&'static str; 4] = ["してください", "する", "して", "せよ"];

/// Endings of a request after a negation.
pub const ACTION_SUFFIXES: [&'static str; 4] = [
    "してください",
    "てください",
    "でください",
    "ください",
];

/// Fragments after a negation that ask for nothing.
pub const EMPTY_ACTIONS: [&'static str; 4] = ["ように", "ようにし", "ようにする", "よう"];

/// What is dropped when actions are compared.
pub const ACTION_FILLERS: [(&'static str, &'static str); 12] = [
    ("分かりやすい", ""),
    ("わかりやすい", ""),
    (" の ", ""),
    (" の", ""),
    ("の", ""),
    (" を ", ""),
    ("を", ""),
    (" に ", ""),
    ("に", ""),
    ("してください", ""),
    ("してほしい", ""),
    ("テスト追加", "テスト追加"),
];

/// The condition of [`contains_any_of`]: the text holds one of the alternatives, whatever the
/// case of ASCII letters.
pub open spec fn spec_contains_any_of(text: Seq<char>, alternatives: Seq<Seq<char>>) -> bool {
    let normalized = text::spec_lowercase(text);
    exists|i: int|
        #![trigger alternatives[i]] 0 <= i < alternatives.len()
        && text::spec_contains(normalized, text::spec_lowercase(alternatives[i]))
}

/// Whether the text holds one of the alternatives, whatever the case of ASCII letters.
pub fn contains_any_of(text: &str, alternatives: &Vec<String>) -> (r: bool)
    ensures
        r == spec_contains_any_of(text@, contents::views(alternatives@)),
{
    let normalized: String = text::lowercase(text);
    let mut i: usize = 0;
    while i < alternatives.len()
        invariant
            i <= alternatives@.len(),
            normalized@ == text::spec_lowercase(text@),
            forall|j: int|
                #![trigger contents::views(alternatives@)[j]] 0 <= j < i ==> !(text::spec_contains(
                    normalized@,
                    text::spec_lowercase(contents::views(alternatives@)[j]),
                )),
        decreases alternatives@.len() - i,
    {
        let alternative: &str = &alternatives[i];
        assert(contents::views(alternatives@)[i as int] == alternatives@[i as int]@);
        if text::contains(&normalized, &text::lowercase(alternative)) {
            return true;
        }
        i = i + 1;
    }
    false
}

/// The condition of [`holds_any_of`]: the text holds one of the alternatives as it is written.
pub open spec fn spec_holds_any_of(text: Seq<char>, alternatives: Seq<Seq<char>>) -> bool {
    exists|i: int|
        #![trigger alternatives[i]] 0 <= i < alternatives.len()
        && text::spec_contains(text, alternatives[i])
}

/// Whether the text holds one of the alternatives as it is written.
pub fn holds_any_of(text: &str, alternatives: &Vec<String>) -> (r: bool)
    ensures
        r == spec_holds_any_of(text@, contents::views(alternatives@)),
{
    let mut i: usize = 0;
    while i < alternatives.len()
        invariant
            i <= alternatives@.len(),
            forall|j: int|
                #![trigger contents::views(alternatives@)[j]] 0 <= j < i ==> !(text::spec_contains(
                    text@,
                    contents::views(alternatives@)[j],
                )),
        decreases alternatives@.len() - i,
    {
        let alternative: &str = &alternatives[i];
        assert(contents::views(alternatives@)[i as int] == alternatives@[i as int]@);
        if text::contains(text, alternative) {
            return true;
        }
        i = i + 1;
    }
    false
}

/// The condition of [`any_bare_negation`]: some alternative is a bare negation, which a phrase
/// about overflow may hold as well.
pub open spec fn spec_any_bare_negation(alternatives: Seq<Seq<char>>) -> bool {
    exists|i: int|
        #![trigger alternatives[i]] 0 <= i < alternatives.len()
        && text::spec_is_one_of(alternatives[i], ["ない", "出さない"]@)
}

/// Whether some alternative is a bare negation, which a phrase about overflow may hold as well.
pub fn any_bare_negation(alternatives: &Vec<String>) -> (r: bool)
    ensures
        r == spec_any_bare_negation(contents::views(alternatives@)),
{
    let mut i: usize = 0;
    while i < alternatives.len()
        invariant
            i <= alternatives@.len(),
            forall|j: int|
                #![trigger contents::views(alternatives@)[j]] 0 <= j < i ==> !(text::spec_is_one_of(
                    contents::views(alternatives@)[j],
                    ["ない", "出さない"]@,
                )),
        decreases alternatives@.len() - i,
    {
        let alternative: &str = &alternatives[i];
        assert(contents::views(alternatives@)[i as int] == alternatives@[i as int]@);
        if text::is_one_of(alternative, &["ない", "出さない"]) {
            return true;
        }
        i = i + 1;
    }
    false
}

/// The condition of [`any_clause_matches`]: some clause holds one of the alternatives and does
/// not speak of overflow.
#[verifier::opaque]
pub open spec fn spec_any_clause_matches(
    clauses: Seq<Seq<char>>,
    alternatives: Seq<Seq<char>>,
) -> bool {
    exists|i: int|
        #![trigger clauses[i]] 0 <= i < clauses.len()
        && spec_contains_any_of(clauses[i], alternatives)
            && !text::spec_contains(clauses[i], "はみ出さない"@)
}

/// Whether some clause holds one of the alternatives and does not speak of overflow.
pub fn any_clause_matches(clauses: &Vec<String>, alternatives: &Vec<String>) -> (r: bool)
    ensures
        r == spec_any_clause_matches(contents::views(clauses@), contents::views(alternatives@)),
{
    proof {
        reveal(spec_any_clause_matches);
    }
    let mut i: usize = 0;
    while i < clauses.len()
        invariant
            i <= clauses@.len(),
            forall|j: int|
                #![trigger contents::views(clauses@)[j]] 0 <= j < i ==> !((spec_contains_any_of(
                    contents::views(clauses@)[j],
                    contents::views(alternatives@),
                )
                    && !text::spec_contains(contents::views(clauses@)[j], "はみ出さない"@))),
        decreases clauses@.len() - i,
    {
        proof {
            reveal(spec_any_clause_matches);
        }
        let clause: &str = &clauses[i];
        assert(contents::views(clauses@)[i as int] == clauses@[i as int]@);
        if contains_any_of(clause, alternatives) && !text::contains(clause, "はみ出さない") {
            return true;
        }
        i = i + 1;
    }
    false
}

/// The condition of [`constraint_marker_matches_input`]: the input holds one of the alternatives,
/// a bare negation elsewhere than in a phrase about overflow.
#[verifier::opaque]
pub open spec fn spec_constraint_marker_matches_input(
    input: Seq<char>,
    alternatives: Seq<Seq<char>>,
) -> bool {
    if !spec_contains_any_of(input, alternatives) {
        false
    } else {
        if !spec_any_bare_negation(alternatives) {
            true
        } else {
            spec_any_clause_matches(clauses::spec_input_clauses(input), alternatives)
        }
    }
}

/// Whether the input holds one of the alternatives, a bare negation elsewhere than in a phrase
/// about overflow.
pub fn constraint_marker_matches_input(input: &str, alternatives: &Vec<String>) -> (r: bool)
    ensures
        r == spec_constraint_marker_matches_input(input@, contents::views(alternatives@)),
{
    proof {
        reveal(spec_constraint_marker_matches_input);
    }
    if !contains_any_of(input, alternatives) {
        return false;
    }
    if !any_bare_negation(alternatives) {
        return true;
    }
    any_clause_matches(&clauses::input_clauses(input), alternatives)
}

/// The condition of [`is_state_persistence_clause`]: the clause asks that a state be kept.
#[verifier::opaque]
pub open spec fn spec_is_state_persistence_clause(clause: Seq<char>) -> bool {
    let has_named_state = matching::spec_contains_any_marker(clause, NAMED_STATES@);
    let has_generic_state_persistence = text::spec_contains(clause, "状態"@)
            && matching::spec_contains_any_marker(
                clause,
                ["消えない", "消さない", "維持", "保持", "keep", "preserve"]@,
            );
    (has_named_state || has_generic_state_persistence)
        && matching::spec_contains_any_marker(clause, KEEPING_MARKERS@)
}

/// Whether the clause asks that a state be kept.
pub fn is_state_persistence_clause(clause: &str) -> (r: bool)
    ensures
        r == spec_is_state_persistence_clause(clause@),
{
    proof {
        reveal(spec_is_state_persistence_clause);
    }
    let has_named_state: bool = matching::contains_any_marker(clause, &NAMED_STATES);
    let has_generic_state_persistence: bool = text::contains(clause, "状態")
            && matching::contains_any_marker(
                clause,
                &["消えない", "消さない", "維持", "保持", "keep", "preserve"],
            );
    (has_named_state || has_generic_state_persistence)
        && matching::contains_any_marker(clause, &KEEPING_MARKERS)
}

/// The condition of [`state_named`]: the clause names the state and the output holds one of its
/// forms.
#[verifier::opaque]
pub open spec fn spec_state_named(
    clause: Seq<char>,
    output: Seq<char>,
    state: Seq<char>,
    forms: Seq<&str>,
) -> bool {
    text::spec_contains(clause, state) && matching::spec_contains_any_marker(output, forms)
}

/// Whether the clause names the state and the output holds one of its forms.
pub fn state_named(clause: &str, output: &str, state: &str, forms: &[&str]) -> (r: bool)
    ensures
        r == spec_state_named(clause@, output@, state@, forms@),
{
    proof {
        reveal(spec_state_named);
    }
    text::contains(clause, state) && matching::contains_any_marker(output, forms)
}

/// The condition of [`state_forgotten`]: the clause names the state and the output holds none of
/// its forms.
#[verifier::opaque]
pub open spec fn spec_state_forgotten(
    clause: Seq<char>,
    output: Seq<char>,
    state: Seq<char>,
    forms: Seq<&str>,
) -> bool {
    text::spec_contains(clause, state) && !matching::spec_contains_any_marker(output, forms)
}

/// Whether the clause names the state and the output holds none of its forms.
pub fn state_forgotten(clause: &str, output: &str, state: &str, forms: &[&str]) -> (r: bool)
    ensures
        r == spec_state_forgotten(clause@, output@, state@, forms@),
{
    proof {
        reveal(spec_state_forgotten);
    }
    text::contains(clause, state) && !matching::contains_any_marker(output, forms)
}

/// The condition of [`search_condition_kept`]: the clause names the search condition and the
/// output keeps it, by name or in the query.
#[verifier::opaque]
pub open spec fn spec_search_condition_kept(clause: Seq<char>, output: Seq<char>) -> bool {
    text::spec_contains(clause, "検索条件"@)
        && (matching::spec_contains_any_marker(output, ["検索条件", "条件/状態", "条件維持"]@)
            || (matching::spec_contains_any_marker(output, ["useSearchParams", "URL", "クエリ"]@)
                && matching::spec_contains_any_marker(output, ["保存", "復元"]@)))
}

/// Whether the clause names the search condition and the output keeps it, by name or in the
/// query.
pub fn search_condition_kept(clause: &str, output: &str) -> (r: bool)
    ensures
        r == spec_search_condition_kept(clause@, output@),
{
    proof {
        reveal(spec_search_condition_kept);
    }
    text::contains(clause, "検索条件")
        && (matching::contains_any_marker(output, &["検索条件", "条件/状態", "条件維持"])
            || (matching::contains_any_marker(output, &["useSearchParams", "URL", "クエリ"])
                && matching::contains_any_marker(output, &["保存", "復元"])))
}

/// The condition of [`any_named_state_kept`]: the output keeps a state that the clause names.
#[verifier::opaque]
pub open spec fn spec_any_named_state_kept(clause: Seq<char>, output: Seq<char>) -> bool {
    spec_search_condition_kept(clause, output)
        || spec_state_named(clause, output, "検索状態"@, ["検索状態", "条件/状態", "状態維持"]@)
        || spec_state_named(clause, output, "入力状態"@, ["入力状態", "入力維持"]@)
        || spec_state_named(clause, output, "選択状態"@, ["選択状態", "選択維持"]@)
        || spec_state_named(clause, output, "表示状態"@, ["表示状態", "表示維持"]@)
}

/// Whether the output keeps a state that the clause names.
pub fn any_named_state_kept(clause: &str, output: &str) -> (r: bool)
    ensures
        r == spec_any_named_state_kept(clause@, output@),
{
    proof {
        reveal(spec_any_named_state_kept);
    }
    search_condition_kept(clause, output)
        || state_named(clause, output, "検索状態", &["検索状態", "条件/状態", "状態維持"])
        || state_named(clause, output, "入力状態", &["入力状態", "入力維持"])
        || state_named(clause, output, "選択状態", &["選択状態", "選択維持"])
        || state_named(clause, output, "表示状態", &["表示状態", "表示維持"])
}

/// The condition of [`state_persistence_clause_satisfied`]: the output keeps every state that the
/// clause asks to keep.
#[verifier::opaque]
pub open spec fn spec_state_persistence_clause_satisfied(
    clause: Seq<char>,
    output: Seq<char>,
) -> bool {
    if !matching::spec_contains_any_marker(
        output,
        [
            "維持",
            "保持",
            "残す",
            "残して",
            "消えない",
            "消さない",
            "保存",
            "復元",
            "keep",
            "preserve",
        ]@,
    ) {
        false
    } else {
        if matching::spec_contains_any_marker(clause, ["ページ番号", "ページ"]@)
            && !matching::spec_contains_any_marker(output, ["ページ", "page"]@) {
            false
        } else {
            if text::spec_contains(clause, "検索条件"@)
                && !spec_search_condition_kept(clause, output) {
                false
            } else {
                if spec_state_forgotten(
                    clause,
                    output,
                    "検索状態"@,
                    ["検索状態", "条件/状態", "状態維持"]@,
                )
                    || spec_state_forgotten(clause, output, "入力状態"@, ["入力状態", "入力維持"]@)
                    || spec_state_forgotten(clause, output, "選択状態"@, ["選択状態", "選択維持"]@)
                    || spec_state_forgotten(clause, output, "表示状態"@, ["表示状態", "表示維持"]@) {
                    false
                } else {
                    !(spec_state_forgotten(
                        clause,
                        output,
                        "状態"@,
                        ["状態", "条件/状態", "入力維持", "選択維持", "表示維持"]@,
                    )
                        && !text::spec_contains(
                            text::spec_compact_all_whitespace(output),
                            "状態維持"@,
                        )
                        && !spec_any_named_state_kept(clause, output))
                }
            }
        }
    }
}

/// Whether the output keeps every state that the clause asks to keep.
pub fn state_persistence_clause_satisfied(clause: &str, output: &str) -> (r: bool)
    ensures
        r == spec_state_persistence_clause_satisfied(clause@, output@),
{
    proof {
        reveal(spec_state_persistence_clause_satisfied);
    }
    if !matching::contains_any_marker(
        output,
        &[
            "維持",
            "保持",
            "残す",
            "残して",
            "消えない",
            "消さない",
            "保存",
            "復元",
            "keep",
            "preserve",
        ],
    ) {
        return false;
    }
    if matching::contains_any_marker(clause, &["ページ番号", "ページ"])
        && !matching::contains_any_marker(output, &["ページ", "page"]) {
        return false;
    }
    if text::contains(clause, "検索条件") && !search_condition_kept(clause, output) {
        return false;
    }
    if state_forgotten(clause, output, "検索状態", &["検索状態", "条件/状態", "状態維持"])
        || state_forgotten(clause, output, "入力状態", &["入力状態", "入力維持"])
        || state_forgotten(clause, output, "選択状態", &["選択状態", "選択維持"])
        || state_forgotten(clause, output, "表示状態", &["表示状態", "表示維持"]) {
        return false;
    }
    !(state_forgotten(
        clause,
        output,
        "状態",
        &["状態", "条件/状態", "入力維持", "選択維持", "表示維持"],
    )
        && !text::contains(&text::compact_all_whitespace(output), "状態維持")
        && !any_named_state_kept(clause, output))
}

/// The condition of [`preserves_state_persistence_constraints`]: the output keeps the states that
/// the constraints of the input ask to keep.
#[verifier::opaque]
pub open spec fn spec_preserves_state_persistence_constraints(
    input: Seq<char>,
    output: Seq<char>,
) -> bool {
    let clauses = clauses::spec_required_constraint_clauses(input);
    forall|i: int|
        #![trigger clauses[i]] 0 <= i < clauses.len()
        && spec_is_state_persistence_clause(clauses[i]) ==> spec_state_persistence_clause_satisfied(
            clauses[i],
            output,
        )
}

/// Whether the output keeps the states that the constraints of the input ask to keep.
pub fn preserves_state_persistence_constraints(input: &str, output: &str) -> (r: bool)
    ensures
        r == spec_preserves_state_persistence_constraints(input@, output@),
{
    proof {
        reveal(spec_preserves_state_persistence_constraints);
    }
    let clauses: Vec<String> = clauses::required_constraint_clauses(input);
    let mut i: usize = 0;
    while i < clauses.len()
        invariant
            i <= clauses@.len(),
            contents::views(clauses@) == clauses::spec_required_constraint_clauses(input@),
            forall|j: int|
                #![trigger contents::views(clauses@)[j]] 0 <= j < i && spec_is_state_persistence_clause(
                    contents::views(clauses@)[j],
                ) ==> spec_state_persistence_clause_satisfied(contents::views(clauses@)[j], output@),
        decreases clauses@.len() - i,
    {
        proof {
            reveal(spec_preserves_state_persistence_constraints);
        }
        let clause: &str = &clauses[i];
        assert(contents::views(clauses@)[i as int] == clauses@[i as int]@);
        if is_state_persistence_clause(clause)
            && !state_persistence_clause_satisfied(clause, output) {
            return false;
        }
        i = i + 1;
    }
    true
}

/// The condition of [`contains_explicit_test_marker`]: the text speaks of tests.
#[verifier::opaque]
pub open spec fn spec_contains_explicit_test_marker(text: Seq<char>) -> bool {
    matching::spec_contains_any_marker(text, TEST_MARKERS@)
}

/// Whether the text speaks of tests.
pub fn contains_explicit_test_marker(text: &str) -> (r: bool)
    ensures
        r == spec_contains_explicit_test_marker(text@),
{
    proof {
        reveal(spec_contains_explicit_test_marker);
    }
    matching::contains_any_marker(text, &TEST_MARKERS)
}

/// The condition of [`is_verification_constraint_clause`]: the clause asks for tests of
/// something.
#[verifier::opaque]
pub open spec fn spec_is_verification_constraint_clause(clause: Seq<char>) -> bool {
    spec_contains_explicit_test_marker(clause)
        && matching::spec_contains_any_marker(
            clause,
            ["確認", "検証", "ケース", "正常系", "異常系", "境界値"]@,
        )
}

/// Whether the clause asks for tests of something.
pub fn is_verification_constraint_clause(clause: &str) -> (r: bool)
    ensures
        r == spec_is_verification_constraint_clause(clause@),
{
    proof {
        reveal(spec_is_verification_constraint_clause);
    }
    contains_explicit_test_marker(clause)
        && matching::contains_any_marker(
            clause,
            &["確認", "検証", "ケース", "正常系", "異常系", "境界値"],
        )
}

/// The state of [`verification_item_anchor`] after the given items.
pub open spec fn spec_anchor_before(
    items: Seq<&str>,
    trimmed: Seq<char>,
    best: Seq<char>,
) -> (Seq<char>, bool)
    decreases items.len(),
{
    if items.len() == 0 {
        (best, false)
    } else {
        let (best, found) = spec_anchor_before(items.drop_last(), trimmed, best);
        let particle = items.last()@;
        match text::spec_find(trimmed, particle) {
            Some(index) => {
                let candidate = text::spec_take(trimmed, index);
                if candidate.len() >= 2 && (!found || candidate.len() < best.len()) {
                    let best = candidate;
                    let found = true;
                    (best, found)
                } else {
                    (best, found)
                }
            },
            None => (best, found),
        }
    }
}

/// Value of [`verification_item_anchor`].
pub open spec fn spec_verification_item_anchor(item: Seq<char>) -> Seq<char> {
    let trimmed = text::spec_trim(
        text::spec_trim_end_text(
            text::spec_trim_end_text(
                text::spec_trim_end_text(
                    text::spec_trim_end_text(text::spec_trim(item), "を確認してください"@),
                    "を確認してほしいです"@,
                ),
                "を確認してほしい"@,
            ),
            "を確認"@,
        ),
    );
    let best = trimmed;
    let (best, found) = spec_anchor_before(ITEM_PARTICLES@, trimmed, best);
    text::spec_trim(best)
}

/// The words by which an item of a list of tests is recognized: the shortest part before a
/// particle, if it has two characters or more.
pub fn verification_item_anchor(item: &str) -> (r: String)
    ensures
        r@ == spec_verification_item_anchor(item@),
{
    let trimmed: String = text::trim(
        &text::trim_end_text(
            &text::trim_end_text(
                &text::trim_end_text(
                    &text::trim_end_text(&text::trim(item), "を確認してください"),
                    "を確認してほしいです",
                ),
                "を確認してほしい",
            ),
            "を確認",
        ),
    );
    let mut best: String = trimmed.clone();
    let mut found: bool = false;
    let ghost initial_best = best@;
    let mut i: usize = 0;
    while i < ITEM_PARTICLES.len()
        invariant
            i <= ITEM_PARTICLES@.len(),
            (best@, found) == spec_anchor_before(
                ITEM_PARTICLES@.take(i as int),
                trimmed@,
                initial_best,
            ),
        decreases ITEM_PARTICLES@.len() - i,
    {
        assert(ITEM_PARTICLES@.take(i + 1).drop_last() =~= ITEM_PARTICLES@.take(i as int));
        let particle: &str = ITEM_PARTICLES[i];
        i = i + 1;
        match text::find(&trimmed, particle) {
            Some(index) => {
                let candidate: String = text::take(&trimmed, index);
                if text::char_count(&candidate) >= 2
                    && (!found || text::char_count(&candidate) < text::char_count(&best)) {
                    best = candidate;
                    found = true;
                }
            },
            None => {
            },
        }
    }
    assert(ITEM_PARTICLES@.take(ITEM_PARTICLES@.len() as int) =~= ITEM_PARTICLES@);
    text::trim(&best)
}

/// The condition of [`verification_item_present`]: the scope names the item.
#[verifier::opaque]
pub open spec fn spec_verification_item_present(item: Seq<char>, scope: Seq<char>) -> bool {
    let anchor = spec_verification_item_anchor(item);
    anchor.len() > 0 && matching::spec_contains_ascii_case_insensitive(scope, anchor)
}

/// Whether the scope names the item.
pub fn verification_item_present(item: &str, scope: &str) -> (r: bool)
    ensures
        r == spec_verification_item_present(item@, scope@),
{
    proof {
        reveal(spec_verification_item_present);
    }
    let anchor: String = verification_item_anchor(item);
    text::char_count(&anchor) > 0 && matching::contains_ascii_case_insensitive(scope, &anchor)
}

/// The condition of [`all_verification_items_present`]: the scope names every item.
#[verifier::opaque]
pub open spec fn spec_all_verification_items_present(
    listed: Seq<Seq<char>>,
    scope: Seq<char>,
) -> bool {
    forall|i: int|
        #![trigger listed[i]] 0 <= i < listed.len() ==> spec_verification_item_present(
            listed[i],
            scope,
        )
}

/// Whether the scope names every item.
pub fn all_verification_items_present(listed: &Vec<String>, scope: &str) -> (r: bool)
    ensures
        r == spec_all_verification_items_present(contents::views(listed@), scope@),
{
    proof {
        reveal(spec_all_verification_items_present);
    }
    let mut i: usize = 0;
    while i < listed.len()
        invariant
            i <= listed@.len(),
            forall|j: int|
                #![trigger contents::views(listed@)[j]] 0 <= j < i ==> spec_verification_item_present(
                    contents::views(listed@)[j],
                    scope@,
                ),
        decreases listed@.len() - i,
    {
        proof {
            reveal(spec_all_verification_items_present);
        }
        let item: &str = &listed[i];
        assert(contents::views(listed@)[i as int] == listed@[i as int]@);
        if !verification_item_present(item, scope) {
            return false;
        }
        i = i + 1;
    }
    true
}

/// Value of [`method_and_subject`].
pub open spec fn spec_method_and_subject(first: Seq<char>) -> Option<(Seq<char>, Seq<char>)> {
    match text::spec_split_once(first, "では"@) {
        Some(parts) => Some(parts),
        None => text::spec_split_once(first, "で"@),
    }
}

/// The means of a test and its first subject.
pub fn method_and_subject(first: &str) -> (r: Option<(String, String)>)
    ensures
        contents::view_pair(r) == spec_method_and_subject(first@),
{
    match text::split_once(first, "では") {
        Some(parts) => {
            Some(parts)
        },
        None => {
            text::split_once(first, "で")
        },
    }
}

/// The condition of [`enumerated_verification_targets_satisfied`]: the output names, after the
/// means of the tests, every subject that the clause lists.
#[verifier::opaque]
pub open spec fn spec_enumerated_verification_targets_satisfied(
    clause: Seq<char>,
    output: Seq<char>,
) -> bool {
    let listed = text::spec_segments(clause, "、,"@);
    if listed.len() < 2 {
        true
    } else {
        match spec_method_and_subject(listed[0]) {
            None => true,
            Some(parts) => {
                let method = text::spec_trim(parts.0);
                if method.len() == 0
                    || method.len() > 32
                    || !spec_contains_explicit_test_marker(method) {
                    true
                } else {
                    match text::spec_find(output, method) {
                        None => false,
                        Some(start) => {
                            let scope = text::spec_skip(output, start);
                            spec_verification_item_present(parts.1, scope)
                                && spec_all_verification_items_present(
                                    text::spec_skip_list(listed, 1),
                                    scope,
                                )
                        },
                    }
                }
            },
        }
    }
}

/// Whether the output names, after the means of the tests, every subject that the clause lists.
pub fn enumerated_verification_targets_satisfied(clause: &str, output: &str) -> (r: bool)
    ensures
        r == spec_enumerated_verification_targets_satisfied(clause@, output@),
{
    proof {
        reveal(spec_enumerated_verification_targets_satisfied);
    }
    let listed: Vec<String> = text::segments(clause, "、,");
    if listed.len() < 2 {
        return true;
    }
    let parts = match method_and_subject(&listed[0]) {
        Some(value) => value,
        None => {
            return true;
        },
    };
    let method: String = text::trim(&parts.0);
    if text::char_count(&method) == 0
        || text::char_count(&method) > 32
        || !contains_explicit_test_marker(&method) {
        return true;
    }
    let start: usize = match text::find(output, &method) {
        Some(value) => value,
        None => {
            return false;
        },
    };
    let scope: String = text::skip(output, start);
    verification_item_present(&parts.1, &scope)
        && all_verification_items_present(&text::skip_list(&listed, 1), &scope)
}

/// The condition of [`all_cases_named`]: the output names every kind of test case that the clause
/// names.
pub open spec fn spec_all_cases_named(clause: Seq<char>, output: Seq<char>) -> bool {
    forall|i: int|
        #![trigger VERIFICATION_CASES@[i]] 0 <= i < VERIFICATION_CASES@.len() ==> (!text::spec_contains(
            clause,
            VERIFICATION_CASES@[i]@,
        )
                || text::spec_contains(output, VERIFICATION_CASES@[i]@))
}

/// Whether the output names every kind of test case that the clause names.
pub fn all_cases_named(clause: &str, output: &str) -> (r: bool)
    ensures
        r == spec_all_cases_named(clause@, output@),
{
    let mut i: usize = 0;
    while i < VERIFICATION_CASES.len()
        invariant
            i <= VERIFICATION_CASES@.len(),
            forall|j: int|
                #![trigger VERIFICATION_CASES@[j]] 0 <= j < i ==> (!text::spec_contains(
                    clause@,
                    VERIFICATION_CASES@[j]@,
                )
                    || text::spec_contains(output@, VERIFICATION_CASES@[j]@)),
        decreases VERIFICATION_CASES@.len() - i,
    {
        let marker: &str = VERIFICATION_CASES[i];
        if !(!text::contains(clause, marker) || text::contains(output, marker)) {
            return false;
        }
        i = i + 1;
    }
    true
}

/// The condition of [`verification_constraint_satisfied`]: the output asks for the tests that the
/// clause asks for.
#[verifier::opaque]
pub open spec fn spec_verification_constraint_satisfied(
    clause: Seq<char>,
    output: Seq<char>,
) -> bool {
    if !matching::spec_contains_any_marker(output, ["テスト", "確認", "検証"]@) {
        false
    } else {
        if !spec_all_cases_named(clause, output) {
            false
        } else {
            if text::spec_contains(clause, "空文字"@)
                && !matching::spec_contains_any_marker(output, ["空文字", "空"]@) {
                false
            } else {
                spec_enumerated_verification_targets_satisfied(clause, output)
            }
        }
    }
}

/// Whether the output asks for the tests that the clause asks for.
pub fn verification_constraint_satisfied(clause: &str, output: &str) -> (r: bool)
    ensures
        r == spec_verification_constraint_satisfied(clause@, output@),
{
    proof {
        reveal(spec_verification_constraint_satisfied);
    }
    if !matching::contains_any_marker(output, &["テスト", "確認", "検証"]) {
        return false;
    }
    if !all_cases_named(clause, output) {
        return false;
    }
    if text::contains(clause, "空文字") && !matching::contains_any_marker(output, &["空文字", "空"]) {
        return false;
    }
    enumerated_verification_targets_satisfied(clause, output)
}

/// The condition of [`preserves_verification_constraints`]: the output asks for the tests that
/// the input asks for.
#[verifier::opaque]
pub open spec fn spec_preserves_verification_constraints(
    input: Seq<char>,
    output: Seq<char>,
) -> bool {
    let clauses = clauses::spec_input_clauses(input);
    forall|i: int|
        #![trigger clauses[i]] 0 <= i < clauses.len()
        && spec_is_verification_constraint_clause(clauses[i]) ==> spec_verification_constraint_satisfied(
            clauses[i],
            output,
        )
}

/// Whether the output asks for the tests that the input asks for.
pub fn preserves_verification_constraints(input: &str, output: &str) -> (r: bool)
    ensures
        r == spec_preserves_verification_constraints(input@, output@),
{
    proof {
        reveal(spec_preserves_verification_constraints);
    }
    let clauses: Vec<String> = clauses::input_clauses(input);
    let mut i: usize = 0;
    while i < clauses.len()
        invariant
            i <= clauses@.len(),
            contents::views(clauses@) == clauses::spec_input_clauses(input@),
            forall|j: int|
                #![trigger contents::views(clauses@)[j]] 0 <= j < i && spec_is_verification_constraint_clause(
                    contents::views(clauses@)[j],
                ) ==> spec_verification_constraint_satisfied(contents::views(clauses@)[j], output@),
        decreases clauses@.len() - i,
    {
        proof {
            reveal(spec_preserves_verification_constraints);
        }
        let clause: &str = &clauses[i];
        assert(contents::views(clauses@)[i as int] == clauses@[i as int]@);
        if is_verification_constraint_clause(clause)
            && !verification_constraint_satisfied(clause, output) {
            return false;
        }
        i = i + 1;
    }
    true
}

/// Value of [`constraint_target_anchor`].
pub open spec fn spec_constraint_target_anchor(target: Seq<char>) -> Seq<char> {
    let none = text::spec_words(text::spec_replace_all(target, ANCHOR_SHORT_FORMS@));
    text::spec_join(none, ""@)
}

/// The form under which targets are compared.
pub fn constraint_target_anchor(target: &str) -> (r: String)
    ensures
        r@ == spec_constraint_target_anchor(target@),
{
    let none: Vec<String> = text::words(&text::replace_all(target, &ANCHOR_SHORT_FORMS));
    text::join(&none, "")
}

/// Value of [`ascii_terms`].
pub open spec fn spec_ascii_terms(terms: Seq<Seq<char>>) -> Seq<Seq<char>> {
    terms.filter(|term: Seq<char>| text::spec_is_ascii(term))
}

/// The terms that are made of ASCII characters.
pub fn ascii_terms(terms: &Vec<String>) -> (r: Vec<String>)
    ensures
        contents::views(r@) == spec_ascii_terms(contents::views(terms@)),
{
    proof {
        reveal(Seq::filter);
    }
    let mut out: Vec<String> = Vec::new();
    let mut i: usize = 0;
    while i < terms.len()
        invariant
            i <= terms@.len(),
            contents::views(out@) == spec_ascii_terms(contents::views(terms@).take(i as int)),
        decreases terms@.len() - i,
    {
        proof {
            reveal(Seq::filter);
        }
        assert(contents::views(terms@).take(i + 1).drop_last()
            =~= contents::views(terms@).take(i as int));
        let term: &str = &terms[i];
        i = i + 1;
        if text::is_ascii(term) {
            out.push(term.to_owned());
        }
    }
    assert(contents::views(terms@).take(terms@.len() as int) =~= contents::views(terms@));
    out
}

/// The condition of [`shared_predicate_target_satisfied`]: the output names the target, by its
/// technical terms or by its short form.
#[verifier::opaque]
pub open spec fn spec_shared_predicate_target_satisfied(
    target: Seq<char>,
    output: Seq<char>,
) -> bool {
    let technical_terms = spec_ascii_terms(terms::spec_required_technical_terms(target));
    if technical_terms.len() > 0 && matching::spec_all_terms_present(technical_terms, output) {
        true
    } else {
        let anchor = spec_constraint_target_anchor(target);
        anchor.len() > 0
            && matching::spec_contains_ascii_case_insensitive(
                spec_constraint_target_anchor(output),
                anchor,
            )
    }
}

/// Whether the output names the target, by its technical terms or by its short form.
pub fn shared_predicate_target_satisfied(target: &str, output: &str) -> (r: bool)
    ensures
        r == spec_shared_predicate_target_satisfied(target@, output@),
{
    proof {
        reveal(spec_shared_predicate_target_satisfied);
    }
    let technical_terms: Vec<String> = ascii_terms(&terms::required_technical_terms(target));
    if technical_terms.len() > 0 && matching::all_terms_present(&technical_terms, output) {
        return true;
    }
    let anchor: String = constraint_target_anchor(target);
    text::char_count(&anchor) > 0
        && matching::contains_ascii_case_insensitive(&constraint_target_anchor(output), &anchor)
}

/// The condition of [`all_targets_satisfied`]: the output names every target.
#[verifier::opaque]
pub open spec fn spec_all_targets_satisfied(targets: Seq<Seq<char>>, output: Seq<char>) -> bool {
    forall|i: int|
        #![trigger targets[i]] 0 <= i < targets.len() ==> spec_shared_predicate_target_satisfied(
            targets[i],
            output,
        )
}

/// Whether the output names every target.
pub fn all_targets_satisfied(targets: &Vec<String>, output: &str) -> (r: bool)
    ensures
        r == spec_all_targets_satisfied(contents::views(targets@), output@),
{
    proof {
        reveal(spec_all_targets_satisfied);
    }
    let mut i: usize = 0;
    while i < targets.len()
        invariant
            i <= targets@.len(),
            forall|j: int|
                #![trigger contents::views(targets@)[j]] 0 <= j < i ==> spec_shared_predicate_target_satisfied(
                    contents::views(targets@)[j],
                    output@,
                ),
        decreases targets@.len() - i,
    {
        proof {
            reveal(spec_all_targets_satisfied);
        }
        let target: &str = &targets[i];
        assert(contents::views(targets@)[i as int] == targets@[i as int]@);
        if !shared_predicate_target_satisfied(target, output) {
            return false;
        }
        i = i + 1;
    }
    true
}

/// The condition of [`retry_limit_interval_clause_satisfied`]: the clause limits retries and the
/// output keeps limit and intervals.
#[verifier::opaque]
pub open spec fn spec_retry_limit_interval_clause_satisfied(
    clause: Seq<char>,
    output: Seq<char>,
) -> bool {
    if !(text::spec_contains(clause, "再試行"@)
        && text::spec_contains(clause, "最大"@)
        && text::spec_contains(clause, "それ以上"@)
        && text::spec_contains(clause, "行わない"@)) {
        false
    } else {
        matching::spec_contains_any_marker(output, ["再試行"]@)
            && matching::spec_contains_any_marker(output, ["最大2回", "最大 2 回", "2回まで"]@)
            && matching::spec_contains_any_marker(output, ["1秒と2秒", "1秒/2秒", "1 秒と 2 秒"]@)
            && matching::spec_contains_any_marker(
                output,
                ["それ以上行わない", "それ以上は行わない"]@,
            )
    }
}

/// Whether the clause limits retries and the output keeps limit and intervals.
pub fn retry_limit_interval_clause_satisfied(clause: &str, output: &str) -> (r: bool)
    ensures
        r == spec_retry_limit_interval_clause_satisfied(clause@, output@),
{
    proof {
        reveal(spec_retry_limit_interval_clause_satisfied);
    }
    if !(text::contains(clause, "再試行")
        && text::contains(clause, "最大")
        && text::contains(clause, "それ以上")
        && text::contains(clause, "行わない")) {
        return false;
    }
    matching::contains_any_marker(output, &["再試行"])
        && matching::contains_any_marker(output, &["最大2回", "最大 2 回", "2回まで"])
        && matching::contains_any_marker(output, &["1秒と2秒", "1秒/2秒", "1 秒と 2 秒"])
        && matching::contains_any_marker(output, &["それ以上行わない", "それ以上は行わない"])
}

/// The condition of [`list_constraint_satisfied`]: the output keeps every item of the list that
/// the clause gives.
#[verifier::opaque]
pub open spec fn spec_list_constraint_satisfied(clause: Seq<char>, output: Seq<char>) -> bool {
    if spec_retry_limit_interval_clause_satisfied(clause, output) {
        true
    } else {
        match clauses::spec_parse_conditional_value_list(clause) {
            Some(condition) => {
                matching::spec_contains_ascii_case_insensitive(output, condition.key)
                    && matching::spec_all_terms_present(condition.values, output)
            },
            None => {
                match clauses::spec_parse_shared_predicate_list(clause) {
                    Some(list) => spec_all_targets_satisfied(list.targets, output),
                    None => true,
                }
            },
        }
    }
}

/// Whether the output keeps every item of the list that the clause gives.
pub fn list_constraint_satisfied(clause: &str, output: &str) -> (r: bool)
    ensures
        r == spec_list_constraint_satisfied(clause@, output@),
{
    proof {
        reveal(spec_list_constraint_satisfied);
    }
    if retry_limit_interval_clause_satisfied(clause, output) {
        return true;
    }
    match clauses::parse_conditional_value_list(clause) {
        Some(condition) => {
            matching::contains_ascii_case_insensitive(output, &condition.key)
                && matching::all_terms_present(&condition.values, output)
        },
        None => {
            match clauses::parse_shared_predicate_list(clause) {
                Some(list) => {
                    all_targets_satisfied(&list.targets, output)
                },
                None => {
                    true
                },
            }
        },
    }
}

/// The condition of [`all_list_constraints_satisfied`]: the output keeps the lists of all
/// clauses.
#[verifier::opaque]
pub open spec fn spec_all_list_constraints_satisfied(
    clauses: Seq<Seq<char>>,
    output: Seq<char>,
) -> bool {
    forall|i: int|
        #![trigger clauses[i]] 0 <= i < clauses.len() ==> spec_list_constraint_satisfied(
            clauses[i],
            output,
        )
}

/// Whether the output keeps the lists of all clauses.
pub fn all_list_constraints_satisfied(clauses: &Vec<String>, output: &str) -> (r: bool)
    ensures
        r == spec_all_list_constraints_satisfied(contents::views(clauses@), output@),
{
    proof {
        reveal(spec_all_list_constraints_satisfied);
    }
    let mut i: usize = 0;
    while i < clauses.len()
        invariant
            i <= clauses@.len(),
            forall|j: int|
                #![trigger contents::views(clauses@)[j]] 0 <= j < i ==> spec_list_constraint_satisfied(
                    contents::views(clauses@)[j],
                    output@,
                ),
        decreases clauses@.len() - i,
    {
        proof {
            reveal(spec_all_list_constraints_satisfied);
        }
        let clause: &str = &clauses[i];
        assert(contents::views(clauses@)[i as int] == clauses@[i as int]@);
        if !list_constraint_satisfied(clause, output) {
            return false;
        }
        i = i + 1;
    }
    true
}

/// The condition of [`preserves_list_constraints`]: the output keeps the lists that the input
/// gives.
#[verifier::opaque]
pub open spec fn spec_preserves_list_constraints(input: Seq<char>, output: Seq<char>) -> bool {
    match clauses::spec_parse_counted_item_reference_list(input) {
        Some(list) => {
            if !spec_all_targets_satisfied(list.targets, output) {
                false
            } else {
                spec_all_list_constraints_satisfied(clauses::spec_input_clauses(input), output)
            }
        },
        None => {
            spec_all_list_constraints_satisfied(clauses::spec_input_clauses(input), output)
        },
    }
}

/// Whether the output keeps the lists that the input gives.
pub fn preserves_list_constraints(input: &str, output: &str) -> (r: bool)
    ensures
        r == spec_preserves_list_constraints(input@, output@),
{
    proof {
        reveal(spec_preserves_list_constraints);
    }
    match clauses::parse_counted_item_reference_list(input) {
        Some(list) => {
            if !all_targets_satisfied(&list.targets, output) {
                return false;
            }
            all_list_constraints_satisfied(&clauses::input_clauses(input), output)
        },
        None => {
            all_list_constraints_satisfied(&clauses::input_clauses(input), output)
        },
    }
}

/// The condition of [`negation_rule_kept`]: one rule of negation holds of input and output; the
/// alternatives are separated by bars.
#[verifier::opaque]
pub open spec fn spec_negation_rule_kept(
    input: Seq<char>,
    output: Seq<char>,
    required: Seq<char>,
    kept: Seq<char>,
) -> bool {
    !spec_constraint_marker_matches_input(input, text::spec_split_any(required, "|"@))
        || spec_holds_any_of(output, text::spec_split_any(kept, "|"@))
}

/// Whether one rule of negation holds of input and output; the alternatives are separated by
/// bars.
pub fn negation_rule_kept(input: &str, output: &str, required: &str, kept: &str) -> (r: bool)
    ensures
        r == spec_negation_rule_kept(input@, output@, required@, kept@),
{
    proof {
        reveal(spec_negation_rule_kept);
    }
    !constraint_marker_matches_input(input, &text::split_any(required, "|"))
        || holds_any_of(output, &text::split_any(kept, "|"))
}

/// The condition of [`negation_rules_kept`]: every rule of negation holds of input and output.
#[verifier::opaque]
pub open spec fn spec_negation_rules_kept(input: Seq<char>, output: Seq<char>) -> bool {
    forall|i: int|
        #![trigger NEGATION_RULES@[i]] 0 <= i < NEGATION_RULES@.len() ==> spec_negation_rule_kept(
            input,
            output,
            NEGATION_RULES@[i].0@,
            NEGATION_RULES@[i].1@,
        )
}

/// Whether every rule of negation holds of input and output.
pub fn negation_rules_kept(input: &str, output: &str) -> (r: bool)
    ensures
        r == spec_negation_rules_kept(input@, output@),
{
    proof {
        reveal(spec_negation_rules_kept);
    }
    let mut i: usize = 0;
    while i < NEGATION_RULES.len()
        invariant
            i <= NEGATION_RULES@.len(),
            forall|j: int|
                #![trigger NEGATION_RULES@[j]] 0 <= j < i ==> spec_negation_rule_kept(
                    input@,
                    output@,
                    NEGATION_RULES@[j].0@,
                    NEGATION_RULES@[j].1@,
                ),
        decreases NEGATION_RULES@.len() - i,
    {
        proof {
            reveal(spec_negation_rules_kept);
        }
        let required: &str = NEGATION_RULES[i].0;
        let kept: &str = NEGATION_RULES[i].1;
        if !negation_rule_kept(input, output, required, kept) {
            return false;
        }
        i = i + 1;
    }
    true
}

/// The condition of [`preserves_negative_constraints`]: the output keeps the states, tests, lists
/// and negations that the input asks for.
#[verifier::opaque]
pub open spec fn spec_preserves_negative_constraints(input: Seq<char>, output: Seq<char>) -> bool {
    let lower_input = text::spec_lowercase(input);
    let lower_output = text::spec_lowercase(output);
    spec_preserves_state_persistence_constraints(lower_input, lower_output)
        && spec_preserves_verification_constraints(lower_input, lower_output)
        && spec_preserves_list_constraints(lower_input, lower_output)
        && spec_negation_rules_kept(lower_input, lower_output)
}

/// Whether the output keeps the states, tests, lists and negations that the input asks for.
pub fn preserves_negative_constraints(input: &str, output: &str) -> (r: bool)
    ensures
        r == spec_preserves_negative_constraints(input@, output@),
{
    proof {
        reveal(spec_preserves_negative_constraints);
    }
    let lower_input: String = text::lowercase(input);
    let lower_output: String = text::lowercase(output);
    preserves_state_persistence_constraints(&lower_input, &lower_output)
        && preserves_verification_constraints(&lower_input, &lower_output)
        && preserves_list_constraints(&lower_input, &lower_output)
        && negation_rules_kept(&lower_input, &lower_output)
}

/// The case of ASCII letters has no part in what an output keeps: requests that differ in nothing
/// else ask for the same, and outputs that differ in nothing else keep the same.
pub proof fn constraints_are_kept_in_either_case(
    input: Seq<char>,
    other_input: Seq<char>,
    output: Seq<char>,
    other_output: Seq<char>,
)
    requires
        text::spec_same_ignoring_case(input, other_input),
        text::spec_same_ignoring_case(output, other_output),
    ensures
        spec_preserves_negative_constraints(input, output) == spec_preserves_negative_constraints(
            other_input,
            other_output,
        ),
{
    reveal(spec_preserves_negative_constraints);
}

/// Where the first text says one of the given things, in whatever case of ASCII letters, the second
/// says one of the others.
pub open spec fn is_answered_by(
    input: Seq<char>,
    said: Seq<Seq<char>>,
    output: Seq<char>,
    answers: Seq<Seq<char>>,
) -> bool {
    (exists|i: int|
        0 <= i < said.len() && parts::holds_in_some_case(input, #[trigger] said[i])) ==> exists|
        j: int,
    |
        0 <= j < answers.len() && parts::holds_in_some_case(output, #[trigger] answers[j])
}

/// The texts that a text lists between bars.
pub open spec fn listed(texts: &str) -> Seq<Seq<char>> {
    text::spec_split_any(texts@, seq!['|'])
}

/// The pieces of a text in lower case are in lower case.
proof fn pieces_stay_in_lower_case(text: Seq<char>, k: int)
    requires
        parts::is_in_lower_case(text),
        0 <= k < text::spec_split_any(text, seq!['|']).len(),
    ensures
        parts::is_in_lower_case(text::spec_split_any(text, seq!['|'])[k]),
{
    let (start, end) = text::piece_has_its_place(text, seq!['|'], k);
    assert(forall|i: int| start <= i < end ==> text.subrange(start, end)[i - start] == #[trigger] text[i]);
}

/// A rule of negation binds the output: where the input holds one of its first alternatives, the
/// output holds one of the second.
proof fn rule_binds(
    input: Seq<char>,
    said: Seq<Seq<char>>,
    output: Seq<char>,
    answers: &str,
    k: int,
)
    requires
        spec_preserves_negative_constraints(input, output),
        0 <= k < NEGATION_RULES@.len(),
        said.len() > 0,
        NEGATION_RULES@[k].0@ == text::spec_join(said, seq!['|']),
        NEGATION_RULES@[k].1@ == answers@,
        text::all_lack(said, '|'),
        forall|i: int| 0 <= i < said.len() ==> parts::is_in_lower_case(#[trigger] said[i]),
        parts::is_in_lower_case(answers@),
        forall|i: int|
            0 <= i < said.len() ==> (#[trigger] said[i]).len() > 0 && (said[i].len() != 2 || said[i][1]
                != 'い') && (said[i].len() != 4 || said[i][0] != '出'),
    ensures
        is_answered_by(input, said, output, listed(answers)),
{
    reveal(spec_preserves_negative_constraints);
    reveal(spec_negation_rules_kept);
    reveal(spec_negation_rule_kept);
    reveal(spec_constraint_marker_matches_input);
    reveal_strlit("|");
    reveal_strlit("ない");
    reveal_strlit("出さない");
    assert("|"@ =~= seq!['|']);
    text::joined_texts_are_the_pieces(said, '|');
    let lower_input = text::spec_lowercase(input);
    let lower_output = text::spec_lowercase(output);
    let rule = NEGATION_RULES@[k];
    assert(spec_negation_rule_kept(lower_input, lower_output, rule.0@, rule.1@));
    assert(!spec_any_bare_negation(said)) by {
        let bare = ["ない", "出さない"]@;
        assert(bare[0]@ == "ない"@ && bare[1]@ == "出さない"@);
    }
    if exists|i: int|
        0 <= i < said.len() && parts::holds_in_some_case(input, #[trigger] said[i]) {
        let i = choose|i: int|
            0 <= i < said.len() && parts::holds_in_some_case(input, #[trigger] said[i]);
        let kept = listed(answers);
        parts::held_in_lower_case(input, said[i]);
        assert(text::spec_lowercase(lower_input) =~= lower_input);
        assert(spec_contains_any_of(lower_input, said));
        let j = choose|j: int|
            #![trigger kept[j]]
            0 <= j < kept.len() && text::spec_contains(lower_output, kept[j]);
        pieces_stay_in_lower_case(answers@, j);
        parts::lower_case_stays(kept[j]);
        parts::held_in_lower_case(output, kept[j]);
    }
}

/// A prompt that keeps the constraints of a request keeps what it forbids or does without: where the
/// request speaks of it, in whatever case, the prompt does too, in one of these ways.
pub proof fn prohibitions_survive(input: Seq<char>, output: Seq<char>)
    requires
        spec_preserves_negative_constraints(input, output),
    ensures
        is_answered_by(input, seq![
            "避け"@, "禁止"@, "avoid"@, "must not"@, "do not"@, "don't"@, "never"@,
        ], output, listed("避け|回避|禁止|しない|avoid|must not|do not|don't|never")),
        is_answered_by(input, seq![
            "しない"@, "不要"@, "なし"@, "without"@,
        ], output, listed("しない|せず|禁止|避け|回避|抑制|最小限|不要|なし|without|do not|must not")),
{
    reveal_strlit("避け");
    reveal_strlit("禁止");
    reveal_strlit("avoid");
    reveal_strlit("must not");
    reveal_strlit("do not");
    reveal_strlit("don't");
    reveal_strlit("never");
    reveal_strlit("避け|禁止|avoid|must not|do not|don't|never");
    reveal_strlit("避け|回避|禁止|しない|avoid|must not|do not|don't|never");
    reveal_strlit("しない");
    reveal_strlit("不要");
    reveal_strlit("なし");
    reveal_strlit("without");
    reveal_strlit("しない|不要|なし|without");
    reveal_strlit("しない|せず|禁止|避け|回避|抑制|最小限|不要|なし|without|do not|must not");
    let one0 = seq!["避け"@];
    let more0_1 = one0.push("禁止"@);
    parts::joined_with_one_more(one0, "禁止"@, seq!['|']);
    let more0_2 = more0_1.push("avoid"@);
    parts::joined_with_one_more(more0_1, "avoid"@, seq!['|']);
    let more0_3 = more0_2.push("must not"@);
    parts::joined_with_one_more(more0_2, "must not"@, seq!['|']);
    let more0_4 = more0_3.push("do not"@);
    parts::joined_with_one_more(more0_3, "do not"@, seq!['|']);
    let more0_5 = more0_4.push("don't"@);
    parts::joined_with_one_more(more0_4, "don't"@, seq!['|']);
    let more0_6 = more0_5.push("never"@);
    parts::joined_with_one_more(more0_5, "never"@, seq!['|']);
    assert(more0_6 =~= seq!["避け"@, "禁止"@, "avoid"@, "must not"@, "do not"@, "don't"@, "never"@]);
    assert(text::spec_join(seq![
        "避け"@, "禁止"@, "avoid"@, "must not"@, "do not"@, "don't"@, "never"@,
    ], seq!['|']) =~= "避け|禁止|avoid|must not|do not|don't|never"@);
    rule_binds(input, seq![
        "避け"@, "禁止"@, "avoid"@, "must not"@, "do not"@, "don't"@, "never"@,
    ], output, "避け|回避|禁止|しない|avoid|must not|do not|don't|never", 0);
    let one1 = seq!["しない"@];
    let more1_1 = one1.push("不要"@);
    parts::joined_with_one_more(one1, "不要"@, seq!['|']);
    let more1_2 = more1_1.push("なし"@);
    parts::joined_with_one_more(more1_1, "なし"@, seq!['|']);
    let more1_3 = more1_2.push("without"@);
    parts::joined_with_one_more(more1_2, "without"@, seq!['|']);
    assert(more1_3 =~= seq!["しない"@, "不要"@, "なし"@, "without"@]);
    assert(text::spec_join(seq![
        "しない"@, "不要"@, "なし"@, "without"@,
    ], seq!['|']) =~= "しない|不要|なし|without"@);
    rule_binds(input, seq![
        "しない"@, "不要"@, "なし"@, "without"@,
    ], output, "しない|せず|禁止|避け|回避|抑制|最小限|不要|なし|without|do not|must not", 1);
}

/// A prompt that keeps the constraints of a request keeps what it wants unchanged.
pub proof fn unchanged_parts_stay_unchanged(input: Seq<char>, output: Seq<char>)
    requires
        spec_preserves_negative_constraints(input, output),
    ensures
        is_answered_by(input, seq![
            "変更せず"@, "変更しない"@, "変更なし"@, "変えない"@, "改変せず"@, "改変しない"@, "改変なし"@,
        ], output, listed("変更せず|変更しない|変更なし|変えない|改変せず|改変しない|改変なし|維持|保持|そのまま")),
        is_answered_by(input, seq!["書き換えず"@], output, listed("書き換えず|書き換えない")),
        is_answered_by(input, seq!["削除せず"@], output, listed("削除せず|削除しない|維持|保持|共存")),
        is_answered_by(input, seq!["変えず"@], output, listed("変えず|変更せず|変更しない")),
        is_answered_by(input, seq!["削除しない"@], output, listed("削除しない")),
        is_answered_by(input, seq!["変更不可"@], output, listed("変更不可|禁止")),
{
    reveal_strlit("変更せず");
    reveal_strlit("変更しない");
    reveal_strlit("変更なし");
    reveal_strlit("変えない");
    reveal_strlit("改変せず");
    reveal_strlit("改変しない");
    reveal_strlit("改変なし");
    reveal_strlit("変更せず|変更しない|変更なし|変えない|改変せず|改変しない|改変なし");
    reveal_strlit("変更せず|変更しない|変更なし|変えない|改変せず|改変しない|改変なし|維持|保持|そのまま");
    reveal_strlit("書き換えず");
    reveal_strlit("書き換えず|書き換えない");
    reveal_strlit("削除せず");
    reveal_strlit("削除せず|削除しない|維持|保持|共存");
    reveal_strlit("変えず");
    reveal_strlit("変えず|変更せず|変更しない");
    reveal_strlit("削除しない");
    reveal_strlit("変更不可");
    reveal_strlit("変更不可|禁止");
    let one2 = seq!["変更せず"@];
    let more2_1 = one2.push("変更しない"@);
    parts::joined_with_one_more(one2, "変更しない"@, seq!['|']);
    let more2_2 = more2_1.push("変更なし"@);
    parts::joined_with_one_more(more2_1, "変更なし"@, seq!['|']);
    let more2_3 = more2_2.push("変えない"@);
    parts::joined_with_one_more(more2_2, "変えない"@, seq!['|']);
    let more2_4 = more2_3.push("改変せず"@);
    parts::joined_with_one_more(more2_3, "改変せず"@, seq!['|']);
    let more2_5 = more2_4.push("改変しない"@);
    parts::joined_with_one_more(more2_4, "改変しない"@, seq!['|']);
    let more2_6 = more2_5.push("改変なし"@);
    parts::joined_with_one_more(more2_5, "改変なし"@, seq!['|']);
    assert(more2_6 =~= seq!["変更せず"@, "変更しない"@, "変更なし"@, "変えない"@, "改変せず"@, "改変しない"@, "改変なし"@]);
    assert(text::spec_join(seq![
        "変更せず"@, "変更しない"@, "変更なし"@, "変えない"@, "改変せず"@, "改変しない"@, "改変なし"@,
    ], seq!['|']) =~= "変更せず|変更しない|変更なし|変えない|改変せず|改変しない|改変なし"@);
    rule_binds(input, seq![
        "変更せず"@, "変更しない"@, "変更なし"@, "変えない"@, "改変せず"@, "改変しない"@, "改変なし"@,
    ], output, "変更せず|変更しない|変更なし|変えない|改変せず|改変しない|改変なし|維持|保持|そのまま", 2);
    rule_binds(input, seq!["書き換えず"@], output, "書き換えず|書き換えない", 6);
    rule_binds(input, seq!["削除せず"@], output, "削除せず|削除しない|維持|保持|共存", 8);
    rule_binds(input, seq!["変えず"@], output, "変えず|変更せず|変更しない", 12);
    rule_binds(input, seq!["削除しない"@], output, "削除しない", 15);
    rule_binds(input, seq!["変更不可"@], output, "変更不可|禁止", 16);
}

/// A prompt that keeps the constraints of a request keeps its contrasts and what it limits.
pub proof fn contrasts_and_limits_survive(input: Seq<char>, output: Seq<char>)
    requires
        spec_preserves_negative_constraints(input, output),
    ensures
        is_answered_by(input, seq!["ではなく"@, "でなく"@], output, listed("ではなく|でなく")),
        is_answered_by(input, seq!["のみ"@, "だけ"@, "only"@], output, listed("のみ|だけ|いずれか|only")),
        is_answered_by(input, seq!["超えたら"@], output, listed("超えたら")),
        is_answered_by(input, seq!["廃止"@], output, listed("廃止")),
        is_answered_by(input, seq!["クリア"@], output, listed("クリア")),
{
    reveal_strlit("ではなく");
    reveal_strlit("でなく");
    reveal_strlit("ではなく|でなく");
    reveal_strlit("のみ");
    reveal_strlit("だけ");
    reveal_strlit("only");
    reveal_strlit("のみ|だけ|only");
    reveal_strlit("のみ|だけ|いずれか|only");
    reveal_strlit("超えたら");
    reveal_strlit("廃止");
    reveal_strlit("クリア");
    let one3 = seq!["ではなく"@];
    let more3_1 = one3.push("でなく"@);
    parts::joined_with_one_more(one3, "でなく"@, seq!['|']);
    assert(more3_1 =~= seq!["ではなく"@, "でなく"@]);
    assert(text::spec_join(seq!["ではなく"@, "でなく"@], seq!['|']) =~= "ではなく|でなく"@);
    rule_binds(input, seq!["ではなく"@, "でなく"@], output, "ではなく|でなく", 3);
    let one40 = seq!["のみ"@];
    let more40_1 = one40.push("だけ"@);
    parts::joined_with_one_more(one40, "だけ"@, seq!['|']);
    let more40_2 = more40_1.push("only"@);
    parts::joined_with_one_more(more40_1, "only"@, seq!['|']);
    assert(more40_2 =~= seq!["のみ"@, "だけ"@, "only"@]);
    assert(text::spec_join(seq!["のみ"@, "だけ"@, "only"@], seq!['|']) =~= "のみ|だけ|only"@);
    rule_binds(input, seq!["のみ"@, "だけ"@, "only"@], output, "のみ|だけ|いずれか|only", 40);
    rule_binds(input, seq!["超えたら"@], output, "超えたら", 25);
    rule_binds(input, seq!["廃止"@], output, "廃止", 11);
    rule_binds(input, seq!["クリア"@], output, "クリア", 32);
}

/// A prompt that keeps the constraints of a request keeps that something does not grow or break.
pub proof fn sizes_and_counts_stay_bounded(input: Seq<char>, output: Seq<char>)
    requires
        spec_preserves_negative_constraints(input, output),
    ensures
        is_answered_by(input, seq!["はみ出さない"@], output, listed("はみ出さない|収ま|収め|バー内")),
        is_answered_by(input, seq!["壊れない"@], output, listed("壊れない|壊れず|壊さない|破損しない")),
        is_answered_by(input, seq!["下げない"@], output, listed("下げない")),
        is_answered_by(input, seq!["増えない"@], output, listed("増えない|増やさない|しない|回避|抑制|最小限")),
        is_answered_by(input, seq!["増やさない"@], output, listed("増えない|増やさない|しない|回避|抑制|最小限")),
        is_answered_by(input, seq!["増加させない"@], output, listed("増えない|増やさない|しない|回避|抑制|最小限")),
        is_answered_by(input, seq!["取りすぎない"@], output, listed("取りすぎない")),
        is_answered_by(input, seq![
            "増やさない"@, "増えない"@, "増加させない"@,
        ], output, listed("増やさない|増えない|増加させない|重複接続しない|回避|抑制|最小限")),
{
    reveal_strlit("はみ出さない");
    reveal_strlit("はみ出さない|収ま|収め|バー内");
    reveal_strlit("壊れない");
    reveal_strlit("壊れない|壊れず|壊さない|破損しない");
    reveal_strlit("下げない");
    reveal_strlit("増えない");
    reveal_strlit("増えない|増やさない|しない|回避|抑制|最小限");
    reveal_strlit("増やさない");
    reveal_strlit("増加させない");
    reveal_strlit("取りすぎない");
    reveal_strlit("増やさない|増えない|増加させない");
    reveal_strlit("増やさない|増えない|増加させない|重複接続しない|回避|抑制|最小限");
    rule_binds(input, seq!["はみ出さない"@], output, "はみ出さない|収ま|収め|バー内", 4);
    rule_binds(input, seq!["壊れない"@], output, "壊れない|壊れず|壊さない|破損しない", 7);
    rule_binds(input, seq!["下げない"@], output, "下げない", 10);
    rule_binds(input, seq!["増えない"@], output, "増えない|増やさない|しない|回避|抑制|最小限", 22);
    rule_binds(input, seq!["増やさない"@], output, "増えない|増やさない|しない|回避|抑制|最小限", 23);
    rule_binds(input, seq!["増加させない"@], output, "増えない|増やさない|しない|回避|抑制|最小限", 24);
    rule_binds(input, seq!["取りすぎない"@], output, "取りすぎない", 30);
    let one39 = seq!["増やさない"@];
    let more39_1 = one39.push("増えない"@);
    parts::joined_with_one_more(one39, "増えない"@, seq!['|']);
    let more39_2 = more39_1.push("増加させない"@);
    parts::joined_with_one_more(more39_1, "増加させない"@, seq!['|']);
    assert(more39_2 =~= seq!["増やさない"@, "増えない"@, "増加させない"@]);
    assert(text::spec_join(seq!["増やさない"@, "増えない"@, "増加させない"@], seq!['|']) =~= "増やさない|増えない|増加させない"@);
    rule_binds(input, seq![
        "増やさない"@, "増えない"@, "増加させない"@,
    ], output, "増やさない|増えない|増加させない|重複接続しない|回避|抑制|最小限", 39);
}

/// A prompt that keeps the constraints of a request keeps the actions that it rules out.
pub proof fn forbidden_actions_stay_forbidden(input: Seq<char>, output: Seq<char>)
    requires
        spec_preserves_negative_constraints(input, output),
    ensures
        is_answered_by(input, seq!["行わない"@], output, listed("行わない|しない")),
        is_answered_by(input, seq!["読み込まず"@], output, listed("読み込まず|読まない|読み込み禁止")),
        is_answered_by(input, seq!["入れない"@], output, listed("入れない|含めない|しない")),
        is_answered_by(input, seq!["影響させない"@], output, listed("影響させない")),
        is_answered_by(input, seq!["実通信しない"@], output, listed("実通信しない")),
        is_answered_by(input, seq!["送信しない"@], output, listed("送信しない")),
        is_answered_by(input, seq!["二重作成しない"@], output, listed("二重作成しない")),
        is_answered_by(input, seq!["再接続しない"@], output, listed("再接続しない")),
        is_answered_by(input, seq!["再試行しない"@], output, listed("再試行しない")),
{
    reveal_strlit("行わない");
    reveal_strlit("行わない|しない");
    reveal_strlit("読み込まず");
    reveal_strlit("読み込まず|読まない|読み込み禁止");
    reveal_strlit("入れない");
    reveal_strlit("入れない|含めない|しない");
    reveal_strlit("影響させない");
    reveal_strlit("実通信しない");
    reveal_strlit("送信しない");
    reveal_strlit("二重作成しない");
    reveal_strlit("再接続しない");
    reveal_strlit("再試行しない");
    rule_binds(input, seq!["行わない"@], output, "行わない|しない", 5);
    rule_binds(input, seq!["読み込まず"@], output, "読み込まず|読まない|読み込み禁止", 9);
    rule_binds(input, seq!["入れない"@], output, "入れない|含めない|しない", 13);
    rule_binds(input, seq!["影響させない"@], output, "影響させない", 14);
    rule_binds(input, seq!["実通信しない"@], output, "実通信しない", 17);
    rule_binds(input, seq!["送信しない"@], output, "送信しない", 18);
    rule_binds(input, seq!["二重作成しない"@], output, "二重作成しない", 19);
    rule_binds(input, seq!["再接続しない"@], output, "再接続しない", 20);
    rule_binds(input, seq!["再試行しない"@], output, "再試行しない", 21);
}

/// A prompt that keeps the constraints of a request keeps what it rules out of states, references and
/// what is shown.
pub proof fn remaining_negations_survive(input: Seq<char>, output: Seq<char>)
    requires
        spec_preserves_negative_constraints(input, output),
    ensures
        is_answered_by(input, seq!["再推論せず"@], output, listed("再推論せず")),
        is_answered_by(input, seq!["戻さない"@], output, listed("戻さない")),
        is_answered_by(input, seq!["参照しない"@], output, listed("参照しない")),
        is_answered_by(input, seq!["混ぜない"@, "混ざらない"@], output, listed("混ぜない|混ざらない|混在禁止|共有しない")),
        is_answered_by(input, seq!["押さなくても"@], output, listed("押さなくても")),
        is_answered_by(input, seq!["隠れない"@], output, listed("隠れない")),
        is_answered_by(input, seq!["見せない"@], output, listed("見せない")),
        is_answered_by(input, seq!["失わない"@], output, listed("失わない|残す|保持")),
        is_answered_by(input, seq!["依存せず"@], output, listed("依存せず")),
        is_answered_by(input, seq!["保存せず"@], output, listed("保存せず")),
{
    reveal_strlit("再推論せず");
    reveal_strlit("戻さない");
    reveal_strlit("参照しない");
    reveal_strlit("混ぜない");
    reveal_strlit("混ざらない");
    reveal_strlit("混ぜない|混ざらない");
    reveal_strlit("混ぜない|混ざらない|混在禁止|共有しない");
    reveal_strlit("押さなくても");
    reveal_strlit("隠れない");
    reveal_strlit("見せない");
    reveal_strlit("失わない");
    reveal_strlit("失わない|残す|保持");
    reveal_strlit("依存せず");
    reveal_strlit("保存せず");
    rule_binds(input, seq!["再推論せず"@], output, "再推論せず", 26);
    rule_binds(input, seq!["戻さない"@], output, "戻さない", 27);
    rule_binds(input, seq!["参照しない"@], output, "参照しない", 28);
    let one29 = seq!["混ぜない"@];
    let more29_1 = one29.push("混ざらない"@);
    parts::joined_with_one_more(one29, "混ざらない"@, seq!['|']);
    assert(more29_1 =~= seq!["混ぜない"@, "混ざらない"@]);
    assert(text::spec_join(seq!["混ぜない"@, "混ざらない"@], seq!['|']) =~= "混ぜない|混ざらない"@);
    rule_binds(input, seq!["混ぜない"@, "混ざらない"@], output, "混ぜない|混ざらない|混在禁止|共有しない", 29);
    rule_binds(input, seq!["押さなくても"@], output, "押さなくても", 31);
    rule_binds(input, seq!["隠れない"@], output, "隠れない", 33);
    rule_binds(input, seq!["見せない"@], output, "見せない", 35);
    rule_binds(input, seq!["失わない"@], output, "失わない|残す|保持", 36);
    rule_binds(input, seq!["依存せず"@], output, "依存せず", 37);
    rule_binds(input, seq!["保存せず"@], output, "保存せず", 38);
}

/// The state of [`last_predicate`] after the given items.
pub open spec fn spec_last_predicate_among(
    items: Seq<&str>,
    clause: Seq<char>,
    best: int,
) -> (int, bool)
    decreases items.len(),
{
    if items.len() == 0 {
        (best, false)
    } else {
        let (best, found) = spec_last_predicate_among(items.drop_last(), clause, best);
        let predicate = items.last()@;
        match text::spec_rfind(clause, predicate) {
            Some(index) => {
                if !found || index >= best {
                    let best: int = index;
                    let found = true;
                    (best, found)
                } else {
                    (best, found)
                }
            },
            None => (best, found),
        }
    }
}

/// Value of [`last_predicate`].
pub open spec fn spec_last_predicate(clause: Seq<char>) -> Option<int> {
    let best: int = 0;
    let (best, found) = spec_last_predicate_among(SOURCE_PREDICATES@, clause, best);
    if !found {
        None
    } else {
        Some(best)
    }
}

/// The last position at which a clause forbids a change.
pub fn last_predicate(clause: &str) -> (r: Option<usize>)
    ensures
        contents::view_position(r) == spec_last_predicate(clause@),
{
    let mut best: usize = 0;
    let mut found: bool = false;
    let ghost initial_best = best as int;
    let mut i: usize = 0;
    while i < SOURCE_PREDICATES.len()
        invariant
            i <= SOURCE_PREDICATES@.len(),
            (best as int, found) == spec_last_predicate_among(
                SOURCE_PREDICATES@.take(i as int),
                clause@,
                initial_best,
            ),
        decreases SOURCE_PREDICATES@.len() - i,
    {
        assert(SOURCE_PREDICATES@.take(i + 1).drop_last() =~= SOURCE_PREDICATES@.take(i as int));
        let predicate: &str = SOURCE_PREDICATES[i];
        i = i + 1;
        match text::rfind(clause, predicate) {
            Some(index) => {
                if !found || index >= best {
                    best = index;
                    found = true;
                }
            },
            None => {
            },
        }
    }
    assert(SOURCE_PREDICATES@.take(SOURCE_PREDICATES@.len() as int) =~= SOURCE_PREDICATES@);
    if !found {
        return None;
    }
    Some(best)
}

/// What [`first_stripped`] comes to from position `i` of the items on.
pub open spec fn spec_suffix_stripped(items: Seq<&str>, i: int, text: Seq<char>) -> Seq<char>
    decreases items.len() - i,
{
    if i >= items.len() {
        text
    } else {
        let suffix = items[i]@;
        match text::spec_strip_suffix(text, suffix) {
            Some(stem) => stem,
            None => spec_suffix_stripped(items, i + 1, text),
        }
    }
}

/// Value of [`first_stripped`].
pub open spec fn spec_first_stripped(text: Seq<char>, suffixes: Seq<&str>) -> Seq<char> {
    spec_suffix_stripped(suffixes, 0, text)
}

/// The text without the first of the suffixes that it ends with.
pub fn first_stripped(text: &str, suffixes: &[&str]) -> (r: String)
    ensures
        r@ == spec_first_stripped(text@, suffixes@),
{
    let ghost goal = spec_suffix_stripped(suffixes@, 0, text@);
    let mut i: usize = 0;
    while i < suffixes.len()
        invariant
            i <= suffixes@.len(),
            goal == spec_suffix_stripped(suffixes@, i as int, text@),
            goal == spec_first_stripped(text@, suffixes@),
        decreases suffixes@.len() - i,
    {
        let suffix: &str = suffixes[i];
        i = i + 1;
        match text::strip_suffix(text, suffix) {
            Some(stem) => {
                return stem;
            },
            None => {
            },
        }
    }
    text.to_owned()
}

/// The state of [`longest_ascii_token`] after the given items.
pub open spec fn spec_longest_token_among(items: Seq<Seq<char>>) -> (Seq<char>, bool)
    decreases items.len(),
{
    if items.len() == 0 {
        (Seq::<char>::empty(), false)
    } else {
        let (best, found) = spec_longest_token_among(items.drop_last());
        let token = items.last();
        if matching::spec_any_alpha(token) && (!found || token.len() >= best.len()) {
            let best = token;
            let found = true;
            (best, found)
        } else {
            (best, found)
        }
    }
}

/// Value of [`longest_ascii_token`].
#[verifier::opaque]
pub open spec fn spec_longest_ascii_token(text: Seq<char>) -> Option<Seq<char>> {
    let (best, found) = spec_longest_token_among(text::spec_split_tokens(text, "_-./:"@));
    if !found {
        None
    } else {
        Some(best)
    }
}

/// The last of the longest tokens of code with a letter in the text.
pub fn longest_ascii_token(text: &str) -> (r: Option<String>)
    ensures
        contents::view_option(r) == spec_longest_ascii_token(text@),
{
    proof {
        reveal(spec_longest_ascii_token);
    }
    let mut best: String = String::new();
    let mut found: bool = false;
    let items: Vec<String> = text::split_tokens(text, "_-./:");
    let mut i: usize = 0;
    while i < items.len()
        invariant
            i <= items@.len(),
            (best@, found) == spec_longest_token_among(contents::views(items@).take(i as int)),
        decreases items@.len() - i,
    {
        assert(contents::views(items@).take(i + 1).drop_last()
            =~= contents::views(items@).take(i as int));
        let token: &str = &items[i];
        i = i + 1;
        if matching::any_alpha(token)
            && (!found || text::char_count(token) >= text::char_count(&best)) {
            best = token.to_owned();
            found = true;
        }
    }
    assert(contents::views(items@).take(items@.len() as int) =~= contents::views(items@));
    if !found {
        return None;
    }
    Some(best)
}

/// Value of [`focused_target`].
pub open spec fn spec_focused_target(target: Seq<char>) -> Seq<char> {
    let trimmed = text::spec_trim(
        text::spec_trim_start_text(
            text::spec_trim_start_text(text::spec_trim(target), "既存の"@),
            "既存"@,
        ),
    );
    match text::spec_rsplit_once(trimmed, "の"@) {
        Some(parts) => {
            if text::spec_is_one_of(text::spec_trim(parts.1), ASPECT_WORDS@) {
                text::spec_trim(parts.0)
            } else {
                text::spec_trim(parts.1)
            }
        },
        None => trimmed,
    }
}

/// The part of a target that names it, without words about its aspects.
pub fn focused_target(target: &str) -> (r: String)
    ensures
        r@ == spec_focused_target(target@),
{
    let trimmed: String = text::trim(
        &text::trim_start_text(&text::trim_start_text(&text::trim(target), "既存の"), "既存"),
    );
    match text::rsplit_once(&trimmed, "の") {
        Some(parts) => {
            if text::is_one_of(&text::trim(&parts.1), &ASPECT_WORDS) {
                return text::trim(&parts.0);
            }
            text::trim(&parts.1)
        },
        None => {
            trimmed
        },
    }
}

/// Value of [`last_two`].
pub open spec fn spec_last_two(text: Seq<char>) -> Seq<char> {
    if text.len() <= 2 {
        text
    } else {
        text::spec_skip(text, text.len() - 2)
    }
}

/// The last two characters.
pub fn last_two(text: &str) -> (r: String)
    ensures
        r@ == spec_last_two(text@),
{
    if text::char_count(text) <= 2 {
        return text.to_owned();
    }
    text::skip(text, text::char_count(text) - 2)
}

/// Value of [`change_constraint_target_anchor`].
#[verifier::opaque]
pub open spec fn spec_change_constraint_target_anchor(target: Seq<char>) -> Option<Seq<char>> {
    let stem = spec_first_stripped(spec_focused_target(target), ["形式", "名前"]@);
    let focused = text::spec_trim(text::spec_trim_end_any(stem, "はをもにが"@));
    if focused.len() == 0 {
        None
    } else {
        match spec_longest_ascii_token(focused) {
            Some(anchor) => Some(anchor),
            None => Some(spec_last_two(focused)),
        }
    }
}

/// The words by which the target of a prohibition of change is recognized.
pub fn change_constraint_target_anchor(target: &str) -> (r: Option<String>)
    ensures
        contents::view_option(r) == spec_change_constraint_target_anchor(target@),
{
    proof {
        reveal(spec_change_constraint_target_anchor);
    }
    let stem: String = first_stripped(&focused_target(target), &["形式", "名前"]);
    let focused: String = text::trim(&text::trim_end_any(&stem, "はをもにが"));
    if text::char_count(&focused) == 0 {
        return None;
    }
    match longest_ascii_token(&focused) {
        Some(anchor) => {
            Some(anchor)
        },
        None => {
            Some(last_two(&focused))
        },
    }
}

/// The condition of [`any_clause_keeps_anchor`]: some clause names the anchor and forbids a
/// change.
#[verifier::opaque]
pub open spec fn spec_any_clause_keeps_anchor(clauses: Seq<Seq<char>>, anchor: Seq<char>) -> bool {
    exists|i: int|
        #![trigger clauses[i]] 0 <= i < clauses.len()
        && matching::spec_contains_ascii_case_insensitive(clauses[i], anchor)
            && matching::spec_contains_any_marker(clauses[i], OUTPUT_PREDICATES@)
}

/// Whether some clause names the anchor and forbids a change.
pub fn any_clause_keeps_anchor(clauses: &Vec<String>, anchor: &str) -> (r: bool)
    ensures
        r == spec_any_clause_keeps_anchor(contents::views(clauses@), anchor@),
{
    proof {
        reveal(spec_any_clause_keeps_anchor);
    }
    let mut i: usize = 0;
    while i < clauses.len()
        invariant
            i <= clauses@.len(),
            forall|j: int|
                #![trigger contents::views(clauses@)[j]] 0 <= j < i ==> !((matching::spec_contains_ascii_case_insensitive(
                    contents::views(clauses@)[j],
                    anchor@,
                )
                    && matching::spec_contains_any_marker(
                        contents::views(clauses@)[j],
                        OUTPUT_PREDICATES@,
                    ))),
        decreases clauses@.len() - i,
    {
        proof {
            reveal(spec_any_clause_keeps_anchor);
        }
        let clause: &str = &clauses[i];
        assert(contents::views(clauses@)[i as int] == clauses@[i as int]@);
        if matching::contains_ascii_case_insensitive(clause, anchor)
            && matching::contains_any_marker(clause, &OUTPUT_PREDICATES) {
            return true;
        }
        i = i + 1;
    }
    false
}

/// The condition of [`targeted_change_kept`]: the output keeps the prohibition of change that the
/// clause states of one target.
#[verifier::opaque]
pub open spec fn spec_targeted_change_kept(clause: Seq<char>, output: Seq<char>) -> bool {
    match spec_last_predicate(clause) {
        None => true,
        Some(predicate_index) => {
            let target_text = text::spec_trim(
                text::spec_trim_end_any(
                    text::spec_trim(text::spec_take(clause, predicate_index)),
                    "はをもが"@,
                ),
            );
            if target_text.len() == 0 || clauses::spec_parse_shared_predicate_list(clause) is Some {
                true
            } else {
                let targets = text::spec_segments(target_text, "、,/と"@);
                if targets.len() != 1 {
                    true
                } else {
                    match spec_change_constraint_target_anchor(targets[0]) {
                        None => true,
                        Some(anchor) => {
                            spec_any_clause_keeps_anchor(
                                clauses::spec_input_clauses(output),
                                anchor,
                            )
                        },
                    }
                }
            }
        },
    }
}

/// Whether the output keeps the prohibition of change that the clause states of one target.
pub fn targeted_change_kept(clause: &str, output: &str) -> (r: bool)
    ensures
        r == spec_targeted_change_kept(clause@, output@),
{
    proof {
        reveal(spec_targeted_change_kept);
    }
    let predicate_index: usize = match last_predicate(clause) {
        Some(value) => value,
        None => {
            return true;
        },
    };
    let target_text: String = text::trim(
        &text::trim_end_any(&text::trim(&text::take(clause, predicate_index)), "はをもが"),
    );
    if text::char_count(&target_text) == 0 || clauses::parse_shared_predicate_list(clause).is_some() {
        return true;
    }
    let targets: Vec<String> = text::segments(&target_text, "、,/と");
    if targets.len() != 1 {
        return true;
    }
    let anchor: String = match change_constraint_target_anchor(&targets[0]) {
        Some(value) => value,
        None => {
            return true;
        },
    };
    any_clause_keeps_anchor(&clauses::input_clauses(output), &anchor)
}

/// The condition of [`preserves_targeted_change_constraints`]: the output keeps every prohibition
/// of change that the input states of one target.
#[verifier::opaque]
pub open spec fn spec_preserves_targeted_change_constraints(
    input: Seq<char>,
    output: Seq<char>,
) -> bool {
    let clauses = clauses::spec_input_clauses(input);
    forall|i: int|
        #![trigger clauses[i]] 0 <= i < clauses.len() ==> spec_targeted_change_kept(
            clauses[i],
            output,
        )
}

/// Whether the output keeps every prohibition of change that the input states of one target.
pub fn preserves_targeted_change_constraints(input: &str, output: &str) -> (r: bool)
    ensures
        r == spec_preserves_targeted_change_constraints(input@, output@),
{
    proof {
        reveal(spec_preserves_targeted_change_constraints);
    }
    let clauses: Vec<String> = clauses::input_clauses(input);
    let mut i: usize = 0;
    while i < clauses.len()
        invariant
            i <= clauses@.len(),
            contents::views(clauses@) == clauses::spec_input_clauses(input@),
            forall|j: int|
                #![trigger contents::views(clauses@)[j]] 0 <= j < i ==> spec_targeted_change_kept(
                    contents::views(clauses@)[j],
                    output@,
                ),
        decreases clauses@.len() - i,
    {
        proof {
            reveal(spec_preserves_targeted_change_constraints);
        }
        let clause: &str = &clauses[i];
        assert(contents::views(clauses@)[i as int] == clauses@[i as int]@);
        if !targeted_change_kept(clause, output) {
            return false;
        }
        i = i + 1;
    }
    true
}

/// The condition of [`is_non_negative_zu_form`]: the text ends with a form that looks like a
/// negation and is none.
#[verifier::opaque]
pub open spec fn spec_is_non_negative_zu_form(prefix: Seq<char>) -> bool {
    matching::spec_ends_with_marker(prefix, NON_NEGATIVE_FORMS@)
}

/// Whether the text ends with a form that looks like a negation and is none.
pub fn is_non_negative_zu_form(prefix: &str) -> (r: bool)
    ensures
        r == spec_is_non_negative_zu_form(prefix@),
{
    proof {
        reveal(spec_is_non_negative_zu_form);
    }
    matching::ends_with_marker(prefix, &NON_NEGATIVE_FORMS)
}

/// The condition of [`any_negative_zu`]: a negation ends at one of the positions.
#[verifier::opaque]
pub open spec fn spec_any_negative_zu(clause: Seq<char>, starts: Seq<int>) -> bool {
    exists|i: int|
        #![trigger starts[i]] 0 <= i < starts.len()
        && !spec_is_non_negative_zu_form(text::spec_take(clause, starts[i]) + "ず"@)
}

/// Whether a negation ends at one of the positions.
pub fn any_negative_zu(clause: &str, starts: &Vec<usize>) -> (r: bool)
    ensures
        r == spec_any_negative_zu(clause@, contents::positions(starts@)),
{
    proof {
        reveal(spec_any_negative_zu);
    }
    let mut i: usize = 0;
    while i < starts.len()
        invariant
            i <= starts@.len(),
            forall|j: int|
                #![trigger contents::positions(starts@)[j]] 0 <= j < i ==> !(!spec_is_non_negative_zu_form(
                    text::spec_take(clause@, contents::positions(starts@)[j]) + "ず"@,
                )),
        decreases starts@.len() - i,
    {
        proof {
            reveal(spec_any_negative_zu);
        }
        let start: usize = starts[i];
        assert(contents::positions(starts@)[i as int] == starts@[i as int]);
        if !is_non_negative_zu_form(&text::concat2(&text::take(clause, start), "ず")) {
            return true;
        }
        i = i + 1;
    }
    false
}

/// The condition of [`contains_output_negative_marker`]: the clause holds a negation or what
/// amounts to one.
#[verifier::opaque]
pub open spec fn spec_contains_output_negative_marker(clause: Seq<char>) -> bool {
    if matching::spec_contains_any_marker(clause, OUTPUT_NEGATIVE_MARKERS@) {
        true
    } else {
        spec_any_negative_zu(clause, text::spec_match_indices(clause, "ず"@))
    }
}

/// Whether the clause holds a negation or what amounts to one.
pub fn contains_output_negative_marker(clause: &str) -> (r: bool)
    ensures
        r == spec_contains_output_negative_marker(clause@),
{
    proof {
        reveal(spec_contains_output_negative_marker);
    }
    if matching::contains_any_marker(clause, &OUTPUT_NEGATIVE_MARKERS) {
        return true;
    }
    any_negative_zu(clause, &text::match_indices(clause, "ず"))
}

/// The condition of [`is_skipped_form`]: the match at the position looks like a negation and is
/// none.
#[verifier::opaque]
pub open spec fn spec_is_skipped_form(clause: Seq<char>, start: int, marker: Seq<char>) -> bool {
    marker == "ず"@ && spec_is_non_negative_zu_form(text::spec_take(clause, start) + marker)
}

/// Whether the match at the position looks like a negation and is none.
pub fn is_skipped_form(clause: &str, start: usize, marker: &str) -> (r: bool)
    ensures
        r == spec_is_skipped_form(clause@, start as int, marker@),
{
    proof {
        reveal(spec_is_skipped_form);
    }
    text::same(marker, "ず")
        && is_non_negative_zu_form(&text::concat2(&text::take(clause, start), marker))
}

/// Some range of the lists covers the range from `start` to `end`.
pub open spec fn spec_range_covered(
    covered_starts: Seq<int>,
    covered_ends: Seq<int>,
    start: int,
    end: int,
) -> bool {
    exists|i: int|
        #![trigger covered_starts[i]]
        0 <= i < covered_starts.len() && i < covered_ends.len() && start >= covered_starts[i]
            && end <= covered_ends[i]
}

/// Whether some range of the lists covers the range from `start` to `end`.
pub fn range_covered(
    covered_starts: &Vec<usize>,
    covered_ends: &Vec<usize>,
    start: usize,
    end: usize,
) -> (r: bool)
    ensures
        r == spec_range_covered(
            contents::positions(covered_starts@),
            contents::positions(covered_ends@),
            start as int,
            end as int,
        ),
{
    let mut i: usize = 0;
    while i < covered_starts.len() && i < covered_ends.len()
        invariant
            i <= covered_starts@.len(),
            i <= covered_ends@.len(),
            forall|j: int|
                #![trigger contents::positions(covered_starts@)[j]]
                0 <= j < i ==> !(start >= contents::positions(covered_starts@)[j] && end
                    <= contents::positions(covered_ends@)[j]),
        decreases covered_starts@.len() - i,
    {
        assert(contents::positions(covered_starts@)[i as int] == covered_starts@[i as int]);
        assert(contents::positions(covered_ends@)[i as int] == covered_ends@[i as int]);
        if start >= covered_starts[i] && end <= covered_ends[i] {
            return true;
        }
        i = i + 1;
    }
    false
}

/// Value of [`negated_words`].
pub open spec fn spec_negated_words(before: Seq<char>) -> Seq<char> {
    let anchor = text::spec_trim(text::spec_tail_after(before, "。、,;；はをがも"@));
    match text::spec_strip_suffix(anchor, "し"@) {
        Some(stem) => stem,
        None => anchor,
    }
}

/// The words right before a negation, without a verb ending.
pub fn negated_words(before: &str) -> (r: String)
    ensures
        r@ == spec_negated_words(before@),
{
    let anchor: String = text::trim(&text::tail_after(before, "。、,;；はをがも"));
    match text::strip_suffix(&anchor, "し") {
        Some(stem) => {
            stem
        },
        None => {
            anchor
        },
    }
}

/// The state of [`negative_clause_requirements`] after the given items.
pub open spec fn spec_requirements_at(
    items: Seq<int>,
    marker: Seq<char>,
    clause: Seq<char>,
    covered_starts: Seq<int>,
    covered_ends: Seq<int>,
    requirements: Seq<Seq<char>>,
) -> (Seq<int>, Seq<int>, Seq<Seq<char>>)
    decreases items.len(),
{
    if items.len() == 0 {
        (covered_starts, covered_ends, requirements)
    } else {
        let (covered_starts, covered_ends, requirements) = spec_requirements_at(
            items.drop_last(),
            marker,
            clause,
            covered_starts,
            covered_ends,
            requirements,
        );
        let start = items.last();
        let end: int = text::spec_span_end(start, marker.len() as int);
        if spec_is_skipped_form(clause, start, marker)
            || spec_range_covered(covered_starts, covered_ends, start, end) {
            (covered_starts, covered_ends, requirements)
        } else {
            let covered_starts = covered_starts.push(start);
            let covered_ends = covered_ends.push(end);
            let anchor = spec_negated_words(text::spec_take(clause, start));
            let requirements = if anchor.len() > 0
                && anchor.len() <= 16
                && !requirements.contains(anchor) {
                requirements.push(anchor)
            } else {
                requirements
            };
            (covered_starts, covered_ends, requirements)
        }
    }
}

/// The state of [`negative_clause_requirements`] after the given items.
pub open spec fn spec_requirements_by_form(
    items: Seq<&str>,
    clause: Seq<char>,
) -> (Seq<int>, Seq<int>, Seq<Seq<char>>)
    decreases items.len(),
{
    if items.len() == 0 {
        (Seq::<int>::empty(), Seq::<int>::empty(), Seq::<Seq<char>>::empty())
    } else {
        let (covered_starts, covered_ends, requirements) = spec_requirements_by_form(
            items.drop_last(),
            clause,
        );
        let marker = items.last()@;
        spec_requirements_at(
            text::spec_match_indices(clause, marker),
            marker,
            clause,
            covered_starts,
            covered_ends,
            requirements,
        )
    }
}

/// Value of [`negative_clause_requirements`].
#[verifier::opaque]
pub open spec fn spec_negative_clause_requirements(clause: Seq<char>) -> Seq<Seq<char>> {
    let (covered_starts, covered_ends, requirements) = spec_requirements_by_form(
        NEGATIVE_FORMS@,
        clause,
    );
    requirements
}

/// The words that the clause negates, each once.
pub fn negative_clause_requirements(clause: &str) -> (r: Vec<String>)
    ensures
        contents::views(r@) == spec_negative_clause_requirements(clause@),
{
    proof {
        reveal(spec_negative_clause_requirements);
    }
    let mut requirements: Vec<String> = Vec::new();
    let mut covered_starts: Vec<usize> = Vec::new();
    let mut covered_ends: Vec<usize> = Vec::new();
    let mut i: usize = 0;
    while i < NEGATIVE_FORMS.len()
        invariant
            i <= NEGATIVE_FORMS@.len(),
            (
                contents::positions(covered_starts@),
                contents::positions(covered_ends@),
                contents::views(requirements@),
            ) == spec_requirements_by_form(
                NEGATIVE_FORMS@.take(i as int),
                clause@,
            ),
        decreases NEGATIVE_FORMS@.len() - i,
    {
        assert(NEGATIVE_FORMS@.take(i + 1).drop_last() =~= NEGATIVE_FORMS@.take(i as int));
        let marker: &str = NEGATIVE_FORMS[i];
        i = i + 1;
        let starts: Vec<usize> = text::match_indices(clause, marker);
        let ghost initial_covered_starts = contents::positions(covered_starts@);
        let ghost initial_covered_ends = contents::positions(covered_ends@);
        let ghost initial_requirements = contents::views(requirements@);
        let mut j: usize = 0;
        while j < starts.len()
            invariant
                j <= starts@.len(),
                (
                    contents::positions(covered_starts@),
                    contents::positions(covered_ends@),
                    contents::views(requirements@),
                ) == spec_requirements_at(
                    contents::positions(starts@).take(j as int),
                    marker@,
                    clause@,
                    initial_covered_starts,
                    initial_covered_ends,
                    initial_requirements,
                ),
            decreases starts@.len() - j,
        {
            assert(contents::positions(starts@).take(j + 1).drop_last()
                =~= contents::positions(starts@).take(j as int));
            let start: usize = starts[j];
            j = j + 1;
            let end: usize = text::span_end(start, text::char_count(marker));
            if is_skipped_form(clause, start, marker)
                || range_covered(&covered_starts, &covered_ends, start, end) {
                continue;
            }
            covered_starts.push(start);
            covered_ends.push(end);
            let anchor: String = negated_words(&text::take(clause, start));
            if text::char_count(&anchor) > 0
                && text::char_count(&anchor) <= 16
                && !text::list_has(&requirements, &anchor) {
                requirements.push(anchor);
            }
        }
        assert(contents::positions(starts@).take(starts@.len() as int)
            =~= contents::positions(starts@));
    }
    assert(NEGATIVE_FORMS@.take(NEGATIVE_FORMS@.len() as int) =~= NEGATIVE_FORMS@);
    requirements
}

/// Value of [`action_after_negation`].
#[verifier::opaque]
pub open spec fn spec_action_after_negation(after: Seq<char>) -> Seq<char> {
    let fragment = text::spec_trim(text::spec_head_until(after, "。、,;；"@));
    text::spec_trim(
        text::spec_trim_start_any(spec_first_stripped(fragment, ACTION_SUFFIXES@), "がして"@),
    )
}

/// What a clause asks for right after a negation.
pub fn action_after_negation(after: &str) -> (r: String)
    ensures
        r@ == spec_action_after_negation(after@),
{
    proof {
        reveal(spec_action_after_negation);
    }
    let fragment: String = text::trim(&text::head_until(after, "。、,;；"));
    text::trim(&text::trim_start_any(&first_stripped(&fragment, &ACTION_SUFFIXES), "がして"))
}

/// The state of [`trailing_constraint_actions`] after the given items.
pub open spec fn spec_actions_at(
    items: Seq<int>,
    clause: Seq<char>,
    marker: Seq<char>,
    actions: Seq<Seq<char>>,
) -> Seq<Seq<char>>
    decreases items.len(),
{
    if items.len() == 0 {
        actions
    } else {
        let actions = spec_actions_at(items.drop_last(), clause, marker, actions);
        let start = items.last();
        let action = spec_action_after_negation(
            text::spec_skip(text::spec_skip(clause, start), marker.len() as int),
        );
        if !spec_is_skipped_form(clause, start, marker)
            && !text::spec_is_one_of(action, EMPTY_ACTIONS@)
            && action.len() >= 2
            && action.len() <= 16
            && !actions.contains(action) {
            actions.push(action)
        } else {
            actions
        }
    }
}

/// The state of [`trailing_constraint_actions`] after the given items.
pub open spec fn spec_actions_by_form(items: Seq<&str>, clause: Seq<char>) -> Seq<Seq<char>>
    decreases items.len(),
{
    if items.len() == 0 {
        Seq::<Seq<char>>::empty()
    } else {
        let actions = spec_actions_by_form(items.drop_last(), clause);
        let marker = items.last()@;
        spec_actions_at(text::spec_match_indices(clause, marker), clause, marker, actions)
    }
}

/// Value of [`trailing_constraint_actions`].
#[verifier::opaque]
pub open spec fn spec_trailing_constraint_actions(clause: Seq<char>) -> Seq<Seq<char>> {
    spec_actions_by_form(NEGATIVE_FORMS@, clause)
}

/// What the clause asks for after its negations, each once.
pub fn trailing_constraint_actions(clause: &str) -> (r: Vec<String>)
    ensures
        contents::views(r@) == spec_trailing_constraint_actions(clause@),
{
    proof {
        reveal(spec_trailing_constraint_actions);
    }
    let mut actions: Vec<String> = Vec::new();
    let mut i: usize = 0;
    while i < NEGATIVE_FORMS.len()
        invariant
            i <= NEGATIVE_FORMS@.len(),
            contents::views(actions@) == spec_actions_by_form(
                NEGATIVE_FORMS@.take(i as int),
                clause@,
            ),
        decreases NEGATIVE_FORMS@.len() - i,
    {
        assert(NEGATIVE_FORMS@.take(i + 1).drop_last() =~= NEGATIVE_FORMS@.take(i as int));
        let marker: &str = NEGATIVE_FORMS[i];
        i = i + 1;
        let starts: Vec<usize> = text::match_indices(clause, marker);
        let ghost initial_actions = contents::views(actions@);
        let mut j: usize = 0;
        while j < starts.len()
            invariant
                j <= starts@.len(),
                contents::views(actions@) == spec_actions_at(
                    contents::positions(starts@).take(j as int),
                    clause@,
                    marker@,
                    initial_actions,
                ),
            decreases starts@.len() - j,
        {
            assert(contents::positions(starts@).take(j + 1).drop_last()
                =~= contents::positions(starts@).take(j as int));
            let start: usize = starts[j];
            j = j + 1;
            let action: String = action_after_negation(
                &text::skip(&text::skip(clause, start), text::char_count(marker)),
            );
            if !is_skipped_form(clause, start, marker)
                && !text::is_one_of(&action, &EMPTY_ACTIONS)
                && text::char_count(&action) >= 2
                && text::char_count(&action) <= 16
                && !text::list_has(&actions, &action) {
                actions.push(action);
            }
        }
        assert(contents::positions(starts@).take(starts@.len() as int)
            =~= contents::positions(starts@));
    }
    assert(NEGATIVE_FORMS@.take(NEGATIVE_FORMS@.len() as int) =~= NEGATIVE_FORMS@);
    actions
}

/// The condition of [`output_clause_preserves_constraint_action`]: the clause of an output names
/// what a negation is about, as written or by an equivalent phrase.
#[verifier::opaque]
pub open spec fn spec_output_clause_preserves_constraint_action(
    output_clause: Seq<char>,
    requirement: Seq<char>,
) -> bool {
    if matching::spec_contains_ascii_case_insensitive(output_clause, requirement) {
        true
    } else {
        if text::spec_contains(requirement, "はみ出さ"@) {
            matching::spec_contains_any_marker(
                output_clause,
                ["はみ出さない", "収ま", "収め", "バー内"]@,
            )
        } else {
            if text::spec_contains(requirement, "混ざら"@)
                || text::spec_contains(requirement, "混ぜ"@) {
                matching::spec_contains_any_marker(
                    output_clause,
                    ["混ざらない", "混ぜない", "混在禁止", "データ混ざらない"]@,
                )
            } else {
                if text::spec_contains(requirement, "出さ"@) {
                    matching::spec_contains_any_marker(
                        output_clause,
                        ["出さない", "表示しない", "非表示"]@,
                    )
                } else {
                    if text::spec_is_one_of(requirement, ["消え", "消さ"]@) {
                        matching::spec_contains_any_marker(
                            output_clause,
                            ["消えない", "消さない", "維持", "保持", "残す", "残して"]@,
                        )
                    } else {
                        if text::spec_is_one_of(requirement, ["変え", "変更"]@) {
                            matching::spec_contains_any_marker(
                                output_clause,
                                ["変え", "変更", "維持", "保持"]@,
                            )
                        } else {
                            if text::spec_contains(requirement, "エラー"@)
                                && text::spec_contains(requirement, "返"@) {
                                matching::spec_contains_any_marker(
                                    output_clause,
                                    ["エラー返却", "エラーを返", "エラー返"]@,
                                )
                            } else {
                                if text::spec_contains(requirement, "返"@) {
                                    matching::spec_contains_any_marker(
                                        output_clause,
                                        ["返却", "返す", "返し"]@,
                                    )
                                } else {
                                    false
                                }
                            }
                        }
                    }
                }
            }
        }
    }
}

/// Whether the clause of an output names what a negation is about, as written or by an equivalent
/// phrase.
pub fn output_clause_preserves_constraint_action(
    output_clause: &str,
    requirement: &str,
) -> (r: bool)
    ensures
        r == spec_output_clause_preserves_constraint_action(output_clause@, requirement@),
{
    proof {
        reveal(spec_output_clause_preserves_constraint_action);
    }
    if matching::contains_ascii_case_insensitive(output_clause, requirement) {
        return true;
    }
    if text::contains(requirement, "はみ出さ") {
        return matching::contains_any_marker(
            output_clause,
            &["はみ出さない", "収ま", "収め", "バー内"],
        );
    }
    if text::contains(requirement, "混ざら") || text::contains(requirement, "混ぜ") {
        return matching::contains_any_marker(
            output_clause,
            &["混ざらない", "混ぜない", "混在禁止", "データ混ざらない"],
        );
    }
    if text::contains(requirement, "出さ") {
        return matching::contains_any_marker(output_clause, &["出さない", "表示しない", "非表示"]);
    }
    if text::is_one_of(requirement, &["消え", "消さ"]) {
        return matching::contains_any_marker(
            output_clause,
            &["消えない", "消さない", "維持", "保持", "残す", "残して"],
        );
    }
    if text::is_one_of(requirement, &["変え", "変更"]) {
        return matching::contains_any_marker(output_clause, &["変え", "変更", "維持", "保持"]);
    }
    if text::contains(requirement, "エラー") && text::contains(requirement, "返") {
        return matching::contains_any_marker(
            output_clause,
            &["エラー返却", "エラーを返", "エラー返"],
        );
    }
    if text::contains(requirement, "返") {
        return matching::contains_any_marker(output_clause, &["返却", "返す", "返し"]);
    }
    false
}

/// Value of [`compact_constraint_action_text`].
pub open spec fn spec_compact_constraint_action_text(text: Seq<char>) -> Seq<char> {
    let pieces = text::spec_words(text::spec_replace_all(text::spec_trim(text), ACTION_FILLERS@));
    text::spec_join(pieces, ""@)
}

/// The form under which actions are compared.
pub fn compact_constraint_action_text(text: &str) -> (r: String)
    ensures
        r@ == spec_compact_constraint_action_text(text@),
{
    let pieces: Vec<String> = text::words(&text::replace_all(&text::trim(text), &ACTION_FILLERS));
    text::join(&pieces, "")
}

/// The condition of [`output_preserves_trailing_constraint_action`]: the output asks for the
/// action, as written or in short form.
#[verifier::opaque]
pub open spec fn spec_output_preserves_trailing_constraint_action(
    output: Seq<char>,
    action: Seq<char>,
) -> bool {
    if matching::spec_contains_ascii_case_insensitive(output, action) {
        true
    } else {
        if text::spec_contains(action, "エラー"@) && text::spec_contains(action, "返"@) {
            matching::spec_contains_any_marker(output, ["エラー返却", "エラーを返", "エラー返"]@)
        } else {
            let compact_action = spec_compact_constraint_action_text(action);
            compact_action.len() > 0
                && matching::spec_contains_ascii_case_insensitive(
                    spec_compact_constraint_action_text(output),
                    compact_action,
                )
        }
    }
}

/// Whether the output asks for the action, as written or in short form.
pub fn output_preserves_trailing_constraint_action(output: &str, action: &str) -> (r: bool)
    ensures
        r == spec_output_preserves_trailing_constraint_action(output@, action@),
{
    proof {
        reveal(spec_output_preserves_trailing_constraint_action);
    }
    if matching::contains_ascii_case_insensitive(output, action) {
        return true;
    }
    if text::contains(action, "エラー") && text::contains(action, "返") {
        return matching::contains_any_marker(output, &["エラー返却", "エラーを返", "エラー返"]);
    }
    let compact_action: String = compact_constraint_action_text(action);
    text::char_count(&compact_action) > 0
        && matching::contains_ascii_case_insensitive(
            &compact_constraint_action_text(output),
            &compact_action,
        )
}

/// The condition of [`any_segment_has_terms`]: one segment holds all the terms.
#[verifier::opaque]
pub open spec fn spec_any_segment_has_terms(
    output_segments: Seq<Seq<char>>,
    terms: Seq<Seq<char>>,
) -> bool {
    exists|i: int|
        #![trigger output_segments[i]] 0 <= i < output_segments.len()
        && matching::spec_all_terms_present(terms, output_segments[i])
}

/// Whether one segment holds all the terms.
pub fn any_segment_has_terms(output_segments: &Vec<String>, terms: &Vec<String>) -> (r: bool)
    ensures
        r == spec_any_segment_has_terms(contents::views(output_segments@), contents::views(terms@)),
{
    proof {
        reveal(spec_any_segment_has_terms);
    }
    let mut i: usize = 0;
    while i < output_segments.len()
        invariant
            i <= output_segments@.len(),
            forall|j: int|
                #![trigger contents::views(output_segments@)[j]] 0 <= j < i ==> !(matching::spec_all_terms_present(
                    contents::views(terms@),
                    contents::views(output_segments@)[j],
                )),
        decreases output_segments@.len() - i,
    {
        proof {
            reveal(spec_any_segment_has_terms);
        }
        let segment: &str = &output_segments[i];
        assert(contents::views(output_segments@)[i as int] == output_segments@[i as int]@);
        if matching::all_terms_present(terms, segment) {
            return true;
        }
        i = i + 1;
    }
    false
}

/// The condition of [`atomic_terms_kept`]: the terms of a piece that has several stand together
/// in one segment.
#[verifier::opaque]
pub open spec fn spec_atomic_terms_kept(piece: Seq<char>, output_segments: Seq<Seq<char>>) -> bool {
    let terms = terms::spec_required_technical_terms(piece);
    terms.len() < 2 || spec_any_segment_has_terms(output_segments, terms)
}

/// Whether the terms of a piece that has several stand together in one segment.
pub fn atomic_terms_kept(piece: &str, output_segments: &Vec<String>) -> (r: bool)
    ensures
        r == spec_atomic_terms_kept(piece@, contents::views(output_segments@)),
{
    proof {
        reveal(spec_atomic_terms_kept);
    }
    let terms: Vec<String> = terms::required_technical_terms(piece);
    terms.len() < 2 || any_segment_has_terms(output_segments, &terms)
}

/// The condition of [`all_atomic_terms_kept`]: the terms of every piece that has several stand
/// together in one segment.
#[verifier::opaque]
pub open spec fn spec_all_atomic_terms_kept(
    pieces: Seq<Seq<char>>,
    output_segments: Seq<Seq<char>>,
) -> bool {
    forall|i: int|
        #![trigger pieces[i]] 0 <= i < pieces.len() ==> spec_atomic_terms_kept(
            pieces[i],
            output_segments,
        )
}

/// Whether the terms of every piece that has several stand together in one segment.
pub fn all_atomic_terms_kept(pieces: &Vec<String>, output_segments: &Vec<String>) -> (r: bool)
    ensures
        r
            == spec_all_atomic_terms_kept(
                contents::views(pieces@),
                contents::views(output_segments@),
            ),
{
    proof {
        reveal(spec_all_atomic_terms_kept);
    }
    let mut i: usize = 0;
    while i < pieces.len()
        invariant
            i <= pieces@.len(),
            forall|j: int|
                #![trigger contents::views(pieces@)[j]] 0 <= j < i ==> spec_atomic_terms_kept(
                    contents::views(pieces@)[j],
                    contents::views(output_segments@),
                ),
        decreases pieces@.len() - i,
    {
        proof {
            reveal(spec_all_atomic_terms_kept);
        }
        let piece: &str = &pieces[i];
        assert(contents::views(pieces@)[i as int] == pieces@[i as int]@);
        if !atomic_terms_kept(piece, output_segments) {
            return false;
        }
        i = i + 1;
    }
    true
}

/// The condition of [`any_segment_adds_terms`]: one segment holds all the terms and asks to add
/// or use something.
#[verifier::opaque]
pub open spec fn spec_any_segment_adds_terms(
    output_segments: Seq<Seq<char>>,
    terms: Seq<Seq<char>>,
) -> bool {
    exists|i: int|
        #![trigger output_segments[i]] 0 <= i < output_segments.len()
        && matching::spec_all_terms_present(terms, output_segments[i])
            && matching::spec_contains_any_marker(output_segments[i], POSITIVE_MARKERS@)
}

/// Whether one segment holds all the terms and asks to add or use something.
pub fn any_segment_adds_terms(output_segments: &Vec<String>, terms: &Vec<String>) -> (r: bool)
    ensures
        r
            == spec_any_segment_adds_terms(
                contents::views(output_segments@),
                contents::views(terms@),
            ),
{
    proof {
        reveal(spec_any_segment_adds_terms);
    }
    let mut i: usize = 0;
    while i < output_segments.len()
        invariant
            i <= output_segments@.len(),
            forall|j: int|
                #![trigger contents::views(output_segments@)[j]] 0 <= j < i ==> !((matching::spec_all_terms_present(
                    contents::views(terms@),
                    contents::views(output_segments@)[j],
                )
                    && matching::spec_contains_any_marker(
                        contents::views(output_segments@)[j],
                        POSITIVE_MARKERS@,
                    ))),
        decreases output_segments@.len() - i,
    {
        proof {
            reveal(spec_any_segment_adds_terms);
        }
        let segment: &str = &output_segments[i];
        assert(contents::views(output_segments@)[i as int] == output_segments@[i as int]@);
        if matching::all_terms_present(terms, segment)
            && matching::contains_any_marker(segment, &POSITIVE_MARKERS) {
            return true;
        }
        i = i + 1;
    }
    false
}

/// The condition of [`is_positive_segment`]: the segment asks to add or use something and negates
/// nothing.
#[verifier::opaque]
pub open spec fn spec_is_positive_segment(segment: Seq<char>) -> bool {
    matching::spec_contains_any_marker(segment, POSITIVE_MARKERS@)
        && !matching::spec_contains_any_marker(segment, EXCLUSION_MARKERS@)
}

/// Whether the segment asks to add or use something and negates nothing.
pub fn is_positive_segment(segment: &str) -> (r: bool)
    ensures
        r == spec_is_positive_segment(segment@),
{
    proof {
        reveal(spec_is_positive_segment);
    }
    matching::contains_any_marker(segment, &POSITIVE_MARKERS)
        && !matching::contains_any_marker(segment, &EXCLUSION_MARKERS)
}

/// The condition of [`positive_terms_kept`]: the terms that a segment asks to add stand together
/// in a segment that asks for it too.
#[verifier::opaque]
pub open spec fn spec_positive_terms_kept(
    segment: Seq<char>,
    output_segments: Seq<Seq<char>>,
) -> bool {
    let terms = terms::spec_required_technical_terms(segment);
    terms.len() < 2 || spec_any_segment_adds_terms(output_segments, terms)
}

/// Whether the terms that a segment asks to add stand together in a segment that asks for it too.
pub fn positive_terms_kept(segment: &str, output_segments: &Vec<String>) -> (r: bool)
    ensures
        r == spec_positive_terms_kept(segment@, contents::views(output_segments@)),
{
    proof {
        reveal(spec_positive_terms_kept);
    }
    let terms: Vec<String> = terms::required_technical_terms(segment);
    terms.len() < 2 || any_segment_adds_terms(output_segments, &terms)
}

/// The condition of [`all_positive_terms_kept`]: the terms that each segment asks to add stand
/// together in a segment that asks for it too.
#[verifier::opaque]
pub open spec fn spec_all_positive_terms_kept(
    clause_segments: Seq<Seq<char>>,
    output_segments: Seq<Seq<char>>,
) -> bool {
    forall|i: int|
        #![trigger clause_segments[i]] 0 <= i < clause_segments.len()
        && spec_is_positive_segment(clause_segments[i]) ==> spec_positive_terms_kept(
            clause_segments[i],
            output_segments,
        )
}

/// Whether the terms that each segment asks to add stand together in a segment that asks for it
/// too.
pub fn all_positive_terms_kept(
    clause_segments: &Vec<String>,
    output_segments: &Vec<String>,
) -> (r: bool)
    ensures
        r
            == spec_all_positive_terms_kept(
                contents::views(clause_segments@),
                contents::views(output_segments@),
            ),
{
    proof {
        reveal(spec_all_positive_terms_kept);
    }
    let mut i: usize = 0;
    while i < clause_segments.len()
        invariant
            i <= clause_segments@.len(),
            forall|j: int|
                #![trigger contents::views(clause_segments@)[j]] 0 <= j < i && spec_is_positive_segment(
                    contents::views(clause_segments@)[j],
                ) ==> spec_positive_terms_kept(
                    contents::views(clause_segments@)[j],
                    contents::views(output_segments@),
                ),
        decreases clause_segments@.len() - i,
    {
        proof {
            reveal(spec_all_positive_terms_kept);
        }
        let segment: &str = &clause_segments[i];
        assert(contents::views(clause_segments@)[i as int] == clause_segments@[i as int]@);
        if is_positive_segment(segment) && !positive_terms_kept(segment, output_segments) {
            return false;
        }
        i = i + 1;
    }
    true
}

/// Value of [`list_anchor`].
#[verifier::opaque]
pub open spec fn spec_list_anchor(item: Seq<char>, is_first: bool) -> Seq<char> {
    let focused = item;
    let focused = if is_first {
        match text::spec_rsplit_once(focused, "で"@) {
            Some(parts) => text::spec_trim(parts.1),
            None => focused,
        }
    } else {
        focused
    };
    let focused = match clauses::spec_first_split(focused, ITEM_ACTION_MARKERS@) {
        Some(parts) => text::spec_trim(parts.0),
        None => focused,
    };
    let focused = match text::spec_split_once(focused, "の"@) {
        Some(parts) => {
            if text::spec_contains(parts.1, "ケース"@) && matching::spec_any_digit(parts.1) {
                text::spec_trim(parts.0)
            } else {
                focused
            }
        },
        None => focused,
    };
    text::spec_trim(spec_first_stripped(focused, ITEM_SUFFIXES@))
}

/// The words by which an item of a list of tests is recognized.
pub fn list_anchor(item: &str, is_first: bool) -> (r: String)
    ensures
        r@ == spec_list_anchor(item@, is_first),
{
    proof {
        reveal(spec_list_anchor);
    }
    let mut focused: String = item.to_owned();
    if is_first {
        match text::rsplit_once(&focused, "で") {
            Some(parts) => {
                focused = text::trim(&parts.1);
            },
            None => {
            },
        }
    }
    match clauses::first_split(&focused, &ITEM_ACTION_MARKERS) {
        Some(parts) => {
            focused = text::trim(&parts.0);
        },
        None => {
        },
    }
    match text::split_once(&focused, "の") {
        Some(parts) => {
            if text::contains(&parts.1, "ケース") && matching::any_digit(&parts.1) {
                focused = text::trim(&parts.0);
            }
        },
        None => {
        },
    }
    text::trim(&first_stripped(&focused, &ITEM_SUFFIXES))
}

/// The state of [`list_anchors`] after the given items.
pub open spec fn spec_anchors_among(items: Seq<Seq<char>>) -> Seq<Seq<char>>
    decreases items.len(),
{
    if items.len() == 0 {
        Seq::<Seq<char>>::empty()
    } else {
        let anchors = spec_anchors_among(items.drop_last());
        let index: int = items.len() - 1;
        let item = items.last();
        let anchor = spec_list_anchor(item, index == 0);
        if anchor.len() >= 2 {
            anchors.push(anchor)
        } else {
            anchors
        }
    }
}

/// Value of [`list_anchors`].
#[verifier::opaque]
pub open spec fn spec_list_anchors(listed: Seq<Seq<char>>) -> Seq<Seq<char>> {
    spec_anchors_among(listed)
}

/// The words by which the items of a list of tests are recognized.
pub fn list_anchors(listed: &Vec<String>) -> (r: Vec<String>)
    ensures
        contents::views(r@) == spec_list_anchors(contents::views(listed@)),
{
    proof {
        reveal(spec_list_anchors);
    }
    let mut anchors: Vec<String> = Vec::new();
    let mut i: usize = 0;
    while i < listed.len()
        invariant
            i <= listed@.len(),
            contents::views(anchors@) == spec_anchors_among(contents::views(listed@).take(i as int)),
        decreases listed@.len() - i,
    {
        assert(contents::views(listed@).take(i + 1).drop_last()
            =~= contents::views(listed@).take(i as int));
        let item: &str = &listed[i];
        let index: usize = i;
        i = i + 1;
        let anchor: String = list_anchor(item, index == 0);
        if text::char_count(&anchor) >= 2 {
            anchors.push(anchor);
        }
    }
    assert(contents::views(listed@).take(listed@.len() as int) =~= contents::views(listed@));
    anchors
}

/// The state of [`verification_list_start`] after the given items.
pub open spec fn spec_list_start_among(
    items: Seq<Seq<char>>,
    listed: Seq<Seq<char>>,
    start: int,
) -> int
    decreases items.len(),
{
    if items.len() == 0 {
        start
    } else {
        let start = spec_list_start_among(items.drop_last(), listed, start);
        let index: int = items.len() - 1;
        let item = items.last();
        if index + 1 < listed.len()
            && matching::spec_contains_any_marker(item, PRECEDING_ACTION_MARKERS@) {
            index + 1
        } else {
            start
        }
    }
}

/// Value of [`verification_list_start`].
#[verifier::opaque]
pub open spec fn spec_verification_list_start(listed: Seq<Seq<char>>) -> int {
    let start: int = 0;
    spec_list_start_among(listed, listed, start)
}

/// The position at which a list of tests begins: after the last item, but one, that is a clause
/// of its own.
pub fn verification_list_start(listed: &Vec<String>) -> (r: usize)
    ensures
        r == spec_verification_list_start(contents::views(listed@)),
{
    proof {
        reveal(spec_verification_list_start);
    }
    let mut start: usize = 0;
    let ghost initial_start = start as int;
    let mut i: usize = 0;
    while i < listed.len()
        invariant
            i <= listed@.len(),
            start as int == spec_list_start_among(
                contents::views(listed@).take(i as int),
                contents::views(listed@),
                initial_start,
            ),
        decreases listed@.len() - i,
    {
        assert(contents::views(listed@).take(i + 1).drop_last()
            =~= contents::views(listed@).take(i as int));
        let item: &str = &listed[i];
        let index: usize = i;
        i = i + 1;
        if index + 1 < listed.len()
            && matching::contains_any_marker(item, &PRECEDING_ACTION_MARKERS) {
            start = index + 1;
        }
    }
    assert(contents::views(listed@).take(listed@.len() as int) =~= contents::views(listed@));
    start
}

/// Value of [`verification_list_anchors`].
#[verifier::opaque]
pub open spec fn spec_verification_list_anchors(clause: Seq<char>) -> Seq<Seq<char>> {
    let none = Seq::<Seq<char>>::empty();
    if !spec_contains_explicit_test_marker(clause) {
        none
    } else {
        let all_items = text::spec_segments(clause, "、,"@);
        let listed = text::spec_skip_list(all_items, spec_verification_list_start(all_items));
        if listed.len() < 3 {
            none
        } else {
            spec_list_anchors(listed)
        }
    }
}

/// The words by which the tests of a clause that lists at least three are recognized.
pub fn verification_list_anchors(clause: &str) -> (r: Vec<String>)
    ensures
        contents::views(r@) == spec_verification_list_anchors(clause@),
{
    proof {
        reveal(spec_verification_list_anchors);
    }
    let none: Vec<String> = Vec::new();
    if !contains_explicit_test_marker(clause) {
        return none;
    }
    let all_items: Vec<String> = text::segments(clause, "、,");
    let listed: Vec<String> = text::skip_list(&all_items, verification_list_start(&all_items));
    if listed.len() < 3 {
        return none;
    }
    list_anchors(&listed)
}

/// What [`first_free_segment`] comes to from position `i` of the items on.
pub open spec fn spec_free_segment_among(
    items: Seq<Seq<char>>,
    i: int,
    used: Seq<int>,
    anchor: Seq<char>,
) -> Option<int>
    decreases items.len() - i,
{
    if i >= items.len() {
        None
    } else {
        let segment = items[i];
        let index: int = i;
        if !used.contains(index) && matching::spec_contains_ascii_case_insensitive(segment, anchor) {
            Some(index)
        } else {
            spec_free_segment_among(items, i + 1, used, anchor)
        }
    }
}

/// Value of [`first_free_segment`].
#[verifier::opaque]
pub open spec fn spec_first_free_segment(
    output_segments: Seq<Seq<char>>,
    used: Seq<int>,
    anchor: Seq<char>,
) -> Option<int> {
    spec_free_segment_among(output_segments, 0, used, anchor)
}

/// The first segment that is not used yet and holds the anchor.
pub fn first_free_segment(
    output_segments: &Vec<String>,
    used: &Vec<usize>,
    anchor: &str,
) -> (r: Option<usize>)
    ensures
        contents::view_position(r)
            == spec_first_free_segment(
                contents::views(output_segments@),
                contents::positions(used@),
                anchor@,
            ),
{
    proof {
        reveal(spec_first_free_segment);
    }
    let ghost goal = spec_free_segment_among(
        contents::views(output_segments@),
        0,
        contents::positions(used@),
        anchor@,
    );
    let mut i: usize = 0;
    while i < output_segments.len()
        invariant
            i <= output_segments@.len(),
            goal == spec_free_segment_among(
                contents::views(output_segments@),
                i as int,
                contents::positions(used@),
                anchor@,
            ),
            goal == spec_first_free_segment(
                contents::views(output_segments@),
                contents::positions(used@),
                anchor@,
            ),
        decreases output_segments@.len() - i,
    {
        assert(contents::views(output_segments@)[i as int] == output_segments@[i as int]@);
        let segment: &str = &output_segments[i];
        let index: usize = i;
        i = i + 1;
        if !text::index_in(used, index)
            && matching::contains_ascii_case_insensitive(segment, anchor) {
            return Some(index);
        }
    }
    None
}

/// What [`anchors_in_separate_segments`] comes to from position `i` of the items on.
pub open spec fn spec_anchors_placed(
    items: Seq<Seq<char>>,
    i: int,
    used: Seq<int>,
    output_segments: Seq<Seq<char>>,
) -> bool
    decreases items.len() - i,
{
    if i >= items.len() {
        true
    } else {
        let anchor = items[i];
        match spec_first_free_segment(output_segments, used, anchor) {
            Some(index) => {
                let used = used.push(index);
                spec_anchors_placed(items, i + 1, used, output_segments)
            },
            None => false,
        }
    }
}

/// The condition of [`anchors_in_separate_segments`]: every anchor, taken in order, finds a
/// segment of its own.
#[verifier::opaque]
pub open spec fn spec_anchors_in_separate_segments(
    anchors: Seq<Seq<char>>,
    output_segments: Seq<Seq<char>>,
) -> bool {
    let used = Seq::<int>::empty();
    spec_anchors_placed(anchors, 0, used, output_segments)
}

/// Whether every anchor, taken in order, finds a segment of its own.
pub fn anchors_in_separate_segments(
    anchors: &Vec<String>,
    output_segments: &Vec<String>,
) -> (r: bool)
    ensures
        r
            == spec_anchors_in_separate_segments(
                contents::views(anchors@),
                contents::views(output_segments@),
            ),
{
    proof {
        reveal(spec_anchors_in_separate_segments);
    }
    let mut used: Vec<usize> = Vec::new();
    let ghost goal = spec_anchors_placed(
        contents::views(anchors@),
        0,
        contents::positions(used@),
        contents::views(output_segments@),
    );
    let mut i: usize = 0;
    while i < anchors.len()
        invariant
            i <= anchors@.len(),
            goal == spec_anchors_placed(
                contents::views(anchors@),
                i as int,
                contents::positions(used@),
                contents::views(output_segments@),
            ),
            goal == spec_anchors_in_separate_segments(
                contents::views(anchors@),
                contents::views(output_segments@),
            ),
        decreases anchors@.len() - i,
    {
        assert(contents::views(anchors@)[i as int] == anchors@[i as int]@);
        let anchor: &str = &anchors[i];
        i = i + 1;
        match first_free_segment(output_segments, &used, anchor) {
            Some(index) => {
                used.push(index);
            },
            None => {
                return false;
            },
        }
    }
    true
}

/// The condition of [`clause_separates_anchors`]: the clause speaks of tests and names every
/// anchor in a segment of its own.
#[verifier::opaque]
pub open spec fn spec_clause_separates_anchors(
    output_clause: Seq<char>,
    anchors: Seq<Seq<char>>,
) -> bool {
    matching::spec_contains_any_marker(output_clause, ["テスト", "確認", "検証", "test", "verify"]@)
        && spec_anchors_in_separate_segments(
            anchors,
            text::spec_segments(output_clause, "、,/;；"@),
        )
}

/// Whether the clause speaks of tests and names every anchor in a segment of its own.
pub fn clause_separates_anchors(output_clause: &str, anchors: &Vec<String>) -> (r: bool)
    ensures
        r == spec_clause_separates_anchors(output_clause@, contents::views(anchors@)),
{
    proof {
        reveal(spec_clause_separates_anchors);
    }
    matching::contains_any_marker(output_clause, &["テスト", "確認", "検証", "test", "verify"])
        && anchors_in_separate_segments(anchors, &text::segments(output_clause, "、,/;；"))
}

/// The condition of [`any_clause_separates_anchors`]: some clause speaks of tests and names every
/// anchor in a segment of its own.
#[verifier::opaque]
pub open spec fn spec_any_clause_separates_anchors(
    clauses: Seq<Seq<char>>,
    anchors: Seq<Seq<char>>,
) -> bool {
    exists|i: int|
        #![trigger clauses[i]] 0 <= i < clauses.len()
        && spec_clause_separates_anchors(clauses[i], anchors)
}

/// Whether some clause speaks of tests and names every anchor in a segment of its own.
pub fn any_clause_separates_anchors(clauses: &Vec<String>, anchors: &Vec<String>) -> (r: bool)
    ensures
        r
            == spec_any_clause_separates_anchors(
                contents::views(clauses@),
                contents::views(anchors@),
            ),
{
    proof {
        reveal(spec_any_clause_separates_anchors);
    }
    let mut i: usize = 0;
    while i < clauses.len()
        invariant
            i <= clauses@.len(),
            forall|j: int|
                #![trigger contents::views(clauses@)[j]] 0 <= j < i ==> !(spec_clause_separates_anchors(
                    contents::views(clauses@)[j],
                    contents::views(anchors@),
                )),
        decreases clauses@.len() - i,
    {
        proof {
            reveal(spec_any_clause_separates_anchors);
        }
        let clause: &str = &clauses[i];
        assert(contents::views(clauses@)[i as int] == clauses@[i as int]@);
        if clause_separates_anchors(clause, anchors) {
            return true;
        }
        i = i + 1;
    }
    false
}

/// The condition of [`preserves_verification_list_separation`]: the output keeps the tests that
/// the clause lists apart.
#[verifier::opaque]
pub open spec fn spec_preserves_verification_list_separation(
    clause: Seq<char>,
    output: Seq<char>,
) -> bool {
    let anchors = spec_verification_list_anchors(clause);
    if anchors.len() == 0 {
        true
    } else {
        spec_any_clause_separates_anchors(clauses::spec_input_clauses(output), anchors)
    }
}

/// Whether the output keeps the tests that the clause lists apart.
pub fn preserves_verification_list_separation(clause: &str, output: &str) -> (r: bool)
    ensures
        r == spec_preserves_verification_list_separation(clause@, output@),
{
    proof {
        reveal(spec_preserves_verification_list_separation);
    }
    let anchors: Vec<String> = verification_list_anchors(clause);
    if anchors.len() == 0 {
        return true;
    }
    any_clause_separates_anchors(&clauses::input_clauses(output), &anchors)
}

/// The condition of [`any_clause_keeps_negation`]: some clause negates what the requirement
/// names.
#[verifier::opaque]
pub open spec fn spec_any_clause_keeps_negation(
    output_clauses: Seq<Seq<char>>,
    requirement: Seq<char>,
) -> bool {
    exists|i: int|
        #![trigger output_clauses[i]] 0 <= i < output_clauses.len()
        && spec_output_clause_preserves_constraint_action(output_clauses[i], requirement)
            && spec_contains_output_negative_marker(output_clauses[i])
}

/// Whether some clause negates what the requirement names.
pub fn any_clause_keeps_negation(output_clauses: &Vec<String>, requirement: &str) -> (r: bool)
    ensures
        r == spec_any_clause_keeps_negation(contents::views(output_clauses@), requirement@),
{
    proof {
        reveal(spec_any_clause_keeps_negation);
    }
    let mut i: usize = 0;
    while i < output_clauses.len()
        invariant
            i <= output_clauses@.len(),
            forall|j: int|
                #![trigger contents::views(output_clauses@)[j]] 0 <= j < i ==> !((spec_output_clause_preserves_constraint_action(
                    contents::views(output_clauses@)[j],
                    requirement@,
                )
                    && spec_contains_output_negative_marker(contents::views(output_clauses@)[j]))),
        decreases output_clauses@.len() - i,
    {
        proof {
            reveal(spec_any_clause_keeps_negation);
        }
        let clause: &str = &output_clauses[i];
        assert(contents::views(output_clauses@)[i as int] == output_clauses@[i as int]@);
        if output_clause_preserves_constraint_action(clause, requirement)
            && contains_output_negative_marker(clause) {
            return true;
        }
        i = i + 1;
    }
    false
}

/// The condition of [`all_negations_kept`]: every requirement is negated in some clause.
#[verifier::opaque]
pub open spec fn spec_all_negations_kept(
    requirements: Seq<Seq<char>>,
    output_clauses: Seq<Seq<char>>,
) -> bool {
    forall|i: int|
        #![trigger requirements[i]] 0 <= i < requirements.len() ==> spec_any_clause_keeps_negation(
            output_clauses,
            requirements[i],
        )
}

/// Whether every requirement is negated in some clause.
pub fn all_negations_kept(requirements: &Vec<String>, output_clauses: &Vec<String>) -> (r: bool)
    ensures
        r
            == spec_all_negations_kept(
                contents::views(requirements@),
                contents::views(output_clauses@),
            ),
{
    proof {
        reveal(spec_all_negations_kept);
    }
    let mut i: usize = 0;
    while i < requirements.len()
        invariant
            i <= requirements@.len(),
            forall|j: int|
                #![trigger contents::views(requirements@)[j]] 0 <= j < i ==> spec_any_clause_keeps_negation(
                    contents::views(output_clauses@),
                    contents::views(requirements@)[j],
                ),
        decreases requirements@.len() - i,
    {
        proof {
            reveal(spec_all_negations_kept);
        }
        let requirement: &str = &requirements[i];
        assert(contents::views(requirements@)[i as int] == requirements@[i as int]@);
        if !any_clause_keeps_negation(output_clauses, requirement) {
            return false;
        }
        i = i + 1;
    }
    true
}

/// The condition of [`all_trailing_actions_kept`]: the output asks for every action.
#[verifier::opaque]
pub open spec fn spec_all_trailing_actions_kept(actions: Seq<Seq<char>>, output: Seq<char>) -> bool {
    forall|i: int|
        #![trigger actions[i]] 0 <= i < actions.len() ==> spec_output_preserves_trailing_constraint_action(
            output,
            actions[i],
        )
}

/// Whether the output asks for every action.
pub fn all_trailing_actions_kept(actions: &Vec<String>, output: &str) -> (r: bool)
    ensures
        r == spec_all_trailing_actions_kept(contents::views(actions@), output@),
{
    proof {
        reveal(spec_all_trailing_actions_kept);
    }
    let mut i: usize = 0;
    while i < actions.len()
        invariant
            i <= actions@.len(),
            forall|j: int|
                #![trigger contents::views(actions@)[j]] 0 <= j < i ==> spec_output_preserves_trailing_constraint_action(
                    output@,
                    contents::views(actions@)[j],
                ),
        decreases actions@.len() - i,
    {
        proof {
            reveal(spec_all_trailing_actions_kept);
        }
        let action: &str = &actions[i];
        assert(contents::views(actions@)[i as int] == actions@[i as int]@);
        if !output_preserves_trailing_constraint_action(output, action) {
            return false;
        }
        i = i + 1;
    }
    true
}

/// The condition of [`constraint_clause_role_kept`]: the output keeps what one constraint says of
/// its terms: which belong together, which are to be added, which tests are distinct, what is
/// negated and what is asked for then.
#[verifier::opaque]
pub open spec fn spec_constraint_clause_role_kept(clause: Seq<char>, output: Seq<char>) -> bool {
    let output_segments = text::spec_segments(output, "。！？\n;；、,"@);
    spec_all_atomic_terms_kept(text::spec_split_any(clause, "、,"@), output_segments)
        && spec_all_positive_terms_kept(
            text::spec_segments(clause, "。！？\n;；、,"@),
            output_segments,
        )
        && spec_preserves_verification_list_separation(clause, output)
        && spec_all_negations_kept(
            spec_negative_clause_requirements(clause),
            clauses::spec_input_clauses(output),
        )
        && spec_all_trailing_actions_kept(spec_trailing_constraint_actions(clause), output)
}

/// Whether the output keeps what one constraint says of its terms: which belong together, which
/// are to be added, which tests are distinct, what is negated and what is asked for then.
pub fn constraint_clause_role_kept(clause: &str, output: &str) -> (r: bool)
    ensures
        r == spec_constraint_clause_role_kept(clause@, output@),
{
    proof {
        reveal(spec_constraint_clause_role_kept);
    }
    let output_segments: Vec<String> = text::segments(output, "。！？\n;；、,");
    all_atomic_terms_kept(&text::split_any(clause, "、,"), &output_segments)
        && all_positive_terms_kept(&text::segments(clause, "。！？\n;；、,"), &output_segments)
        && preserves_verification_list_separation(clause, output)
        && all_negations_kept(
            &negative_clause_requirements(clause),
            &clauses::input_clauses(output),
        )
        && all_trailing_actions_kept(&trailing_constraint_actions(clause), output)
}

/// The condition of [`preserves_constraint_clause_roles`]: the output keeps what every constraint
/// of the input says of its terms.
#[verifier::opaque]
pub open spec fn spec_preserves_constraint_clause_roles(input: Seq<char>, output: Seq<char>) -> bool {
    let clauses = clauses::spec_required_constraint_clauses(input);
    forall|i: int|
        #![trigger clauses[i]] 0 <= i < clauses.len() ==> spec_constraint_clause_role_kept(
            clauses[i],
            output,
        )
}

/// Whether the output keeps what every constraint of the input says of its terms.
pub fn preserves_constraint_clause_roles(input: &str, output: &str) -> (r: bool)
    ensures
        r == spec_preserves_constraint_clause_roles(input@, output@),
{
    proof {
        reveal(spec_preserves_constraint_clause_roles);
    }
    let clauses: Vec<String> = clauses::required_constraint_clauses(input);
    let mut i: usize = 0;
    while i < clauses.len()
        invariant
            i <= clauses@.len(),
            contents::views(clauses@) == clauses::spec_required_constraint_clauses(input@),
            forall|j: int|
                #![trigger contents::views(clauses@)[j]] 0 <= j < i ==> spec_constraint_clause_role_kept(
                    contents::views(clauses@)[j],
                    output@,
                ),
        decreases clauses@.len() - i,
    {
        proof {
            reveal(spec_preserves_constraint_clause_roles);
        }
        let clause: &str = &clauses[i];
        assert(contents::views(clauses@)[i as int] == clauses@[i as int]@);
        if !constraint_clause_role_kept(clause, output) {
            return false;
        }
        i = i + 1;
    }
    true
}

/// The text says one of the words, in whatever case of ASCII letters.
pub open spec fn says_one_of(text: Seq<char>, words: Seq<Seq<char>>) -> bool {
    exists|i: int| 0 <= i < words.len() && parts::holds_in_some_case(text, #[trigger] words[i])
}

/// Markers are found where the words that they are are said.
proof fn words_are_said(text: Seq<char>, markers: Seq<&str>, words: Seq<Seq<char>>)
    requires
        markers.len() == words.len(),
        forall|i: int| 0 <= i < markers.len() ==> (#[trigger] markers[i])@ == words[i],
    ensures
        matching::spec_contains_any_marker(text, markers) <==> says_one_of(text, words),
{
    matching::markers_are_found_in_some_case(text, markers);
    if says_one_of(text, words) {
        let i = choose|i: int|
            0 <= i < words.len() && parts::holds_in_some_case(text, #[trigger] words[i]);
        assert(markers[i]@ == words[i]);
    }
}

/// A clause asks for a state to be kept where it names one of the known states, or speaks of a
/// state that is not to be lost, and says that it is kept; only there.
pub proof fn clauses_that_keep_states(clause: Seq<char>)
    ensures
        spec_is_state_persistence_clause(clause) <==> {
            &&& says_one_of(clause, seq![
                "検索条件"@, "検索状態"@, "入力状態"@, "選択状態"@, "表示状態"@,
            ]) || (text::spec_contains(clause, "状態"@) && says_one_of(
                clause,
                seq!["消えない"@, "消さない"@, "維持"@, "保持"@, "keep"@, "preserve"@],
            ))
            &&& says_one_of(clause, seq![
                "消えない"@, "消さない"@, "維持"@, "保持"@, "残す"@, "残して"@, "keep"@, "preserve"@,
            ])
        },
{
    reveal(spec_is_state_persistence_clause);
    words_are_said(clause, NAMED_STATES@, seq!["検索条件"@, "検索状態"@, "入力状態"@, "選択状態"@, "表示状態"@]);
    words_are_said(clause, ["消えない", "消さない", "維持", "保持", "keep", "preserve"]@, seq![
        "消えない"@, "消さない"@, "維持"@, "保持"@, "keep"@, "preserve"@,
    ]);
    words_are_said(clause, KEEPING_MARKERS@, seq![
        "消えない"@, "消さない"@, "維持"@, "保持"@, "残す"@, "残して"@, "keep"@, "preserve"@,
    ]);
}

/// An output that keeps the state of a clause says that something is kept, names the page where the
/// clause does, and names each state that the clause names.
pub proof fn kept_states_are_named(clause: Seq<char>, output: Seq<char>)
    requires
        spec_state_persistence_clause_satisfied(clause, output),
    ensures
        says_one_of(output, seq![
            "維持"@, "保持"@, "残す"@, "残して"@, "消えない"@, "消さない"@, "保存"@, "復元"@, "keep"@, "preserve"@,
        ]),
        says_one_of(clause, seq!["ページ番号"@, "ページ"@]) ==> says_one_of(output, seq!["ページ"@, "page"@]),
        text::spec_contains(clause, "検索状態"@) ==> says_one_of(output, seq![
            "検索状態"@, "条件/状態"@, "状態維持"@,
        ]),
        text::spec_contains(clause, "入力状態"@) ==> says_one_of(output, seq!["入力状態"@, "入力維持"@]),
        text::spec_contains(clause, "選択状態"@) ==> says_one_of(output, seq!["選択状態"@, "選択維持"@]),
        text::spec_contains(clause, "表示状態"@) ==> says_one_of(output, seq!["表示状態"@, "表示維持"@]),
        text::spec_contains(clause, "検索条件"@) ==> says_one_of(output, seq![
            "検索条件"@, "条件/状態"@, "条件維持"@,
        ]) || (says_one_of(
            output,
            seq!["useSearchParams"@, "URL"@, "クエリ"@],
        ) && says_one_of(output, seq!["保存"@, "復元"@])),
{
    reveal(spec_state_persistence_clause_satisfied);
    reveal(spec_state_forgotten);
    reveal(spec_search_condition_kept);
    words_are_said(output, [
        "維持", "保持", "残す", "残して", "消えない", "消さない", "保存", "復元", "keep", "preserve",
    ]@, seq![
        "維持"@, "保持"@, "残す"@, "残して"@, "消えない"@, "消さない"@, "保存"@, "復元"@, "keep"@, "preserve"@,
    ]);
    words_are_said(clause, ["ページ番号", "ページ"]@, seq!["ページ番号"@, "ページ"@]);
    words_are_said(output, ["ページ", "page"]@, seq!["ページ"@, "page"@]);
    words_are_said(output, ["検索状態", "条件/状態", "状態維持"]@, seq!["検索状態"@, "条件/状態"@, "状態維持"@]);
    words_are_said(output, ["入力状態", "入力維持"]@, seq!["入力状態"@, "入力維持"@]);
    words_are_said(output, ["選択状態", "選択維持"]@, seq!["選択状態"@, "選択維持"@]);
    words_are_said(output, ["表示状態", "表示維持"]@, seq!["表示状態"@, "表示維持"@]);
    words_are_said(output, ["検索条件", "条件/状態", "条件維持"]@, seq!["検索条件"@, "条件/状態"@, "条件維持"@]);
    words_are_said(output, ["useSearchParams", "URL", "クエリ"]@, seq![
        "useSearchParams"@, "URL"@, "クエリ"@,
    ]);
    words_are_said(output, ["保存", "復元"]@, seq!["保存"@, "復元"@]);
}

/// An output keeps the state of a clause where it says that something is kept and names the page
/// and each state that the clause names.
pub proof fn named_states_are_kept(clause: Seq<char>, output: Seq<char>)
    requires
        says_one_of(output, seq![
            "維持"@, "保持"@, "残す"@, "残して"@, "消えない"@, "消さない"@, "保存"@, "復元"@, "keep"@, "preserve"@,
        ]),
        says_one_of(clause, seq!["ページ番号"@, "ページ"@]) ==> says_one_of(output, seq!["ページ"@, "page"@]),
        text::spec_contains(clause, "検索条件"@) ==> says_one_of(output, seq![
            "検索条件"@, "条件/状態"@, "条件維持"@,
        ]),
        text::spec_contains(clause, "検索状態"@) ==> says_one_of(output, seq![
            "検索状態"@, "条件/状態"@, "状態維持"@,
        ]),
        text::spec_contains(clause, "入力状態"@) ==> says_one_of(output, seq!["入力状態"@, "入力維持"@]),
        text::spec_contains(clause, "選択状態"@) ==> says_one_of(output, seq!["選択状態"@, "選択維持"@]),
        text::spec_contains(clause, "表示状態"@) ==> says_one_of(output, seq!["表示状態"@, "表示維持"@]),
        text::spec_contains(clause, "状態"@) ==> says_one_of(output, seq![
            "状態"@, "条件/状態"@, "入力維持"@, "選択維持"@, "表示維持"@,
        ]),
    ensures
        spec_state_persistence_clause_satisfied(clause, output),
{
    reveal(spec_state_persistence_clause_satisfied);
    reveal(spec_state_forgotten);
    reveal(spec_search_condition_kept);
    words_are_said(output, [
        "維持", "保持", "残す", "残して", "消えない", "消さない", "保存", "復元", "keep", "preserve",
    ]@, seq![
        "維持"@, "保持"@, "残す"@, "残して"@, "消えない"@, "消さない"@, "保存"@, "復元"@, "keep"@, "preserve"@,
    ]);
    words_are_said(clause, ["ページ番号", "ページ"]@, seq!["ページ番号"@, "ページ"@]);
    words_are_said(output, ["ページ", "page"]@, seq!["ページ"@, "page"@]);
    words_are_said(output, ["検索条件", "条件/状態", "条件維持"]@, seq!["検索条件"@, "条件/状態"@, "条件維持"@]);
    words_are_said(output, ["検索状態", "条件/状態", "状態維持"]@, seq!["検索状態"@, "条件/状態"@, "状態維持"@]);
    words_are_said(output, ["入力状態", "入力維持"]@, seq!["入力状態"@, "入力維持"@]);
    words_are_said(output, ["選択状態", "選択維持"]@, seq!["選択状態"@, "選択維持"@]);
    words_are_said(output, ["表示状態", "表示維持"]@, seq!["表示状態"@, "表示維持"@]);
    words_are_said(output, ["状態", "条件/状態", "入力維持", "選択維持", "表示維持"]@, seq![
        "状態"@, "条件/状態"@, "入力維持"@, "選択維持"@, "表示維持"@,
    ]);
}

/// A clause asks for something to be checked where it names a way to test and what is looked at;
/// only there.
pub proof fn clauses_that_ask_for_checks(clause: Seq<char>)
    ensures
        spec_is_verification_constraint_clause(clause) <==> says_one_of(clause, seq![
            "テスト"@, "test"@, "spec"@, "assert"@, "vitest"@, "jest"@, "playwright"@, "pytest"@,
            "junit"@, "rspec"@, "cypress"@, "selenium"@,
        ])
            && says_one_of(clause, seq!["確認"@, "検証"@, "ケース"@, "正常系"@, "異常系"@, "境界値"@]),
{
    reveal(spec_is_verification_constraint_clause);
    reveal(spec_contains_explicit_test_marker);
    words_are_said(clause, TEST_MARKERS@, seq![
        "テスト"@, "test"@, "spec"@, "assert"@, "vitest"@, "jest"@, "playwright"@, "pytest"@, "junit"@,
        "rspec"@, "cypress"@, "selenium"@,
    ]);
    words_are_said(clause, ["確認", "検証", "ケース", "正常系", "異常系", "境界値"]@, seq![
        "確認"@, "検証"@, "ケース"@, "正常系"@, "異常系"@, "境界値"@,
    ]);
}

/// An output that keeps a check speaks of a test or a check, and names each case that the clause
/// names.
pub proof fn kept_checks_name_their_cases(clause: Seq<char>, output: Seq<char>)
    requires
        spec_verification_constraint_satisfied(clause, output),
    ensures
        says_one_of(output, seq!["テスト"@, "確認"@, "検証"@]),
        text::spec_contains(clause, "正常系"@) ==> text::spec_contains(output, "正常系"@),
        text::spec_contains(clause, "異常系"@) ==> text::spec_contains(output, "異常系"@),
        text::spec_contains(clause, "境界値"@) ==> text::spec_contains(output, "境界値"@),
        text::spec_contains(clause, "空文字"@) ==> says_one_of(output, seq!["空文字"@, "空"@]),
{
    reveal(spec_verification_constraint_satisfied);
    words_are_said(output, ["テスト", "確認", "検証"]@, seq!["テスト"@, "確認"@, "検証"@]);
    words_are_said(output, ["空文字", "空"]@, seq!["空文字"@, "空"@]);
    assert(VERIFICATION_CASES@[0]@ == "正常系"@);
    assert(VERIFICATION_CASES@[1]@ == "異常系"@);
    assert(VERIFICATION_CASES@[2]@ == "境界値"@);
}

/// An output that keeps the values of a condition holds its key and each of its values, in upper or
/// lower case.
pub proof fn values_of_conditions_are_kept(clause: Seq<char>, output: Seq<char>, k: int)
    requires
        spec_list_constraint_satisfied(clause, output),
        !text::spec_contains(clause, "再試行"@),
        clauses::spec_parse_conditional_value_list(clause) matches Some(condition) && 0 <= k
            < condition.values.len(),
    ensures
        clauses::spec_parse_conditional_value_list(clause) matches Some(condition)
            && matching::spec_contains_ascii_case_insensitive(output, condition.key)
            && matching::spec_contains_ascii_case_insensitive(output, condition.values[k]),
{
    reveal(spec_list_constraint_satisfied);
    reveal(spec_retry_limit_interval_clause_satisfied);
    reveal(matching::spec_all_terms_present);
}

/// A limit of retries is kept by an output that speaks of retries, of the limit of two, of the
/// intervals of one and two seconds, and says that there are no more.
pub proof fn limits_of_retries_are_kept(clause: Seq<char>, output: Seq<char>)
    ensures
        spec_retry_limit_interval_clause_satisfied(clause, output) <==> {
            &&& text::spec_contains(clause, "再試行"@)
            &&& text::spec_contains(clause, "最大"@)
            &&& text::spec_contains(clause, "それ以上"@)
            &&& text::spec_contains(clause, "行わない"@)
            &&& parts::holds_in_some_case(output, "再試行"@)
            &&& says_one_of(output, seq!["最大2回"@, "最大 2 回"@, "2回まで"@])
            &&& says_one_of(output, seq!["1秒と2秒"@, "1秒/2秒"@, "1 秒と 2 秒"@])
            &&& says_one_of(output, seq!["それ以上行わない"@, "それ以上は行わない"@])
        },
{
    reveal(spec_retry_limit_interval_clause_satisfied);
    words_are_said(output, ["再試行"]@, seq!["再試行"@]);
    words_are_said(output, ["最大2回", "最大 2 回", "2回まで"]@, seq!["最大2回"@, "最大 2 回"@, "2回まで"@]);
    words_are_said(output, ["1秒と2秒", "1秒/2秒", "1 秒と 2 秒"]@, seq!["1秒と2秒"@, "1秒/2秒"@, "1 秒と 2 秒"@]);
    words_are_said(output, ["それ以上行わない", "それ以上は行わない"]@, seq!["それ以上行わない"@, "それ以上は行わない"@]);
    assert(seq!["再試行"@][0] == "再試行"@);
}

/// A clause says that something is not done or stays as it is where it holds one of these words.
pub proof fn words_of_negation_are_known(clause: Seq<char>)
    ensures
        says_one_of(clause, seq![
            "しない"@, "せず"@, "ない"@, "なし"@, "不要"@, "禁止"@, "非表示"@, "避け"@, "回避"@, "維持"@, "保持"@,
            "unchanged"@, "without"@, "must not"@, "do not"@,
        ]) ==> spec_contains_output_negative_marker(clause),
        !text::spec_contains(clause, "ず"@) ==> (spec_contains_output_negative_marker(clause)
            <==> says_one_of(clause, seq![
                "しない"@, "せず"@, "ない"@, "なし"@, "不要"@, "禁止"@, "非表示"@, "避け"@, "回避"@, "維持"@, "保持"@,
                "unchanged"@, "without"@, "must not"@, "do not"@,
            ])),
{
    reveal(spec_contains_output_negative_marker);
    reveal(spec_any_negative_zu);
    words_are_said(clause, OUTPUT_NEGATIVE_MARKERS@, seq![
        "しない"@, "せず"@, "ない"@, "なし"@, "不要"@, "禁止"@, "非表示"@, "避け"@, "回避"@, "維持"@, "保持"@, "unchanged"@,
        "without"@, "must not"@, "do not"@,
    ]);
    if !text::spec_contains(clause, "ず"@) {
        text::lemma_find_from(clause, "ず"@, 0);
        match text::spec_find(clause, "ず"@) {
            Some(k) => {
                assert(text::occurs_at(clause, "ず"@, k));
            },
            None => {},
        }
        assert(text::spec_match_indices(clause, "ず"@).len() == 0);
    }
}

/// A thing that is not to be changed is kept by a clause that names it and says that it stays.
pub proof fn unchanged_things_are_named(clauses: Seq<Seq<char>>, anchor: Seq<char>)
    ensures
        spec_any_clause_keeps_anchor(clauses, anchor) <==> exists|i: int|
            0 <= i < clauses.len() && matching::spec_contains_ascii_case_insensitive(
                #[trigger] clauses[i],
                anchor,
            ) && says_one_of(clauses[i], seq![
                "変更しない"@, "変更せず"@, "変更なし"@, "変えない"@, "変えず"@, "改変しない"@, "改変せず"@, "改変なし"@, "維持"@,
                "保持"@, "そのまま"@, "禁止"@, "しない"@, "せず"@, "preserve"@, "keep"@, "unchanged"@,
            ]),
{
    reveal(spec_any_clause_keeps_anchor);
    assert forall|i: int| 0 <= i < clauses.len() implies (matching::spec_contains_any_marker(
        #[trigger] clauses[i],
        OUTPUT_PREDICATES@,
    ) <==> says_one_of(clauses[i], seq![
        "変更しない"@, "変更せず"@, "変更なし"@, "変えない"@, "変えず"@, "改変しない"@, "改変せず"@, "改変なし"@, "維持"@, "保持"@,
        "そのまま"@, "禁止"@, "しない"@, "せず"@, "preserve"@, "keep"@, "unchanged"@,
    ])) by {
        words_are_said(clauses[i], OUTPUT_PREDICATES@, seq![
            "変更しない"@, "変更せず"@, "変更なし"@, "変えない"@, "変えず"@, "改変しない"@, "改変せず"@, "改変なし"@, "維持"@, "保持"@,
            "そのまま"@, "禁止"@, "しない"@, "せず"@, "preserve"@, "keep"@, "unchanged"@,
        ]);
    }
}

/// Prohibitions are kept where states, checks, lists and the rules of negation are, each in lower
/// case; only there.
pub proof fn negative_constraints_are_of_every_kind(input: Seq<char>, output: Seq<char>)
    ensures
        spec_preserves_negative_constraints(input, output) <==> {
            let said = text::spec_lowercase(input);
            let kept = text::spec_lowercase(output);
            &&& spec_preserves_state_persistence_constraints(said, kept)
            &&& spec_preserves_verification_constraints(said, kept)
            &&& spec_preserves_list_constraints(said, kept)
            &&& spec_negation_rules_kept(said, kept)
        },
{
    reveal(spec_preserves_negative_constraints);
}

/// The constraints of a request are kept where those of each of its clauses are.
pub proof fn constraints_are_kept_clause_by_clause(input: Seq<char>, output: Seq<char>, k: int)
    ensures
        spec_preserves_state_persistence_constraints(input, output) && 0 <= k
            < clauses::spec_required_constraint_clauses(input).len()
            && spec_is_state_persistence_clause(clauses::spec_required_constraint_clauses(input)[k])
            ==> spec_state_persistence_clause_satisfied(
            clauses::spec_required_constraint_clauses(input)[k],
            output,
        ),
        spec_preserves_verification_constraints(input, output) && 0 <= k
            < clauses::spec_input_clauses(input).len() && spec_is_verification_constraint_clause(
            clauses::spec_input_clauses(input)[k],
        ) ==> spec_verification_constraint_satisfied(clauses::spec_input_clauses(input)[k], output),
        spec_preserves_list_constraints(input, output) && 0 <= k < clauses::spec_input_clauses(
            input,
        ).len() ==> spec_list_constraint_satisfied(clauses::spec_input_clauses(input)[k], output),
        spec_preserves_targeted_change_constraints(input, output) && 0 <= k
            < clauses::spec_input_clauses(input).len() ==> spec_targeted_change_kept(
            clauses::spec_input_clauses(input)[k],
            output,
        ),
        spec_preserves_constraint_clause_roles(input, output) && 0 <= k
            < clauses::spec_required_constraint_clauses(input).len()
            ==> spec_constraint_clause_role_kept(
            clauses::spec_required_constraint_clauses(input)[k],
            output,
        ),
{
    reveal(spec_preserves_state_persistence_constraints);
    reveal(spec_preserves_verification_constraints);
    reveal(spec_preserves_list_constraints);
    reveal(spec_all_list_constraints_satisfied);
    reveal(spec_preserves_targeted_change_constraints);
    reveal(spec_preserves_constraint_clause_roles);
}

/// Every prohibition of a clause is repeated by some clause of the output that says so.
pub proof fn prohibitions_are_repeated(clause: Seq<char>, output: Seq<char>, k: int)
    requires
        spec_constraint_clause_role_kept(clause, output),
        0 <= k < spec_negative_clause_requirements(clause).len(),
    ensures
        exists|i: int|
            0 <= i < clauses::spec_input_clauses(output).len()
                && spec_output_clause_preserves_constraint_action(
                #[trigger] clauses::spec_input_clauses(output)[i],
                spec_negative_clause_requirements(clause)[k],
            ) && spec_contains_output_negative_marker(clauses::spec_input_clauses(output)[i]),
{
    reveal(spec_constraint_clause_role_kept);
    reveal(spec_all_negations_kept);
    reveal(spec_any_clause_keeps_negation);
    let kept = clauses::spec_input_clauses(output);
    let requirement = spec_negative_clause_requirements(clause)[k];
    assert(spec_any_clause_keeps_negation(kept, requirement));
    let i = choose|i: int|
        #![trigger kept[i]]
        0 <= i < kept.len() && spec_output_clause_preserves_constraint_action(kept[i], requirement)
            && spec_contains_output_negative_marker(kept[i]);
    assert(clauses::spec_input_clauses(output)[i] == kept[i]);
}

/// Some forms that end like a negation are none.
pub proof fn forms_that_are_no_negation(prefix: Seq<char>)
    ensures
        spec_is_non_negative_zu_form(prefix) <==> text::spec_ends_with(prefix, "かかわらず"@)
            || text::spec_ends_with(prefix, "関わらず"@)
            || text::spec_ends_with(prefix, "問わず"@),
{
    reveal(spec_is_non_negative_zu_form);
    let forms = NON_NEGATIVE_FORMS@;
    assert(forms[0]@ == "かかわらず"@);
    assert(forms[1]@ == "関わらず"@);
    assert(forms[2]@ == "問わず"@);
}

} // verus!
