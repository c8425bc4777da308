//! The structure of a request: its clauses by the part that they play in it.
use vstd::prelude::*;
use crate::runtime::clauses;
use crate::contents;
use crate::parts;
use crate::runtime::matching;
use crate::text;

verus! {

broadcast use crate::contents::group_contents;

/// The part that a clause plays in a request.
#[derive(Debug, Clone, Copy, PartialEq, Eq, Structural)]
pub enum PromptRole {
    CurrentState,
    Request,
    Constraint,
    Verification,
    Target,
    Context,
}

/// One clause of a request with its part, a label for it, and the required terms that it holds.
#[derive(Debug, Clone, PartialEq, Eq)]
pub struct PromptFact {
    pub role: PromptRole,
    pub label: String,
    pub text: String,
    pub required_terms: Vec<String>,
}

/// What a [`PromptFact`] holds.
pub struct Fact {
    pub role: PromptRole,
    pub label: Seq<char>,
    pub text: Seq<char>,
    pub required_terms: Seq<Seq<char>>,
}

impl View for PromptFact {
    type V = Fact;

    open spec fn view(&self) -> Fact {
        Fact {
            role: self.role,
            label: self.label@,
            text: self.text@,
            required_terms: contents::views(self.required_terms@),
        }
    }
}

/// What a list of facts holds.
pub open spec fn fact_views(facts: Seq<PromptFact>) -> Seq<Fact> {
    facts.map_values(|fact: PromptFact| fact@)
}

/// Where a fact is appended what it holds is appended.
pub proof fn lemma_fact_views_push(facts: Seq<PromptFact>, fact: PromptFact)
    ensures
        fact_views(facts.push(fact)) == fact_views(facts).push(fact@),
{
    assert(fact_views(facts.push(fact)) =~= fact_views(facts).push(fact@));
}

fn push_fact(facts: &mut Vec<PromptFact>, fact: PromptFact)
    ensures
        fact_views(final(facts)@) == fact_views(old(facts)@).push(fact@),
{
    proof {
        lemma_fact_views_push(facts@, fact);
    }
    facts.push(fact);
}

/// Signs of a constraint.
pub const STRUCTURE_CONSTRAINT_MARKERS: [&'static str; 59] = [
    "避け",
    "禁止",
    "しない",
    "できない",
    "不要",
    "ではなく",
    "でなく",
    "行わない",
    "読み込まず",
    "読まない",
    "下げない",
    "廃止",
    "変えず",
    "入れない",
    "影響させない",
    "削除しない",
    "消えない",
    "消さない",
    "変更不可",
    "実通信しない",
    "送信しない",
    "二重作成しない",
    "再接続しない",
    "再試行しない",
    "超えたら",
    "再推論せず",
    "戻さない",
    "参照しない",
    "混ぜない",
    "のみ",
    "だけ",
    "必ず",
    "維持",
    "残す",
    "テスト",
    "確認できる",
    "確認したい",
    "場合",
    "なら",
    "ときは",
    "時は",
    "際は",
    "失敗時",
    "成功時",
    "変えない",
    "変更せず",
    "変更しない",
    "改変せず",
    "増やさない",
    "せず",
    "must",
    "must not",
    "do not",
    "don't",
    "avoid",
    "only",
    "without",
    "preserve",
    "keep",
];

/// Signs of a description of the present state.
pub const CURRENT_STATE_MARKERS: [&'static str; 17] = [
    "今の実装",
    "現在",
    "現状",
    "今は",
    "いまは",
    "発生",
    "起きて",
    "なって",
    "してしま",
    "できない",
    "届かない",
    "重い",
    "遅い",
    "不便",
    "問題",
    "困って",
    "言われて",
];

/// Signs of something asked for.
pub const REQUEST_MARKERS: [&'static str; 25] = [
    "修正",
    "追加",
    "を実装",
    "実装して",
    "実装する",
    "実装を",
    "作成",
    "更新",
    "調査",
    "整理",
    "提案",
    "検証",
    "確認",
    "返却",
    "コピー",
    "保持",
    "維持",
    "直して",
    "直したい",
    "してほしい",
    "したい",
    "対応して",
    "使って",
    "使用して",
    "用いて",
];

/// Signs of background that says nothing of the task.
pub const REDUNDANT_CONTEXT_MARKERS: [&'static str; 10] = [
    "前にもお願い",
    "以前にもお願い",
    "何度かお願い",
    "念のため背景",
    "参考までに",
    "余談ですが",
    "背景説明は長く",
    "背景説明が長く",
    "必要なのはこの変更だけ",
    "必要なのは上記だけ",
];

/// Signs of a condition and what is to happen then.
pub const CONDITION_LABEL_MARKERS: [&'static str; 8] = [
    "場合",
    "なら",
    "ときは",
    "時は",
    "際は",
    "超過時",
    "失敗時",
    "成功時",
];

/// Signs of a prohibition.
pub const PROHIBITION_LABEL_MARKERS: [&'static str; 13] = [
    "しない",
    "せず",
    "禁止",
    "避け",
    "変えず",
    "変えない",
    "変更しない",
    "消さない",
    "行わない",
    "不要",
    "must not",
    "do not",
    "without",
];

/// Long phrases of requests with their short forms.
pub const SURFACE_SHORT_FORMS: [(&'static str, &'static str); 25] = [
    ("なんですけど ", "で"),
    ("なんですけど、", "で"),
    ("を直してほしいです", "を修正"),
    ("を呼び出してください", "呼出"),
    ("を作成してください", "作成"),
    ("を追加してください", "追加"),
    ("を実装してください", "実装"),
    ("を修正してください", "修正"),
    ("を確認してください", "確認"),
    ("を調べてください", "調査"),
    ("を整理してください", "整理"),
    ("をまとめてください", "整理"),
    ("を提案してください", "提案"),
    ("を検証してください", "検証"),
    ("を更新してください", "更新"),
    ("を設定してください", "設定"),
    ("を適用してください", "適用"),
    ("を保持してください", "保持"),
    ("を維持してください", "維持"),
    ("を返してください", "返却"),
    ("をコピーしてください", "コピー"),
    ("を出してください", "出力"),
    ("をお願いしたいです", ""),
    ("お願いいたします", ""),
    ("お願い致します", ""),
];

/// Words that soften a request and may be dropped before it.
pub const SOFTENING_PREFIXES: [&'static str; 5] = [
    "できれば、",
    "可能であれば、",
    "念のため、",
    "要するに、",
    "今回については、",
];

/// Endings of a request that may be dropped.
pub const REQUEST_SUFFIXES: [&'static str; 9] = [
    "していただけますでしょうか",
    "していただきたいです",
    "してもらいたいです",
    "してほしいです",
    "するようにしてください",
    "をお願いします",
    "お願いします",
    "ください",
    "です",
];

/// Words of limitation.
pub const LIMITATION_WORDS: [&'static str; 3] = ["だけ", "のみ", "以外"];

/// Words of prohibition.
pub const PROHIBITION_WORDS: [&'static str; 8] = [
    "しない",
    "せず",
    "ないで",
    "禁止",
    "不可",
    "除外",
    "変更せず",
    "増やさない",
];

/// Words of condition.
pub const CONDITION_WORDS: [&'static str; 6] = ["なら", "場合", "とき", "時は", "unless", "only if"];

/// The condition of [`contains_loosely`]: the text holds the term, whatever the case of ASCII
/// letters.
pub open spec fn spec_contains_loosely(haystack: Seq<char>, needle: Seq<char>) -> bool {
    text::spec_contains(text::spec_lowercase(haystack), text::spec_lowercase(needle))
}

/// Whether the text holds the term, whatever the case of ASCII letters.
pub fn contains_loosely(haystack: &str, needle: &str) -> (r: bool)
    ensures
        r == spec_contains_loosely(haystack@, needle@),
{
    text::contains(&text::lowercase(haystack), &text::lowercase(needle))
}

/// The condition of [`any_term_in`]: the text holds some of the terms.
#[verifier::opaque]
pub open spec fn spec_any_term_in(terms: Seq<Seq<char>>, text: Seq<char>) -> bool {
    exists|i: int|
        #![trigger terms[i]] 0 <= i < terms.len()
        && spec_contains_loosely(text, terms[i])
}

/// Whether the text holds some of the terms.
pub fn any_term_in(terms: &Vec<String>, text: &str) -> (r: bool)
    ensures
        r == spec_any_term_in(contents::views(terms@), text@),
{
    proof {
        reveal(spec_any_term_in);
    }
    let mut i: usize = 0;
    while i < terms.len()
        invariant
            i <= terms@.len(),
            forall|j: int|
                #![trigger contents::views(terms@)[j]] 0 <= j < i ==> !(spec_contains_loosely(
                    text@,
                    contents::views(terms@)[j],
                )),
        decreases terms@.len() - i,
    {
        proof {
            reveal(spec_any_term_in);
        }
        let term: &str = &terms[i];
        assert(contents::views(terms@)[i as int] == terms@[i as int]@);
        if contains_loosely(text, term) {
            return true;
        }
        i = i + 1;
    }
    false
}

/// The condition of [`any_unique_term`]: the clause holds a term that the other text lacks.
#[verifier::opaque]
pub open spec fn spec_any_unique_term(
    terms: Seq<Seq<char>>,
    clause: Seq<char>,
    others: Seq<char>,
) -> bool {
    exists|i: int|
        #![trigger terms[i]] 0 <= i < terms.len()
        && spec_contains_loosely(clause, terms[i]) && !spec_contains_loosely(others, terms[i])
}

/// Whether the clause holds a term that the other text lacks.
pub fn any_unique_term(terms: &Vec<String>, clause: &str, others: &str) -> (r: bool)
    ensures
        r == spec_any_unique_term(contents::views(terms@), clause@, others@),
{
    proof {
        reveal(spec_any_unique_term);
    }
    let mut i: usize = 0;
    while i < terms.len()
        invariant
            i <= terms@.len(),
            forall|j: int|
                #![trigger contents::views(terms@)[j]] 0 <= j < i ==> !((spec_contains_loosely(
                    clause@,
                    contents::views(terms@)[j],
                )
                    && !spec_contains_loosely(others@, contents::views(terms@)[j]))),
        decreases terms@.len() - i,
    {
        proof {
            reveal(spec_any_unique_term);
        }
        let term: &str = &terms[i];
        assert(contents::views(terms@)[i as int] == terms@[i as int]@);
        if contains_loosely(clause, term) && !contains_loosely(others, term) {
            return true;
        }
        i = i + 1;
    }
    false
}

/// Value of [`terms_in`].
#[verifier::opaque]
pub open spec fn spec_terms_in(terms: Seq<Seq<char>>, text: Seq<char>) -> Seq<Seq<char>> {
    terms.filter(|term: Seq<char>| spec_contains_loosely(text, term))
}

/// The terms that the text holds.
pub fn terms_in(terms: &Vec<String>, text: &str) -> (r: Vec<String>)
    ensures
        contents::views(r@) == spec_terms_in(contents::views(terms@), text@),
{
    proof {
        reveal(spec_terms_in);
        reveal(Seq::filter);
    }
    let mut out: Vec<String> = Vec::new();
    let mut i: usize = 0;
    while i < terms.len()
        invariant
            i <= terms@.len(),
            contents::views(out@) == spec_terms_in(
                contents::views(terms@).take(i as int),
                text@,
            ),
        decreases terms@.len() - i,
    {
        proof {
            reveal(spec_terms_in);
            reveal(Seq::filter);
        }
        assert(contents::views(terms@).take(i + 1).drop_last()
            =~= contents::views(terms@).take(i as int));
        let term: &str = &terms[i];
        i = i + 1;
        if contains_loosely(text, term) {
            out.push(term.to_owned());
        }
    }
    assert(contents::views(terms@).take(terms@.len() as int) =~= contents::views(terms@));
    out
}

/// The condition of [`is_constraint_clause`]: the clause states a constraint.
#[verifier::opaque]
pub open spec fn spec_is_constraint_clause(clause: Seq<char>) -> bool {
    matching::spec_contains_any_marker(clause, STRUCTURE_CONSTRAINT_MARKERS@)
}

/// Whether the clause states a constraint.
pub fn is_constraint_clause(clause: &str) -> (r: bool)
    ensures
        r == spec_is_constraint_clause(clause@),
{
    proof {
        reveal(spec_is_constraint_clause);
    }
    matching::contains_any_marker(clause, &STRUCTURE_CONSTRAINT_MARKERS)
}

/// The condition of [`is_current_state_clause`]: the clause describes the present state.
#[verifier::opaque]
pub open spec fn spec_is_current_state_clause(clause: Seq<char>) -> bool {
    matching::spec_contains_any_marker(clause, CURRENT_STATE_MARKERS@)
}

/// Whether the clause describes the present state.
pub fn is_current_state_clause(clause: &str) -> (r: bool)
    ensures
        r == spec_is_current_state_clause(clause@),
{
    proof {
        reveal(spec_is_current_state_clause);
    }
    matching::contains_any_marker(clause, &CURRENT_STATE_MARKERS)
}

/// The condition of [`is_request_clause`]: the clause asks for something.
#[verifier::opaque]
pub open spec fn spec_is_request_clause(clause: Seq<char>) -> bool {
    matching::spec_contains_any_marker(clause, REQUEST_MARKERS@)
}

/// Whether the clause asks for something.
pub fn is_request_clause(clause: &str) -> (r: bool)
    ensures
        r == spec_is_request_clause(clause@),
{
    proof {
        reveal(spec_is_request_clause);
    }
    matching::contains_any_marker(clause, &REQUEST_MARKERS)
}

/// The condition of [`is_verification_prompt_clause`]: the clause asks for a test, and not for
/// checks to be built.
#[verifier::opaque]
pub open spec fn spec_is_verification_prompt_clause(clause: Seq<char>) -> bool {
    let implements_validation = matching::spec_contains_any_marker(
        clause,
        ["検証を追加", "検証を実装", "検証処理", "検証機能", "検証ロジック"]@,
    );
    matching::spec_contains_any_marker(clause, ["テスト", "確認", "test", "spec", "assert"]@)
        || (text::spec_contains(clause, "検証"@) && !implements_validation)
}

/// Whether the clause asks for a test, and not for checks to be built.
pub fn is_verification_prompt_clause(clause: &str) -> (r: bool)
    ensures
        r == spec_is_verification_prompt_clause(clause@),
{
    proof {
        reveal(spec_is_verification_prompt_clause);
    }
    let implements_validation: bool = matching::contains_any_marker(
        clause,
        &["検証を追加", "検証を実装", "検証処理", "検証機能", "検証ロジック"],
    );
    matching::contains_any_marker(clause, &["テスト", "確認", "test", "spec", "assert"])
        || (text::contains(clause, "検証") && !implements_validation)
}

/// The condition of [`has_current_to_request_transition`]: the clause goes over from one
/// statement to another.
#[verifier::opaque]
pub open spec fn spec_has_current_to_request_transition(clause: Seq<char>) -> bool {
    matching::spec_contains_any_marker(
        clause,
        ["ので", "ため", "から", "ですが", "けれど", "一方で"]@,
    )
}

/// Whether the clause goes over from one statement to another.
pub fn has_current_to_request_transition(clause: &str) -> (r: bool)
    ensures
        r == spec_has_current_to_request_transition(clause@),
{
    proof {
        reveal(spec_has_current_to_request_transition);
    }
    matching::contains_any_marker(clause, &["ので", "ため", "から", "ですが", "けれど", "一方で"])
}

/// The condition of [`is_transition_clause`]: the clause goes over from the present state to what
/// is asked for.
#[verifier::opaque]
pub open spec fn spec_is_transition_clause(clause: Seq<char>) -> bool {
    spec_is_current_state_clause(clause)
        && spec_is_request_clause(clause)
        && spec_has_current_to_request_transition(clause)
}

/// Whether the clause goes over from the present state to what is asked for.
pub fn is_transition_clause(clause: &str) -> (r: bool)
    ensures
        r == spec_is_transition_clause(clause@),
{
    proof {
        reveal(spec_is_transition_clause);
    }
    is_current_state_clause(clause)
        && is_request_clause(clause)
        && has_current_to_request_transition(clause)
}

/// The condition of [`is_redundant_context`]: the text is background that says nothing of the
/// task.
#[verifier::opaque]
pub open spec fn spec_is_redundant_context(text: Seq<char>) -> bool {
    matching::spec_contains_any_marker(text, REDUNDANT_CONTEXT_MARKERS@)
}

/// Whether the text is background that says nothing of the task.
pub fn is_redundant_context(text: &str) -> (r: bool)
    ensures
        r == spec_is_redundant_context(text@),
{
    proof {
        reveal(spec_is_redundant_context);
    }
    matching::contains_any_marker(text, &REDUNDANT_CONTEXT_MARKERS)
}

/// The condition of [`is_actionable_clause`]: the clause states a constraint or asks for
/// something.
#[verifier::opaque]
pub open spec fn spec_is_actionable_clause(clause: Seq<char>) -> bool {
    spec_is_constraint_clause(clause)
        || (!spec_is_current_state_clause(clause) && spec_is_request_clause(clause))
        || spec_is_transition_clause(clause)
}

/// Whether the clause states a constraint or asks for something.
pub fn is_actionable_clause(clause: &str) -> (r: bool)
    ensures
        r == spec_is_actionable_clause(clause@),
{
    proof {
        reveal(spec_is_actionable_clause);
    }
    is_constraint_clause(clause)
        || (!is_current_state_clause(clause) && is_request_clause(clause))
        || is_transition_clause(clause)
}

/// The condition of [`any_actionable_clause`]: some clause states a constraint or asks for
/// something.
#[verifier::opaque]
pub open spec fn spec_any_actionable_clause(clauses: Seq<Seq<char>>) -> bool {
    exists|i: int|
        #![trigger clauses[i]] 0 <= i < clauses.len()
        && spec_is_actionable_clause(clauses[i])
}

/// Whether some clause states a constraint or asks for something.
pub fn any_actionable_clause(clauses: &Vec<String>) -> (r: bool)
    ensures
        r == spec_any_actionable_clause(contents::views(clauses@)),
{
    proof {
        reveal(spec_any_actionable_clause);
    }
    let mut i: usize = 0;
    while i < clauses.len()
        invariant
            i <= clauses@.len(),
            forall|j: int|
                #![trigger contents::views(clauses@)[j]] 0 <= j < i ==> !(spec_is_actionable_clause(
                    contents::views(clauses@)[j],
                )),
        decreases clauses@.len() - i,
    {
        proof {
            reveal(spec_any_actionable_clause);
        }
        let clause: &str = &clauses[i];
        assert(contents::views(clauses@)[i as int] == clauses@[i as int]@);
        if is_actionable_clause(clause) {
            return true;
        }
        i = i + 1;
    }
    false
}

/// Value of [`non_current_clauses`].
#[verifier::opaque]
pub open spec fn spec_non_current_clauses(clauses: Seq<Seq<char>>) -> Seq<Seq<char>> {
    clauses.filter(
        |clause: Seq<char>|
            spec_is_constraint_clause(clause) || !spec_is_current_state_clause(clause) || (
            spec_is_request_clause(clause) && spec_has_current_to_request_transition(clause)),
    )
}

/// The clauses that do more than describe the present state.
pub fn non_current_clauses(clauses: &Vec<String>) -> (r: Vec<String>)
    ensures
        contents::views(r@) == spec_non_current_clauses(contents::views(clauses@)),
{
    proof {
        reveal(spec_non_current_clauses);
        reveal(Seq::filter);
    }
    let mut out: Vec<String> = Vec::new();
    let mut i: usize = 0;
    while i < clauses.len()
        invariant
            i <= clauses@.len(),
            contents::views(out@) == spec_non_current_clauses(
                contents::views(clauses@).take(i as int),
            ),
        decreases clauses@.len() - i,
    {
        proof {
            reveal(spec_non_current_clauses);
            reveal(Seq::filter);
        }
        assert(contents::views(clauses@).take(i + 1).drop_last()
            =~= contents::views(clauses@).take(i as int));
        let clause: &str = &clauses[i];
        i = i + 1;
        if is_constraint_clause(clause)
            || !is_current_state_clause(clause)
            || (is_request_clause(clause) && has_current_to_request_transition(clause)) {
            out.push(clause.to_owned());
        }
    }
    assert(contents::views(clauses@).take(clauses@.len() as int) =~= contents::views(clauses@));
    out
}

/// The condition of [`all_constraint_items`]: every item states a constraint.
#[verifier::opaque]
pub open spec fn spec_all_constraint_items(listed: Seq<Seq<char>>) -> bool {
    forall|i: int|
        #![trigger listed[i]] 0 <= i < listed.len() ==> spec_is_constraint_clause(listed[i])
}

/// Whether every item states a constraint.
pub fn all_constraint_items(listed: &Vec<String>) -> (r: bool)
    ensures
        r == spec_all_constraint_items(contents::views(listed@)),
{
    proof {
        reveal(spec_all_constraint_items);
    }
    let mut i: usize = 0;
    while i < listed.len()
        invariant
            i <= listed@.len(),
            forall|j: int|
                #![trigger contents::views(listed@)[j]] 0 <= j < i ==> spec_is_constraint_clause(
                    contents::views(listed@)[j],
                ),
        decreases listed@.len() - i,
    {
        proof {
            reveal(spec_all_constraint_items);
        }
        let item: &str = &listed[i];
        assert(contents::views(listed@)[i as int] == listed@[i as int]@);
        if !is_constraint_clause(item) {
            return false;
        }
        i = i + 1;
    }
    true
}

/// Value of [`atomic_constraint_items`].
#[verifier::opaque]
pub open spec fn spec_atomic_constraint_items(clause: Seq<char>) -> Seq<Seq<char>> {
    let listed = text::spec_segments(clause, "、,"@);
    if listed.len() > 1 && spec_all_constraint_items(listed) {
        listed
    } else {
        let whole = Seq::<Seq<char>>::empty();
        whole.push(clause)
    }
}

/// The constraints that a clause joins, where each of its parts is one; else the clause.
pub fn atomic_constraint_items(clause: &str) -> (r: Vec<String>)
    ensures
        contents::views(r@) == spec_atomic_constraint_items(clause@),
{
    proof {
        reveal(spec_atomic_constraint_items);
    }
    let listed: Vec<String> = text::segments(clause, "、,");
    if listed.len() > 1 && all_constraint_items(&listed) {
        return listed;
    }
    let mut whole: Vec<String> = Vec::new();
    whole.push(clause.to_owned());
    whole
}

/// Value of [`constraint_kinds`].
#[verifier::opaque]
pub open spec fn spec_constraint_kinds(clause: Seq<char>) -> Seq<Seq<char>> {
    let kinds = Seq::<Seq<char>>::empty();
    let kinds = if matching::spec_contains_any_marker(clause, ["だけ", "のみ", "only"]@) {
        kinds.push("限定"@)
    } else {
        kinds
    };
    let kinds = if matching::spec_contains_any_marker(clause, CONDITION_LABEL_MARKERS@) {
        kinds.push("条件対応"@)
    } else {
        kinds
    };
    let kinds = if matching::spec_contains_any_marker(clause, PROHIBITION_LABEL_MARKERS@) {
        kinds.push("禁止"@)
    } else {
        kinds
    };
    if matching::spec_contains_any_marker(
        clause,
        ["維持", "保持", "残す", "復元", "keep", "preserve"]@,
    ) {
        kinds.push("維持"@)
    } else {
        kinds
    }
}

/// The kinds of constraint that a clause states.
pub fn constraint_kinds(clause: &str) -> (r: Vec<String>)
    ensures
        contents::views(r@) == spec_constraint_kinds(clause@),
{
    proof {
        reveal(spec_constraint_kinds);
    }
    let mut kinds: Vec<String> = Vec::new();
    if matching::contains_any_marker(clause, &["だけ", "のみ", "only"]) {
        kinds.push("限定".to_owned());
    }
    if matching::contains_any_marker(clause, &CONDITION_LABEL_MARKERS) {
        kinds.push("条件対応".to_owned());
    }
    if matching::contains_any_marker(clause, &PROHIBITION_LABEL_MARKERS) {
        kinds.push("禁止".to_owned());
    }
    if matching::contains_any_marker(clause, &["維持", "保持", "残す", "復元", "keep", "preserve"]) {
        kinds.push("維持".to_owned());
    }
    kinds
}

/// Value of [`constraint_label`].
#[verifier::opaque]
pub open spec fn spec_constraint_label(clause: Seq<char>) -> Seq<char> {
    let kinds = spec_constraint_kinds(clause);
    if kinds.len() == 0 {
        "制約"@
    } else {
        let joined = text::spec_join(kinds, "+"@);
        "制約:"@ + joined
    }
}

/// The label of a constraint.
pub fn constraint_label(clause: &str) -> (r: String)
    ensures
        r@ == spec_constraint_label(clause@),
{
    proof {
        reveal(spec_constraint_label);
    }
    let kinds: Vec<String> = constraint_kinds(clause);
    if kinds.len() == 0 {
        return "制約".to_owned();
    }
    let joined: String = text::join(&kinds, "+");
    text::concat2("制約:", &joined)
}

/// Value of [`constraint_fact`].
#[verifier::opaque]
pub open spec fn spec_constraint_fact(item: Seq<char>, required_terms: Seq<Seq<char>>) -> Fact {
    if spec_is_verification_prompt_clause(item) {
        Fact {
            role: PromptRole::Verification,
            label: "検証"@,
            text: text::spec_trim(item),
            required_terms: spec_terms_in(required_terms, item),
        }
    } else {
        Fact {
            role: PromptRole::Constraint,
            label: spec_constraint_label(item),
            text: text::spec_trim(item),
            required_terms: spec_terms_in(required_terms, item),
        }
    }
}

/// The fact that a constraint is.
pub fn constraint_fact(item: &str, required_terms: &Vec<String>) -> (r: PromptFact)
    ensures
        r@ == spec_constraint_fact(item@, contents::views(required_terms@)),
{
    proof {
        reveal(spec_constraint_fact);
    }
    if is_verification_prompt_clause(item) {
        return PromptFact {
            role: PromptRole::Verification,
            label: "検証".to_owned(),
            text: text::trim(item),
            required_terms: terms_in(required_terms, item),
        };
    }
    PromptFact {
        role: PromptRole::Constraint,
        label: constraint_label(item),
        text: text::trim(item),
        required_terms: terms_in(required_terms, item),
    }
}

/// Value of [`clause_role`].
#[verifier::opaque]
pub open spec fn spec_clause_role(clause: Seq<char>, required_terms: Seq<Seq<char>>) -> PromptRole {
    if spec_is_transition_clause(clause) {
        PromptRole::Request
    } else {
        if spec_is_current_state_clause(clause) {
            PromptRole::CurrentState
        } else {
            if spec_is_verification_prompt_clause(clause) {
                PromptRole::Verification
            } else {
                if spec_is_request_clause(clause) {
                    PromptRole::Request
                } else {
                    if spec_any_term_in(required_terms, clause) {
                        PromptRole::Target
                    } else {
                        PromptRole::Context
                    }
                }
            }
        }
    }
}

/// The part that a clause without a constraint plays.
pub fn clause_role(clause: &str, required_terms: &Vec<String>) -> (r: PromptRole)
    ensures
        r == spec_clause_role(clause@, contents::views(required_terms@)),
{
    proof {
        reveal(spec_clause_role);
    }
    if is_transition_clause(clause) {
        return PromptRole::Request;
    }
    if is_current_state_clause(clause) {
        return PromptRole::CurrentState;
    }
    if is_verification_prompt_clause(clause) {
        return PromptRole::Verification;
    }
    if is_request_clause(clause) {
        return PromptRole::Request;
    }
    if any_term_in(required_terms, clause) {
        return PromptRole::Target;
    }
    PromptRole::Context
}

/// Value of [`clause_label`].
#[verifier::opaque]
pub open spec fn spec_clause_label(clause: Seq<char>, required_terms: Seq<Seq<char>>) -> Seq<char> {
    if spec_is_transition_clause(clause) {
        "現状→要求"@
    } else {
        if spec_is_current_state_clause(clause) {
            "現状"@
        } else {
            if spec_is_verification_prompt_clause(clause) {
                "検証"@
            } else {
                if spec_is_request_clause(clause) {
                    "要求"@
                } else {
                    if spec_any_term_in(required_terms, clause) {
                        "対象"@
                    } else {
                        "文脈"@
                    }
                }
            }
        }
    }
}

/// The label of a clause without a constraint.
pub fn clause_label(clause: &str, required_terms: &Vec<String>) -> (r: String)
    ensures
        r@ == spec_clause_label(clause@, contents::views(required_terms@)),
{
    proof {
        reveal(spec_clause_label);
    }
    if is_transition_clause(clause) {
        return "現状→要求".to_owned();
    }
    if is_current_state_clause(clause) {
        return "現状".to_owned();
    }
    if is_verification_prompt_clause(clause) {
        return "検証".to_owned();
    }
    if is_request_clause(clause) {
        return "要求".to_owned();
    }
    if any_term_in(required_terms, clause) {
        return "対象".to_owned();
    }
    "文脈".to_owned()
}

/// Value of [`clause_fact`].
#[verifier::opaque]
pub open spec fn spec_clause_fact(clause: Seq<char>, required_terms: Seq<Seq<char>>) -> Fact {
    Fact {
        role: spec_clause_role(clause, required_terms),
        label: spec_clause_label(clause, required_terms),
        text: text::spec_trim(clause),
        required_terms: spec_terms_in(required_terms, clause),
    }
}

/// The fact that a clause without a constraint is.
pub fn clause_fact(clause: &str, required_terms: &Vec<String>) -> (r: PromptFact)
    ensures
        r@ == spec_clause_fact(clause@, contents::views(required_terms@)),
{
    proof {
        reveal(spec_clause_fact);
    }
    PromptFact {
        role: clause_role(clause, required_terms),
        label: clause_label(clause, required_terms),
        text: text::trim(clause),
        required_terms: terms_in(required_terms, clause),
    }
}

/// The condition of [`is_superfluous_state`]: the clause only describes the present state of what
/// other clauses ask for, and holds no term of its own.
#[verifier::opaque]
pub open spec fn spec_is_superfluous_state(
    clause: Seq<char>,
    required_terms: Seq<Seq<char>>,
    has_actionable_clause: bool,
    non_current_text: Seq<char>,
) -> bool {
    spec_is_current_state_clause(clause)
        && !spec_is_transition_clause(clause)
        && has_actionable_clause
        && !spec_any_unique_term(required_terms, clause, non_current_text)
}

/// Whether the clause only describes the present state of what other clauses ask for, and holds
/// no term of its own.
pub fn is_superfluous_state(
    clause: &str,
    required_terms: &Vec<String>,
    has_actionable_clause: bool,
    non_current_text: &str,
) -> (r: bool)
    ensures
        r
            == spec_is_superfluous_state(
                clause@,
                contents::views(required_terms@),
                has_actionable_clause,
                non_current_text@,
            ),
{
    proof {
        reveal(spec_is_superfluous_state);
    }
    is_current_state_clause(clause)
        && !is_transition_clause(clause)
        && has_actionable_clause
        && !any_unique_term(required_terms, clause, non_current_text)
}

/// The state of [`analyzed_facts`] after the given items.
pub open spec fn spec_facts_of_items(
    items: Seq<Seq<char>>,
    required_terms: Seq<Seq<char>>,
    facts: Seq<Fact>,
) -> Seq<Fact>
    decreases items.len(),
{
    if items.len() == 0 {
        facts
    } else {
        let facts = spec_facts_of_items(items.drop_last(), required_terms, facts);
        let item = items.last();
        facts.push(spec_constraint_fact(item, required_terms))
    }
}

/// The state of [`analyzed_facts`] after the given items.
pub open spec fn spec_facts_of_clauses(
    items: Seq<Seq<char>>,
    required_terms: Seq<Seq<char>>,
    has_actionable_clause: bool,
    non_current_text: Seq<char>,
) -> Seq<Fact>
    decreases items.len(),
{
    if items.len() == 0 {
        Seq::<Fact>::empty()
    } else {
        let facts = spec_facts_of_clauses(items.drop_last(), required_terms, has_actionable_clause, non_current_text);
        let clause = items.last();
        if spec_is_redundant_context(clause) && !spec_any_term_in(required_terms, clause) {
            facts
        } else {
            if spec_is_constraint_clause(clause) {
                spec_facts_of_items(spec_atomic_constraint_items(clause), required_terms, facts)
            } else {
                if !spec_is_superfluous_state(
                    clause,
                    required_terms,
                    has_actionable_clause,
                    non_current_text,
                ) {
                    facts.push(spec_clause_fact(clause, required_terms))
                } else {
                    facts
                }
            }
        }
    }
}

/// Value of [`analyzed_facts`].
#[verifier::opaque]
pub open spec fn spec_analyzed_facts(input: Seq<char>, required_terms: Seq<Seq<char>>) -> Seq<Fact> {
    let clauses = clauses::spec_input_clauses(input);
    let has_actionable_clause = spec_any_actionable_clause(clauses);
    let non_current_text = text::spec_join(spec_non_current_clauses(clauses), "\n"@);
    spec_facts_of_clauses(clauses, required_terms, has_actionable_clause, non_current_text)
}

/// The facts of a request in their order, without background and without descriptions of the
/// present state that nothing needs.
pub fn analyzed_facts(input: &str, required_terms: &Vec<String>) -> (r: Vec<PromptFact>)
    ensures
        fact_views(r@) == spec_analyzed_facts(input@, contents::views(required_terms@)),
{
    proof {
        reveal(spec_analyzed_facts);
    }
    let clauses: Vec<String> = clauses::input_clauses(input);
    let has_actionable_clause: bool = any_actionable_clause(&clauses);
    let non_current_text: String = text::join(&non_current_clauses(&clauses), "\n");
    let mut facts: Vec<PromptFact> = Vec::new();
    let mut i: usize = 0;
    while i < clauses.len()
        invariant
            i <= clauses@.len(),
            fact_views(facts@) == spec_facts_of_clauses(
                contents::views(clauses@).take(i as int),
                contents::views(required_terms@),
                has_actionable_clause,
                non_current_text@,
            ),
        decreases clauses@.len() - i,
    {
        assert(contents::views(clauses@).take(i + 1).drop_last()
            =~= contents::views(clauses@).take(i as int));
        let clause: &str = &clauses[i];
        i = i + 1;
        if is_redundant_context(clause) && !any_term_in(required_terms, clause) {
            continue;
        }
        if is_constraint_clause(clause) {
            let items: Vec<String> = atomic_constraint_items(clause);
            let ghost initial_facts = fact_views(facts@);
            let mut j: usize = 0;
            while j < items.len()
                invariant
                    j <= items@.len(),
                    fact_views(facts@) == spec_facts_of_items(
                        contents::views(items@).take(j as int),
                        contents::views(required_terms@),
                        initial_facts,
                    ),
                decreases items@.len() - j,
            {
                assert(contents::views(items@).take(j + 1).drop_last()
                    =~= contents::views(items@).take(j as int));
                let item: &str = &items[j];
                j = j + 1;
                push_fact(&mut facts, constraint_fact(item, required_terms));
            }
            assert(contents::views(items@).take(items@.len() as int) =~= contents::views(items@));
            continue;
        }
        if !is_superfluous_state(clause, required_terms, has_actionable_clause, &non_current_text) {
            push_fact(&mut facts, clause_fact(clause, required_terms));
        }
    }
    assert(contents::views(clauses@).take(clauses@.len() as int) =~= contents::views(clauses@));
    facts
}

/// Value of [`rendered_fact`].
pub open spec fn spec_rendered_fact(fact: Fact) -> Seq<char> {
    if fact.required_terms.len() == 0 {
        "["@ + fact.label + "] "@ + fact.text
    } else {
        let terms = text::spec_join(fact.required_terms, ","@);
        let head = "["@ + fact.label + "|必須語:"@ + terms + "] "@;
        head + fact.text
    }
}

/// The line that presents a fact to a model.
pub fn rendered_fact(fact: &PromptFact) -> (r: String)
    ensures
        r@ == spec_rendered_fact(fact@),
{
    if fact.required_terms.len() == 0 {
        return text::concat4("[", &fact.label, "] ", &fact.text);
    }
    let terms: String = text::join(&fact.required_terms, ",");
    let head: String = text::concat5("[", &fact.label, "|必須語:", &terms, "] ");
    text::concat2(&head, &fact.text)
}

/// The line that presents a fact to a model tells its label, its text and its required terms.
pub proof fn facts_are_presented(fact: Fact)
    ensures
        text::spec_contains(spec_rendered_fact(fact), "["@ + fact.label),
        text::spec_contains(spec_rendered_fact(fact), "] "@ + fact.text),
        forall|n: int|
            0 <= n < fact.required_terms.len() ==> text::spec_contains(
                spec_rendered_fact(fact),
                #[trigger] fact.required_terms[n],
            ),
{
    let line = spec_rendered_fact(fact);
    let nothing = Seq::<char>::empty();
    let label = "["@ + fact.label;
    let end = "] "@ + fact.text;
    if fact.required_terms.len() == 0 {
        parts::parts_are_held(nothing, label, end);
        assert(nothing + label + end =~= line);
        parts::parts_are_held(label, end, nothing);
        assert(label + end + nothing =~= line);
    } else {
        let listed = text::spec_join(fact.required_terms, ","@);
        let heading = "|必須語:"@;
        parts::parts_are_held(nothing, label, heading + listed + end);
        assert(nothing + label + (heading + listed + end) =~= line);
        parts::parts_are_held(label + heading + listed, end, nothing);
        assert(label + heading + listed + end + nothing =~= line);
        assert forall|n: int| 0 <= n < fact.required_terms.len() implies text::spec_contains(
            line,
            #[trigger] fact.required_terms[n],
        ) by {
            parts::joined_texts_are_held(fact.required_terms, ","@, n);
            parts::held_by_the_whole(label + heading, listed, end, fact.required_terms[n]);
            assert(label + heading + listed + end =~= line);
        }
    }
}

/// Value of [`rendered_facts`].
#[verifier::opaque]
pub open spec fn spec_rendered_facts(facts: Seq<Fact>) -> Seq<Seq<char>> {
    facts.map_values(|fact: Fact| spec_rendered_fact(fact))
}

/// The lines that present facts to a model.
pub fn rendered_facts(facts: &Vec<PromptFact>) -> (r: Vec<String>)
    ensures
        contents::views(r@) == spec_rendered_facts(fact_views(facts@)),
{
    proof {
        reveal(spec_rendered_facts);
    }
    let mut out: Vec<String> = Vec::new();
    let mut i: usize = 0;
    while i < facts.len()
        invariant
            i <= facts@.len(),
            out@.len() == i,
            forall|j: int|
                #![trigger contents::views(out@)[j]]
                0 <= j < i ==> contents::views(out@)[j] == spec_rendered_fact(fact_views(facts@)[j]),
        decreases facts@.len() - i,
    {
        assert(fact_views(facts@)[i as int] == facts@[i as int]@);
        let fact: &PromptFact = &facts[i];
        i = i + 1;
        out.push(rendered_fact(fact));
    }
    assert(contents::views(out@) =~= spec_rendered_facts(fact_views(facts@)));
    out
}

/// The state of [`byte_length`] after the given items.
pub open spec fn spec_bytes_of(items: Seq<char>, total: int) -> int
    decreases items.len(),
{
    if items.len() == 0 {
        total
    } else {
        let total = spec_bytes_of(items.drop_last(), total);
        let c = items.last();
        text::spec_span_end(total, spec_utf8_width(c))
    }
}

/// Value of [`byte_length`].
#[verifier::opaque]
pub open spec fn spec_byte_length(text: Seq<char>) -> int {
    let total: int = 0;
    spec_bytes_of(text, total)
}

/// The number of bytes of the text in UTF-8; no greater than the greatest index.
pub fn byte_length(text: &str) -> (r: usize)
    ensures
        r == spec_byte_length(text@),
{
    proof {
        reveal(spec_byte_length);
    }
    let mut total: usize = 0;
    let characters: Vec<char> = text::to_chars(text);
    let ghost initial_total = total as int;
    let mut i: usize = 0;
    while i < characters.len()
        invariant
            i <= characters@.len(),
            total as int == spec_bytes_of(characters@.take(i as int), initial_total),
        decreases characters@.len() - i,
    {
        assert(characters@.take(i + 1).drop_last() =~= characters@.take(i as int));
        let c: char = characters[i];
        i = i + 1;
        total = text::span_end(total, utf8_width(c));
    }
    assert(characters@.take(characters@.len() as int) =~= characters@);
    total
}

/// Value of [`utf8_width`].
pub open spec fn spec_utf8_width(c: char) -> int {
    if text::spec_char_between(c, 0, 127) {
        1
    } else {
        if text::spec_char_between(c, 0, 2047) {
            2
        } else {
            if text::spec_char_between(c, 0, 65535) {
                3
            } else {
                4
            }
        }
    }
}

/// The number of bytes of a character in UTF-8.
pub fn utf8_width(c: char) -> (r: usize)
    ensures
        r == spec_utf8_width(c),
{
    if text::char_between(c, 0, 127) {
        return 1;
    }
    if text::char_between(c, 0, 2047) {
        return 2;
    }
    if text::char_between(c, 0, 65535) {
        return 3;
    }
    4
}

/// Value of [`last_characters`].
pub open spec fn spec_last_characters(text: Seq<char>, count: int) -> Seq<char> {
    if text.len() <= count {
        text
    } else {
        text::spec_skip(text, text.len() - count)
    }
}

/// The last characters of the text, at most as many as given.
pub fn last_characters(text: &str, count: usize) -> (r: String)
    ensures
        r@ == spec_last_characters(text@, count as int),
{
    if text::char_count(text) <= count {
        return text.to_owned();
    }
    text::skip(text, text::char_count(text) - count)
}

/// Value of [`suffix_through_marker`].
#[verifier::opaque]
pub open spec fn spec_suffix_through_marker(
    text: Seq<char>,
    marker_start: int,
    marker: Seq<char>,
    max_chars: int,
) -> Seq<char> {
    text::spec_trim_start_any(
        spec_last_characters(text::spec_take(text, marker_start), max_chars) + marker,
        "。、,，;； \t\n"@,
    )
}

/// The marker with the characters before it, at most as many as given, without marks at the
/// start.
pub fn suffix_through_marker(
    text: &str,
    marker_start: usize,
    marker: &str,
    max_chars: usize,
) -> (r: String)
    ensures
        r@ == spec_suffix_through_marker(text@, marker_start as int, marker@, max_chars as int),
{
    proof {
        reveal(spec_suffix_through_marker);
    }
    text::trim_start_any(
        &text::concat2(&last_characters(&text::take(text, marker_start), max_chars), marker),
        "。、,，;； \t\n",
    )
}

/// The state of [`nearest_term_expression`] after the given items.
pub open spec fn spec_nearest_term_among(
    items: Seq<Seq<char>>,
    prefix: Seq<char>,
    marker: Seq<char>,
    best_gap: int,
) -> (Seq<char>, int, bool)
    decreases items.len(),
{
    if items.len() == 0 {
        (Seq::<char>::empty(), best_gap, false)
    } else {
        let (best, best_gap, found) = spec_nearest_term_among(items.drop_last(), prefix, marker, best_gap);
        let term = items.last();
        match text::spec_rsplit_once(prefix, term) {
            Some(sides) => {
                let gap: int = spec_byte_length(sides.1);
                if gap <= 3 && (!found || gap <= best_gap) {
                    let best = term + sides.1 + marker;
                    let best_gap: int = gap;
                    let found = true;
                    (best, best_gap, found)
                } else {
                    (best, best_gap, found)
                }
            },
            None => (best, best_gap, found),
        }
    }
}

/// Value of [`nearest_term_expression`].
#[verifier::opaque]
pub open spec fn spec_nearest_term_expression(
    required_terms: Seq<Seq<char>>,
    prefix: Seq<char>,
    marker: Seq<char>,
) -> Option<Seq<char>> {
    let best_gap: int = 0;
    let (best, best_gap, found) = spec_nearest_term_among(required_terms, prefix, marker, best_gap);
    if !found {
        None
    } else {
        Some(best)
    }
}

/// The marker with the nearest required term, at most three bytes before it, and what stands
/// between.
pub fn nearest_term_expression(
    required_terms: &Vec<String>,
    prefix: &str,
    marker: &str,
) -> (r: Option<String>)
    ensures
        contents::view_option(r)
            == spec_nearest_term_expression(contents::views(required_terms@), prefix@, marker@),
{
    proof {
        reveal(spec_nearest_term_expression);
    }
    let mut best: String = String::new();
    let mut best_gap: usize = 0;
    let mut found: bool = false;
    let ghost initial_best_gap = best_gap as int;
    let mut i: usize = 0;
    while i < required_terms.len()
        invariant
            i <= required_terms@.len(),
            (best@, best_gap as int, found) == spec_nearest_term_among(
                contents::views(required_terms@).take(i as int),
                prefix@,
                marker@,
                initial_best_gap,
            ),
        decreases required_terms@.len() - i,
    {
        assert(contents::views(required_terms@).take(i + 1).drop_last()
            =~= contents::views(required_terms@).take(i as int));
        let term: &str = &required_terms[i];
        i = i + 1;
        match text::rsplit_once(prefix, term) {
            Some(sides) => {
                let gap: usize = byte_length(&sides.1);
                if gap <= 3 && (!found || gap <= best_gap) {
                    best = text::concat3(term, &sides.1, marker);
                    best_gap = gap;
                    found = true;
                }
            },
            None => {
            },
        }
    }
    assert(contents::views(required_terms@).take(required_terms@.len() as int)
        =~= contents::views(required_terms@));
    if !found {
        return None;
    }
    Some(best)
}

/// Value of [`limited_expression`].
#[verifier::opaque]
pub open spec fn spec_limited_expression(
    text: Seq<char>,
    marker_start: int,
    marker: Seq<char>,
    required_terms: Seq<Seq<char>>,
) -> Seq<char> {
    match spec_nearest_term_expression(required_terms, text::spec_take(text, marker_start), marker) {
        Some(expression) => expression,
        None => spec_suffix_through_marker(text, marker_start, marker, 14),
    }
}

/// The marker with the required term that it limits, or with the characters before it.
pub fn limited_expression(
    text: &str,
    marker_start: usize,
    marker: &str,
    required_terms: &Vec<String>,
) -> (r: String)
    ensures
        r@
            == spec_limited_expression(
                text@,
                marker_start as int,
                marker@,
                contents::views(required_terms@),
            ),
{
    proof {
        reveal(spec_limited_expression);
    }
    match nearest_term_expression(required_terms, &text::take(text, marker_start), marker) {
        Some(expression) => {
            expression
        },
        None => {
            suffix_through_marker(text, marker_start, marker, 14)
        },
    }
}

/// Value of [`with_expression`].
pub open spec fn spec_with_expression(
    expressions: Seq<Seq<char>>,
    value: Seq<char>,
) -> Seq<Seq<char>> {
    let all_expressions = expressions;
    let trimmed = text::spec_trim(value);
    if trimmed.len() > 0 && !text::spec_list_has_ignoring_case(all_expressions, trimmed) {
        all_expressions.push(trimmed)
    } else {
        all_expressions
    }
}

/// The expressions followed by the value trimmed, unless that is empty or among them.
pub fn with_expression(expressions: &Vec<String>, value: &str) -> (r: Vec<String>)
    ensures
        contents::views(r@) == spec_with_expression(contents::views(expressions@), value@),
{
    let mut all_expressions: Vec<String> = text::copy_list(expressions);
    let trimmed: String = text::trim(value);
    if text::char_count(&trimmed) > 0 && !text::list_has_ignoring_case(&all_expressions, &trimmed) {
        all_expressions.push(trimmed);
    }
    all_expressions
}

/// The state of [`collect_limitations`] after the given items.
pub open spec fn spec_limitations_at(
    items: Seq<int>,
    text: Seq<char>,
    marker: Seq<char>,
    required_terms: Seq<Seq<char>>,
    collected: Seq<Seq<char>>,
) -> Seq<Seq<char>>
    decreases items.len(),
{
    if items.len() == 0 {
        collected
    } else {
        let collected = spec_limitations_at(items.drop_last(), text, marker, required_terms, collected);
        let start = items.last();
        spec_with_expression(
            collected,
            spec_limited_expression(text, start, marker, required_terms),
        )
    }
}

/// The state of [`collect_limitations`] after the given items.
pub open spec fn spec_limitations_by_word(
    items: Seq<&str>,
    text: Seq<char>,
    required_terms: Seq<Seq<char>>,
    collected: Seq<Seq<char>>,
) -> Seq<Seq<char>>
    decreases items.len(),
{
    if items.len() == 0 {
        collected
    } else {
        let collected = spec_limitations_by_word(items.drop_last(), text, required_terms, collected);
        let marker = items.last()@;
        spec_limitations_at(
            text::spec_match_indices(text, marker),
            text,
            marker,
            required_terms,
            collected,
        )
    }
}

/// Value of [`collect_limitations`].
#[verifier::opaque]
pub open spec fn spec_collect_limitations(
    text: Seq<char>,
    required_terms: Seq<Seq<char>>,
    expressions: Seq<Seq<char>>,
) -> Seq<Seq<char>> {
    let collected = expressions;
    spec_limitations_by_word(LIMITATION_WORDS@, text, required_terms, collected)
}

/// The expressions followed by those of limitation in the text.
pub fn collect_limitations(
    text: &str,
    required_terms: &Vec<String>,
    expressions: &Vec<String>,
) -> (r: Vec<String>)
    ensures
        contents::views(r@)
            == spec_collect_limitations(
                text@,
                contents::views(required_terms@),
                contents::views(expressions@),
            ),
{
    proof {
        reveal(spec_collect_limitations);
    }
    let mut collected: Vec<String> = text::copy_list(expressions);
    let ghost initial_collected = contents::views(collected@);
    let mut i: usize = 0;
    while i < LIMITATION_WORDS.len()
        invariant
            i <= LIMITATION_WORDS@.len(),
            contents::views(collected@) == spec_limitations_by_word(
                LIMITATION_WORDS@.take(i as int),
                text@,
                contents::views(required_terms@),
                initial_collected,
            ),
        decreases LIMITATION_WORDS@.len() - i,
    {
        assert(LIMITATION_WORDS@.take(i + 1).drop_last() =~= LIMITATION_WORDS@.take(i as int));
        let marker: &str = LIMITATION_WORDS[i];
        i = i + 1;
        let starts: Vec<usize> = text::match_indices(text, marker);
        let ghost initial_collected_ = contents::views(collected@);
        let mut j: usize = 0;
        while j < starts.len()
            invariant
                j <= starts@.len(),
                contents::views(collected@) == spec_limitations_at(
                    contents::positions(starts@).take(j as int),
                    text@,
                    marker@,
                    contents::views(required_terms@),
                    initial_collected_,
                ),
            decreases starts@.len() - j,
        {
            assert(contents::positions(starts@).take(j + 1).drop_last()
                =~= contents::positions(starts@).take(j as int));
            let start: usize = starts[j];
            j = j + 1;
            collected = with_expression(
                &collected,
                &limited_expression(text, start, marker, required_terms),
            );
        }
        assert(contents::positions(starts@).take(starts@.len() as int)
            =~= contents::positions(starts@));
    }
    assert(LIMITATION_WORDS@.take(LIMITATION_WORDS@.len() as int) =~= LIMITATION_WORDS@);
    collected
}

/// The state of [`collect_prohibitions`] after the given items.
pub open spec fn spec_prohibitions_at(
    items: Seq<int>,
    text: Seq<char>,
    marker: Seq<char>,
    collected: Seq<Seq<char>>,
) -> Seq<Seq<char>>
    decreases items.len(),
{
    if items.len() == 0 {
        collected
    } else {
        let collected = spec_prohibitions_at(items.drop_last(), text, marker, collected);
        let start = items.last();
        spec_with_expression(collected, spec_suffix_through_marker(text, start, marker, 20))
    }
}

/// The state of [`collect_prohibitions`] after the given items.
pub open spec fn spec_prohibitions_by_word(
    items: Seq<&str>,
    text: Seq<char>,
    collected: Seq<Seq<char>>,
) -> Seq<Seq<char>>
    decreases items.len(),
{
    if items.len() == 0 {
        collected
    } else {
        let collected = spec_prohibitions_by_word(items.drop_last(), text, collected);
        let marker = items.last()@;
        spec_prohibitions_at(text::spec_match_indices(text, marker), text, marker, collected)
    }
}

/// Value of [`collect_prohibitions`].
#[verifier::opaque]
pub open spec fn spec_collect_prohibitions(
    text: Seq<char>,
    expressions: Seq<Seq<char>>,
) -> Seq<Seq<char>> {
    let collected = expressions;
    spec_prohibitions_by_word(PROHIBITION_WORDS@, text, collected)
}

/// The expressions followed by those of prohibition in the text.
pub fn collect_prohibitions(text: &str, expressions: &Vec<String>) -> (r: Vec<String>)
    ensures
        contents::views(r@) == spec_collect_prohibitions(text@, contents::views(expressions@)),
{
    proof {
        reveal(spec_collect_prohibitions);
    }
    let mut collected: Vec<String> = text::copy_list(expressions);
    let ghost initial_collected = contents::views(collected@);
    let mut i: usize = 0;
    while i < PROHIBITION_WORDS.len()
        invariant
            i <= PROHIBITION_WORDS@.len(),
            contents::views(collected@) == spec_prohibitions_by_word(
                PROHIBITION_WORDS@.take(i as int),
                text@,
                initial_collected,
            ),
        decreases PROHIBITION_WORDS@.len() - i,
    {
        assert(PROHIBITION_WORDS@.take(i + 1).drop_last() =~= PROHIBITION_WORDS@.take(i as int));
        let marker: &str = PROHIBITION_WORDS[i];
        i = i + 1;
        let starts: Vec<usize> = text::match_indices(text, marker);
        let ghost initial_collected_ = contents::views(collected@);
        let mut j: usize = 0;
        while j < starts.len()
            invariant
                j <= starts@.len(),
                contents::views(collected@) == spec_prohibitions_at(
                    contents::positions(starts@).take(j as int),
                    text@,
                    marker@,
                    initial_collected_,
                ),
            decreases starts@.len() - j,
        {
            assert(contents::positions(starts@).take(j + 1).drop_last()
                =~= contents::positions(starts@).take(j as int));
            let start: usize = starts[j];
            j = j + 1;
            collected = with_expression(&collected, &suffix_through_marker(text, start, marker, 20));
        }
        assert(contents::positions(starts@).take(starts@.len() as int)
            =~= contents::positions(starts@));
    }
    assert(PROHIBITION_WORDS@.take(PROHIBITION_WORDS@.len() as int) =~= PROHIBITION_WORDS@);
    collected
}

/// The condition of [`any_expression_has`]: some expression holds the marker.
#[verifier::opaque]
pub open spec fn spec_any_expression_has(expressions: Seq<Seq<char>>, marker: Seq<char>) -> bool {
    exists|i: int|
        #![trigger expressions[i]] 0 <= i < expressions.len()
        && spec_contains_loosely(expressions[i], marker)
}

/// Whether some expression holds the marker.
pub fn any_expression_has(expressions: &Vec<String>, marker: &str) -> (r: bool)
    ensures
        r == spec_any_expression_has(contents::views(expressions@), marker@),
{
    proof {
        reveal(spec_any_expression_has);
    }
    let mut i: usize = 0;
    while i < expressions.len()
        invariant
            i <= expressions@.len(),
            forall|j: int|
                #![trigger contents::views(expressions@)[j]] 0 <= j < i ==> !(spec_contains_loosely(
                    contents::views(expressions@)[j],
                    marker@,
                )),
        decreases expressions@.len() - i,
    {
        proof {
            reveal(spec_any_expression_has);
        }
        let expression: &str = &expressions[i];
        assert(contents::views(expressions@)[i as int] == expressions@[i as int]@);
        if contains_loosely(expression, marker) {
            return true;
        }
        i = i + 1;
    }
    false
}

/// The state of [`collect_conditions`] after the given items.
pub open spec fn spec_conditions_by_word(
    items: Seq<&str>,
    text: Seq<char>,
    collected: Seq<Seq<char>>,
) -> Seq<Seq<char>>
    decreases items.len(),
{
    if items.len() == 0 {
        collected
    } else {
        let collected = spec_conditions_by_word(items.drop_last(), text, collected);
        let marker = items.last()@;
        if spec_contains_loosely(text, marker) && !spec_any_expression_has(collected, marker) {
            spec_with_expression(collected, marker)
        } else {
            collected
        }
    }
}

/// Value of [`collect_conditions`].
#[verifier::opaque]
pub open spec fn spec_collect_conditions(
    text: Seq<char>,
    expressions: Seq<Seq<char>>,
) -> Seq<Seq<char>> {
    let collected = expressions;
    spec_conditions_by_word(CONDITION_WORDS@, text, collected)
}

/// The expressions followed by the words of condition in the text that none of them holds.
pub fn collect_conditions(text: &str, expressions: &Vec<String>) -> (r: Vec<String>)
    ensures
        contents::views(r@) == spec_collect_conditions(text@, contents::views(expressions@)),
{
    proof {
        reveal(spec_collect_conditions);
    }
    let mut collected: Vec<String> = text::copy_list(expressions);
    let ghost initial_collected = contents::views(collected@);
    let mut i: usize = 0;
    while i < CONDITION_WORDS.len()
        invariant
            i <= CONDITION_WORDS@.len(),
            contents::views(collected@) == spec_conditions_by_word(
                CONDITION_WORDS@.take(i as int),
                text@,
                initial_collected,
            ),
        decreases CONDITION_WORDS@.len() - i,
    {
        assert(CONDITION_WORDS@.take(i + 1).drop_last() =~= CONDITION_WORDS@.take(i as int));
        let marker: &str = CONDITION_WORDS[i];
        i = i + 1;
        if contains_loosely(text, marker) && !any_expression_has(&collected, marker) {
            collected = with_expression(&collected, marker);
        }
    }
    assert(CONDITION_WORDS@.take(CONDITION_WORDS@.len() as int) =~= CONDITION_WORDS@);
    collected
}

/// Value of [`collect_protected_expressions`].
#[verifier::opaque]
pub open spec fn spec_collect_protected_expressions(
    text: Seq<char>,
    required_terms: Seq<Seq<char>>,
    expressions: Seq<Seq<char>>,
) -> Seq<Seq<char>> {
    spec_collect_conditions(
        text,
        spec_collect_prohibitions(text, spec_collect_limitations(text, required_terms, expressions)),
    )
}

/// The expressions followed by those of limitation, prohibition and condition in the text.
pub fn collect_protected_expressions(
    text: &str,
    required_terms: &Vec<String>,
    expressions: &Vec<String>,
) -> (r: Vec<String>)
    ensures
        contents::views(r@)
            == spec_collect_protected_expressions(
                text@,
                contents::views(required_terms@),
                contents::views(expressions@),
            ),
{
    proof {
        reveal(spec_collect_protected_expressions);
    }
    collect_conditions(
        text,
        &collect_prohibitions(text, &collect_limitations(text, required_terms, expressions)),
    )
}

/// The state of [`protected_of_facts`] after the given items.
pub open spec fn spec_protected_among(items: Seq<Fact>) -> Seq<Seq<char>>
    decreases items.len(),
{
    if items.len() == 0 {
        Seq::<Seq<char>>::empty()
    } else {
        let expressions = spec_protected_among(items.drop_last());
        let fact = items.last();
        if fact.role == PromptRole::Constraint {
            spec_collect_protected_expressions(fact.text, fact.required_terms, expressions)
        } else {
            expressions
        }
    }
}

/// Value of [`protected_of_facts`].
#[verifier::opaque]
pub open spec fn spec_protected_of_facts(facts: Seq<Fact>) -> Seq<Seq<char>> {
    spec_protected_among(facts)
}

/// The expressions of limitation, prohibition and condition in the constraints.
pub fn protected_of_facts(facts: &Vec<PromptFact>) -> (r: Vec<String>)
    ensures
        contents::views(r@) == spec_protected_of_facts(fact_views(facts@)),
{
    proof {
        reveal(spec_protected_of_facts);
    }
    let mut expressions: Vec<String> = Vec::new();
    let mut i: usize = 0;
    while i < facts.len()
        invariant
            i <= facts@.len(),
            contents::views(expressions@) == spec_protected_among(fact_views(facts@).take(i as int)),
        decreases facts@.len() - i,
    {
        assert(fact_views(facts@).take(i + 1).drop_last() =~= fact_views(facts@).take(i as int));
        let fact: &PromptFact = &facts[i];
        i = i + 1;
        if fact.role == PromptRole::Constraint {
            expressions = collect_protected_expressions(
                &fact.text,
                &fact.required_terms,
                &expressions,
            );
        }
    }
    assert(fact_views(facts@).take(facts@.len() as int) =~= fact_views(facts@));
    expressions
}

/// Value of [`without_conversation`].
#[verifier::opaque]
pub open spec fn spec_without_conversation(compact: Seq<char>) -> Seq<char> {
    match text::spec_split_once(compact, "ですが、"@) {
        Some(parts) => {
            if matching::spec_contains_any_marker(
                parts.0,
                ["相談", "お願い", "依頼", "共有", "背景", "前にも", "以前"]@,
            )
                && text::spec_trim(parts.1).len() > 0 {
                text::spec_trim(parts.1)
            } else {
                compact
            }
        },
        None => compact,
    }
}

/// What follows a remark about the conversation.
pub fn without_conversation(compact: &str) -> (r: String)
    ensures
        r@ == spec_without_conversation(compact@),
{
    proof {
        reveal(spec_without_conversation);
    }
    match text::split_once(compact, "ですが、") {
        Some(parts) => {
            if matching::contains_any_marker(
                &parts.0,
                &["相談", "お願い", "依頼", "共有", "背景", "前にも", "以前"],
            )
                && text::char_count(&text::trim(&parts.1)) > 0 {
                return text::trim(&parts.1);
            }
            compact.to_owned()
        },
        None => {
            compact.to_owned()
        },
    }
}

/// The state of [`without_softening`] after the given items.
pub open spec fn spec_softening_dropped(items: Seq<&str>, compact: Seq<char>) -> Seq<char>
    decreases items.len(),
{
    if items.len() == 0 {
        compact
    } else {
        let compact = spec_softening_dropped(items.drop_last(), compact);
        let prefix = items.last()@;
        match text::spec_strip_prefix(compact, prefix) {
            Some(rest) => text::spec_trim(rest),
            None => compact,
        }
    }
}

/// Value of [`without_softening`].
pub open spec fn spec_without_softening(text: Seq<char>) -> Seq<char> {
    let compact = text;
    spec_softening_dropped(SOFTENING_PREFIXES@, compact)
}

/// The text without words that soften it, each dropped once in turn.
pub fn without_softening(text: &str) -> (r: String)
    ensures
        r@ == spec_without_softening(text@),
{
    let mut compact: String = text.to_owned();
    let ghost initial_compact = compact@;
    let mut i: usize = 0;
    while i < SOFTENING_PREFIXES.len()
        invariant
            i <= SOFTENING_PREFIXES@.len(),
            compact@ == spec_softening_dropped(SOFTENING_PREFIXES@.take(i as int), initial_compact),
        decreases SOFTENING_PREFIXES@.len() - i,
    {
        assert(SOFTENING_PREFIXES@.take(i + 1).drop_last() =~= SOFTENING_PREFIXES@.take(i as int));
        let prefix: &str = SOFTENING_PREFIXES[i];
        i = i + 1;
        match text::strip_prefix(&compact, prefix) {
            Some(rest) => {
                compact = text::trim(&rest);
            },
            None => {
            },
        }
    }
    assert(SOFTENING_PREFIXES@.take(SOFTENING_PREFIXES@.len() as int) =~= SOFTENING_PREFIXES@);
    compact
}

/// What [`without_request_ending`] comes to from position `i` of the items on.
pub open spec fn spec_ending_dropped(items: Seq<&str>, i: int, text: Seq<char>) -> Seq<char>
    decreases items.len() - i,
{
    if i >= items.len() {
        text
    } else {
        let suffix = items[i]@;
        match text::spec_strip_suffix(text, suffix) {
            Some(stem) => text::spec_trim(stem),
            None => spec_ending_dropped(items, i + 1, text),
        }
    }
}

/// Value of [`without_request_ending`].
pub open spec fn spec_without_request_ending(text: Seq<char>) -> Seq<char> {
    spec_ending_dropped(REQUEST_SUFFIXES@, 0, text)
}

/// The text without the first of the endings of a request that it has.
pub fn without_request_ending(text: &str) -> (r: String)
    ensures
        r@ == spec_without_request_ending(text@),
{
    let ghost goal = spec_ending_dropped(REQUEST_SUFFIXES@, 0, text@);
    let mut i: usize = 0;
    while i < REQUEST_SUFFIXES.len()
        invariant
            i <= REQUEST_SUFFIXES@.len(),
            goal == spec_ending_dropped(REQUEST_SUFFIXES@, i as int, text@),
            goal == spec_without_request_ending(text@),
        decreases REQUEST_SUFFIXES@.len() - i,
    {
        let suffix: &str = REQUEST_SUFFIXES[i];
        i = i + 1;
        match text::strip_suffix(text, suffix) {
            Some(stem) => {
                return text::trim(&stem);
            },
            None => {
            },
        }
    }
    text.to_owned()
}

/// Value of [`compact_surface_text`].
#[verifier::opaque]
pub open spec fn spec_compact_surface_text(text: Seq<char>) -> Seq<char> {
    let shortened = text::spec_replace_all(
        text::spec_join(text::spec_words(text), " "@),
        SURFACE_SHORT_FORMS@,
    );
    let focused = spec_without_conversation(
        text::spec_trim(text::spec_trim_start_text(shortened, "えっと"@)),
    );
    spec_without_request_ending(spec_without_softening(focused))
}

/// The short form of a clause.
pub fn compact_surface_text(text: &str) -> (r: String)
    ensures
        r@ == spec_compact_surface_text(text@),
{
    proof {
        reveal(spec_compact_surface_text);
    }
    let shortened: String = text::replace_all(
        &text::join(&text::words(text), " "),
        &SURFACE_SHORT_FORMS,
    );
    let focused: String = without_conversation(
        &text::trim(&text::trim_start_text(&shortened, "えっと")),
    );
    without_request_ending(&without_softening(&focused))
}

/// The condition of [`any_task_fact`]: some fact asks for something.
pub open spec fn spec_any_task_fact(facts: Seq<Fact>) -> bool {
    exists|i: int|
        #![trigger facts[i]] 0 <= i < facts.len()
        && (facts[i].role == PromptRole::Request
            || facts[i].role == PromptRole::Constraint
            || facts[i].role == PromptRole::Verification)
}

/// Whether some fact asks for something.
pub fn any_task_fact(facts: &Vec<PromptFact>) -> (r: bool)
    ensures
        r == spec_any_task_fact(fact_views(facts@)),
{
    let mut i: usize = 0;
    while i < facts.len()
        invariant
            i <= facts@.len(),
            forall|j: int|
                #![trigger fact_views(facts@)[j]] 0 <= j < i ==> !((fact_views(facts@)[j].role
                    == PromptRole::Request
                    || fact_views(facts@)[j].role == PromptRole::Constraint
                    || fact_views(facts@)[j].role == PromptRole::Verification)),
        decreases facts@.len() - i,
    {
        let fact: &PromptFact = &facts[i];
        assert(fact_views(facts@)[i as int] == facts@[i as int]@);
        if fact.role == PromptRole::Request
            || fact.role == PromptRole::Constraint
            || fact.role == PromptRole::Verification {
            return true;
        }
        i = i + 1;
    }
    false
}

/// The condition of [`is_idle_context`]: the fact is background without a required term.
#[verifier::opaque]
pub open spec fn spec_is_idle_context(fact: Fact) -> bool {
    fact.role == PromptRole::Context
        && fact.required_terms.len() == 0
        && spec_is_redundant_context(fact.text)
}

/// Whether the fact is background without a required term.
pub fn is_idle_context(fact: &PromptFact) -> (r: bool)
    ensures
        r == spec_is_idle_context(fact@),
{
    proof {
        reveal(spec_is_idle_context);
    }
    fact.role == PromptRole::Context
        && fact.required_terms.len() == 0
        && is_redundant_context(&fact.text)
}

/// The state of [`compacted_facts`] after the given items.
pub open spec fn spec_facts_compacted(items: Seq<Fact>) -> Seq<Seq<char>>
    decreases items.len(),
{
    if items.len() == 0 {
        Seq::<Seq<char>>::empty()
    } else {
        let compacted = spec_facts_compacted(items.drop_last());
        let fact = items.last();
        let short = spec_compact_surface_text(fact.text);
        if !spec_is_idle_context(fact)
            && short.len() > 0
            && !text::spec_list_has_ignoring_case(compacted, short) {
            compacted.push(short)
        } else {
            compacted
        }
    }
}

/// Value of [`compacted_facts`].
#[verifier::opaque]
pub open spec fn spec_compacted_facts(facts: Seq<Fact>) -> Seq<Seq<char>> {
    spec_facts_compacted(facts)
}

/// The short forms of the facts, each once.
pub fn compacted_facts(facts: &Vec<PromptFact>) -> (r: Vec<String>)
    ensures
        contents::views(r@) == spec_compacted_facts(fact_views(facts@)),
{
    proof {
        reveal(spec_compacted_facts);
    }
    let mut compacted: Vec<String> = Vec::new();
    let mut i: usize = 0;
    while i < facts.len()
        invariant
            i <= facts@.len(),
            contents::views(compacted@) == spec_facts_compacted(fact_views(facts@).take(i as int)),
        decreases facts@.len() - i,
    {
        assert(fact_views(facts@).take(i + 1).drop_last() =~= fact_views(facts@).take(i as int));
        let fact: &PromptFact = &facts[i];
        i = i + 1;
        let short: String = compact_surface_text(&fact.text);
        if !is_idle_context(fact)
            && text::char_count(&short) > 0
            && !text::list_has_ignoring_case(&compacted, &short) {
            compacted.push(short);
        }
    }
    assert(fact_views(facts@).take(facts@.len() as int) =~= fact_views(facts@));
    compacted
}

/// Value of [`candidate_of_facts`].
#[verifier::opaque]
pub open spec fn spec_candidate_of_facts(facts: Seq<Fact>) -> Option<Seq<char>> {
    if !spec_any_task_fact(facts) {
        None
    } else {
        let candidate = text::spec_join(spec_compacted_facts(facts), "。"@);
        if candidate.len() == 0 {
            None
        } else {
            Some(candidate)
        }
    }
}

/// The short form of a request made of the short forms of its facts, where some of them asks for
/// something.
pub fn candidate_of_facts(facts: &Vec<PromptFact>) -> (r: Option<String>)
    ensures
        contents::view_option(r) == spec_candidate_of_facts(fact_views(facts@)),
{
    proof {
        reveal(spec_candidate_of_facts);
    }
    if !any_task_fact(facts) {
        return None;
    }
    let candidate: String = text::join(&compacted_facts(facts), "。");
    if text::char_count(&candidate) == 0 {
        return None;
    }
    Some(candidate)
}

/// A request as a list of facts.
#[derive(Debug, Clone, PartialEq, Eq)]
pub struct PromptStructure {
    pub facts: Vec<PromptFact>,
}

impl PromptStructure {
    /// Takes a request apart into facts, each with those of the given terms that it holds.
    pub fn analyze(input: &str, required_terms: &Vec<String>) -> (r: PromptStructure)
        ensures
            fact_views(r.facts@) == spec_analyzed_facts(
                input@,
                contents::views(required_terms@),
            ),
    {
        PromptStructure { facts: analyzed_facts(input, required_terms) }
    }

    /// The lines that present the facts to a model.
    pub fn render_for_model(&self) -> (r: String)
        ensures
            r@ == text::spec_join(spec_rendered_facts(fact_views(self.facts@)), "\n"@),
    {
        text::join(&rendered_facts(&self.facts), "\n")
    }

    /// The expressions of limitation, prohibition and condition that a shorter version has to
    /// hold.
    pub fn protected_expressions(&self) -> (r: Vec<String>)
        ensures
            contents::views(r@) == spec_protected_of_facts(fact_views(self.facts@)),
    {
        protected_of_facts(&self.facts)
    }

    /// A short form of the request made of its facts alone; nothing where it asks for nothing.
    pub fn compact_candidate(&self) -> (r: Option<String>)
        ensures
            contents::view_option(r) == spec_candidate_of_facts(fact_views(self.facts@)),
    {
        candidate_of_facts(&self.facts)
    }
}

/// A word that forbids, limits, keeps or conditions something.
pub open spec fn is_word_of_constraint(word: Seq<char>) -> bool {
    ||| word == "避け"@
    ||| word == "禁止"@
    ||| word == "しない"@
    ||| word == "できない"@
    ||| word == "不要"@
    ||| word == "ではなく"@
    ||| word == "でなく"@
    ||| word == "行わない"@
    ||| word == "読み込まず"@
    ||| word == "読まない"@
    ||| word == "下げない"@
    ||| word == "廃止"@
    ||| word == "変えず"@
    ||| word == "入れない"@
    ||| word == "影響させない"@
    ||| word == "削除しない"@
    ||| word == "消えない"@
    ||| word == "消さない"@
    ||| word == "変更不可"@
    ||| word == "実通信しない"@
    ||| word == "送信しない"@
    ||| word == "二重作成しない"@
    ||| word == "再接続しない"@
    ||| word == "再試行しない"@
    ||| word == "超えたら"@
    ||| word == "再推論せず"@
    ||| word == "戻さない"@
    ||| word == "参照しない"@
    ||| word == "混ぜない"@
    ||| word == "のみ"@
    ||| word == "だけ"@
    ||| word == "必ず"@
    ||| word == "維持"@
    ||| word == "残す"@
    ||| word == "テスト"@
    ||| word == "確認できる"@
    ||| word == "確認したい"@
    ||| word == "場合"@
    ||| word == "なら"@
    ||| word == "ときは"@
    ||| word == "時は"@
    ||| word == "際は"@
    ||| word == "失敗時"@
    ||| word == "成功時"@
    ||| word == "変えない"@
    ||| word == "変更せず"@
    ||| word == "変更しない"@
    ||| word == "改変せず"@
    ||| word == "増やさない"@
    ||| word == "せず"@
    ||| word == "must"@
    ||| word == "must not"@
    ||| word == "do not"@
    ||| word == "don't"@
    ||| word == "avoid"@
    ||| word == "only"@
    ||| word == "without"@
    ||| word == "preserve"@
    ||| word == "keep"@
}

/// A clause that holds a word of constraint, in whatever case, states a constraint.
pub proof fn constraint_words_make_constraints(clause: Seq<char>, word: Seq<char>)
    requires
        is_word_of_constraint(word),
        parts::holds_in_some_case(clause, word),
    ensures
        spec_is_constraint_clause(clause),
{
    reveal(spec_is_constraint_clause);
    let words = STRUCTURE_CONSTRAINT_MARKERS@;
    assert(words[0]@ == "避け"@);
    assert(words[1]@ == "禁止"@);
    assert(words[2]@ == "しない"@);
    assert(words[3]@ == "できない"@);
    assert(words[4]@ == "不要"@);
    assert(words[5]@ == "ではなく"@);
    assert(words[6]@ == "でなく"@);
    assert(words[7]@ == "行わない"@);
    assert(words[8]@ == "読み込まず"@);
    assert(words[9]@ == "読まない"@);
    assert(words[10]@ == "下げない"@);
    assert(words[11]@ == "廃止"@);
    assert(words[12]@ == "変えず"@);
    assert(words[13]@ == "入れない"@);
    assert(words[14]@ == "影響させない"@);
    assert(words[15]@ == "削除しない"@);
    assert(words[16]@ == "消えない"@);
    assert(words[17]@ == "消さない"@);
    assert(words[18]@ == "変更不可"@);
    assert(words[19]@ == "実通信しない"@);
    assert(words[20]@ == "送信しない"@);
    assert(words[21]@ == "二重作成しない"@);
    assert(words[22]@ == "再接続しない"@);
    assert(words[23]@ == "再試行しない"@);
    assert(words[24]@ == "超えたら"@);
    assert(words[25]@ == "再推論せず"@);
    assert(words[26]@ == "戻さない"@);
    assert(words[27]@ == "参照しない"@);
    assert(words[28]@ == "混ぜない"@);
    assert(words[29]@ == "のみ"@);
    assert(words[30]@ == "だけ"@);
    assert(words[31]@ == "必ず"@);
    assert(words[32]@ == "維持"@);
    assert(words[33]@ == "残す"@);
    assert(words[34]@ == "テスト"@);
    assert(words[35]@ == "確認できる"@);
    assert(words[36]@ == "確認したい"@);
    assert(words[37]@ == "場合"@);
    assert(words[38]@ == "なら"@);
    assert(words[39]@ == "ときは"@);
    assert(words[40]@ == "時は"@);
    assert(words[41]@ == "際は"@);
    assert(words[42]@ == "失敗時"@);
    assert(words[43]@ == "成功時"@);
    assert(words[44]@ == "変えない"@);
    assert(words[45]@ == "変更せず"@);
    assert(words[46]@ == "変更しない"@);
    assert(words[47]@ == "改変せず"@);
    assert(words[48]@ == "増やさない"@);
    assert(words[49]@ == "せず"@);
    assert(words[50]@ == "must"@);
    assert(words[51]@ == "must not"@);
    assert(words[52]@ == "do not"@);
    assert(words[53]@ == "don't"@);
    assert(words[54]@ == "avoid"@);
    assert(words[55]@ == "only"@);
    assert(words[56]@ == "without"@);
    assert(words[57]@ == "preserve"@);
    assert(words[58]@ == "keep"@);
    let k = choose|k: int| 0 <= k < words.len() && #[trigger] words[k]@ == word;
    matching::markers_are_found_in_some_case(clause, words);
    assert(parts::holds_in_some_case(clause, words[k]@));
}

/// A word that asks for something.
pub open spec fn is_word_of_request(word: Seq<char>) -> bool {
    ||| word == "修正"@
    ||| word == "追加"@
    ||| word == "を実装"@
    ||| word == "実装して"@
    ||| word == "実装する"@
    ||| word == "実装を"@
    ||| word == "作成"@
    ||| word == "更新"@
    ||| word == "調査"@
    ||| word == "整理"@
    ||| word == "提案"@
    ||| word == "検証"@
    ||| word == "確認"@
    ||| word == "返却"@
    ||| word == "コピー"@
    ||| word == "保持"@
    ||| word == "維持"@
    ||| word == "直して"@
    ||| word == "直したい"@
    ||| word == "してほしい"@
    ||| word == "したい"@
    ||| word == "対応して"@
    ||| word == "使って"@
    ||| word == "使用して"@
    ||| word == "用いて"@
}

/// A clause that holds a word of request, in whatever case, asks for something.
pub proof fn request_words_make_requests(clause: Seq<char>, word: Seq<char>)
    requires
        is_word_of_request(word),
        parts::holds_in_some_case(clause, word),
    ensures
        spec_is_request_clause(clause),
{
    reveal(spec_is_request_clause);
    let words = REQUEST_MARKERS@;
    assert(words[0]@ == "修正"@);
    assert(words[1]@ == "追加"@);
    assert(words[2]@ == "を実装"@);
    assert(words[3]@ == "実装して"@);
    assert(words[4]@ == "実装する"@);
    assert(words[5]@ == "実装を"@);
    assert(words[6]@ == "作成"@);
    assert(words[7]@ == "更新"@);
    assert(words[8]@ == "調査"@);
    assert(words[9]@ == "整理"@);
    assert(words[10]@ == "提案"@);
    assert(words[11]@ == "検証"@);
    assert(words[12]@ == "確認"@);
    assert(words[13]@ == "返却"@);
    assert(words[14]@ == "コピー"@);
    assert(words[15]@ == "保持"@);
    assert(words[16]@ == "維持"@);
    assert(words[17]@ == "直して"@);
    assert(words[18]@ == "直したい"@);
    assert(words[19]@ == "してほしい"@);
    assert(words[20]@ == "したい"@);
    assert(words[21]@ == "対応して"@);
    assert(words[22]@ == "使って"@);
    assert(words[23]@ == "使用して"@);
    assert(words[24]@ == "用いて"@);
    let k = choose|k: int| 0 <= k < words.len() && #[trigger] words[k]@ == word;
    matching::markers_are_found_in_some_case(clause, words);
    assert(parts::holds_in_some_case(clause, words[k]@));
}

/// A word that describes the present state.
pub open spec fn is_word_of_state(word: Seq<char>) -> bool {
    ||| word == "今の実装"@
    ||| word == "現在"@
    ||| word == "現状"@
    ||| word == "今は"@
    ||| word == "いまは"@
    ||| word == "発生"@
    ||| word == "起きて"@
    ||| word == "なって"@
    ||| word == "してしま"@
    ||| word == "できない"@
    ||| word == "届かない"@
    ||| word == "重い"@
    ||| word == "遅い"@
    ||| word == "不便"@
    ||| word == "問題"@
    ||| word == "困って"@
    ||| word == "言われて"@
}

/// A clause that holds a word of the present state, in whatever case, describes it.
pub proof fn state_words_make_states(clause: Seq<char>, word: Seq<char>)
    requires
        is_word_of_state(word),
        parts::holds_in_some_case(clause, word),
    ensures
        spec_is_current_state_clause(clause),
{
    reveal(spec_is_current_state_clause);
    let words = CURRENT_STATE_MARKERS@;
    assert(words[0]@ == "今の実装"@);
    assert(words[1]@ == "現在"@);
    assert(words[2]@ == "現状"@);
    assert(words[3]@ == "今は"@);
    assert(words[4]@ == "いまは"@);
    assert(words[5]@ == "発生"@);
    assert(words[6]@ == "起きて"@);
    assert(words[7]@ == "なって"@);
    assert(words[8]@ == "してしま"@);
    assert(words[9]@ == "できない"@);
    assert(words[10]@ == "届かない"@);
    assert(words[11]@ == "重い"@);
    assert(words[12]@ == "遅い"@);
    assert(words[13]@ == "不便"@);
    assert(words[14]@ == "問題"@);
    assert(words[15]@ == "困って"@);
    assert(words[16]@ == "言われて"@);
    let k = choose|k: int| 0 <= k < words.len() && #[trigger] words[k]@ == word;
    matching::markers_are_found_in_some_case(clause, words);
    assert(parts::holds_in_some_case(clause, words[k]@));
}

/// The facts that were there stay when those of items follow.
proof fn earlier_facts_stay(
    items: Seq<Seq<char>>,
    required_terms: Seq<Seq<char>>,
    facts: Seq<Fact>,
    fact: Fact,
)
    requires
        facts.contains(fact),
    ensures
        spec_facts_of_items(items, required_terms, facts).contains(fact),
    decreases items.len(),
{
    if items.len() > 0 {
        let fewer = items.drop_last();
        earlier_facts_stay(fewer, required_terms, facts, fact);
        parts::pushed_item(
            spec_facts_of_items(fewer, required_terms, facts),
            spec_constraint_fact(items.last(), required_terms),
            fact,
        );
    }
}

/// Each item has its fact.
proof fn items_have_facts(
    items: Seq<Seq<char>>,
    required_terms: Seq<Seq<char>>,
    facts: Seq<Fact>,
    n: int,
)
    requires
        0 <= n < items.len(),
    ensures
        spec_facts_of_items(items, required_terms, facts).contains(
            spec_constraint_fact(items[n], required_terms),
        ),
    decreases items.len(),
{
    let fewer = items.drop_last();
    let before = spec_facts_of_items(fewer, required_terms, facts);
    let fact = spec_constraint_fact(items[n], required_terms);
    parts::pushed_item(before, spec_constraint_fact(items.last(), required_terms), fact);
    if n < items.len() - 1 {
        assert(fewer[n] == items[n]);
        items_have_facts(fewer, required_terms, facts, n);
    }
}

/// Each clause that is kept has its facts.
proof fn kept_clauses_have_facts(
    items: Seq<Seq<char>>,
    required_terms: Seq<Seq<char>>,
    has_actionable_clause: bool,
    non_current_text: Seq<char>,
    k: int,
    n: int,
)
    requires
        0 <= k < items.len(),
        !spec_is_redundant_context(items[k]) || spec_any_term_in(required_terms, items[k]),
    ensures
        ({
            let facts = spec_facts_of_clauses(
                items,
                required_terms,
                has_actionable_clause,
                non_current_text,
            );
            &&& spec_is_constraint_clause(items[k]) && 0 <= n < spec_atomic_constraint_items(
                items[k],
            ).len() ==> facts.contains(
                spec_constraint_fact(spec_atomic_constraint_items(items[k])[n], required_terms),
            )
            &&& !spec_is_constraint_clause(items[k]) && !spec_is_superfluous_state(
                items[k],
                required_terms,
                has_actionable_clause,
                non_current_text,
            ) ==> facts.contains(spec_clause_fact(items[k], required_terms))
        }),
    decreases items.len(),
{
    let fewer = items.drop_last();
    let last = items.last();
    let before = spec_facts_of_clauses(
        fewer,
        required_terms,
        has_actionable_clause,
        non_current_text,
    );
    let wanted = if spec_is_constraint_clause(items[k]) {
        spec_constraint_fact(spec_atomic_constraint_items(items[k])[n], required_terms)
    } else {
        spec_clause_fact(items[k], required_terms)
    };
    parts::pushed_item(before, spec_clause_fact(last, required_terms), wanted);
    if k < items.len() - 1 {
        assert(fewer[k] == items[k]);
        kept_clauses_have_facts(
            fewer,
            required_terms,
            has_actionable_clause,
            non_current_text,
            k,
            n,
        );
        if before.contains(wanted) {
            earlier_facts_stay(
                spec_atomic_constraint_items(last),
                required_terms,
                before,
                wanted,
            );
        }
    } else if spec_is_constraint_clause(last) && 0 <= n < spec_atomic_constraint_items(last).len() {
        items_have_facts(spec_atomic_constraint_items(last), required_terms, before, n);
    }
}

/// The fact is listed with the trimmed text and those of the required terms that the text holds.
pub open spec fn is_presented(
    facts: Seq<Fact>,
    text: Seq<char>,
    required_terms: Seq<Seq<char>>,
    role: PromptRole,
) -> bool {
    exists|i: int|
        0 <= i < facts.len() && (#[trigger] facts[i]).text == text::spec_trim(text)
            && facts[i].role == role && facts[i].required_terms == spec_terms_in(
            required_terms,
            text,
        )
}

/// Each item of a clause that states a constraint is presented as a constraint, or as something to
/// verify, unless the clause is background without a required term.
pub proof fn constraints_are_presented(
    input: Seq<char>,
    required_terms: Seq<Seq<char>>,
    k: int,
    n: int,
)
    requires
        0 <= k < clauses::spec_input_clauses(input).len(),
        spec_is_constraint_clause(clauses::spec_input_clauses(input)[k]),
        !spec_is_redundant_context(clauses::spec_input_clauses(input)[k]) || spec_any_term_in(
            required_terms,
            clauses::spec_input_clauses(input)[k],
        ),
        0 <= n < spec_atomic_constraint_items(clauses::spec_input_clauses(input)[k]).len(),
    ensures
        is_presented(
            spec_analyzed_facts(input, required_terms),
            spec_atomic_constraint_items(clauses::spec_input_clauses(input)[k])[n],
            required_terms,
            if spec_is_verification_prompt_clause(
                spec_atomic_constraint_items(clauses::spec_input_clauses(input)[k])[n],
            ) {
                PromptRole::Verification
            } else {
                PromptRole::Constraint
            },
        ),
{
    reveal(spec_analyzed_facts);
    reveal(spec_constraint_fact);
    let clauses = clauses::spec_input_clauses(input);
    let item = spec_atomic_constraint_items(clauses[k])[n];
    kept_clauses_have_facts(
        clauses,
        required_terms,
        spec_any_actionable_clause(clauses),
        text::spec_join(spec_non_current_clauses(clauses), "\n"@),
        k,
        n,
    );
    let facts = spec_analyzed_facts(input, required_terms);
    let fact = spec_constraint_fact(item, required_terms);
    let i = choose|i: int| 0 <= i < facts.len() && facts[i] == fact;
    assert(facts[i].text == text::spec_trim(item));
}

/// The items of a clause make it up: the clause itself, or the parts that it lists, none of which is
/// blank.
pub proof fn clauses_are_made_of_their_items(clause: Seq<char>)
    ensures
        spec_atomic_constraint_items(clause) == seq![clause] || spec_atomic_constraint_items(clause)
            == text::spec_segments(clause, "、,"@),
        spec_atomic_constraint_items(clause).len() > 0,
{
    reveal(spec_atomic_constraint_items);
    assert(Seq::<Seq<char>>::empty().push(clause) =~= seq![clause]);
}

/// A clause that asks for something, and neither states a constraint nor describes the present state,
/// is presented, unless it is background without a required term.
pub proof fn requests_are_presented(input: Seq<char>, required_terms: Seq<Seq<char>>, k: int)
    requires
        0 <= k < clauses::spec_input_clauses(input).len(),
        !spec_is_constraint_clause(clauses::spec_input_clauses(input)[k]),
        !spec_is_current_state_clause(clauses::spec_input_clauses(input)[k])
            || spec_is_transition_clause(clauses::spec_input_clauses(input)[k]),
        !spec_is_redundant_context(clauses::spec_input_clauses(input)[k]) || spec_any_term_in(
            required_terms,
            clauses::spec_input_clauses(input)[k],
        ),
    ensures
        is_presented(
            spec_analyzed_facts(input, required_terms),
            clauses::spec_input_clauses(input)[k],
            required_terms,
            spec_clause_role(clauses::spec_input_clauses(input)[k], required_terms),
        ),
{
    reveal(spec_analyzed_facts);
    reveal(spec_is_superfluous_state);
    reveal(spec_clause_fact);
    let clauses = clauses::spec_input_clauses(input);
    kept_clauses_have_facts(
        clauses,
        required_terms,
        spec_any_actionable_clause(clauses),
        text::spec_join(spec_non_current_clauses(clauses), "\n"@),
        k,
        0,
    );
    let facts = spec_analyzed_facts(input, required_terms);
    let fact = spec_clause_fact(clauses[k], required_terms);
    let i = choose|i: int| 0 <= i < facts.len() && facts[i] == fact;
    assert(facts[i].text == text::spec_trim(clauses[k]));
}

/// A clause that leads from the present state to what is asked for is a request; one that describes
/// the present state alone is none; one that asks for something, without a test to make, is one.
pub proof fn clauses_play_their_parts(clause: Seq<char>, required_terms: Seq<Seq<char>>)
    ensures
        spec_is_transition_clause(clause) ==> spec_clause_role(clause, required_terms)
            == PromptRole::Request && spec_clause_label(clause, required_terms) == "現状→要求"@,
        spec_is_current_state_clause(clause) && !spec_is_transition_clause(clause)
            ==> spec_clause_role(clause, required_terms) == PromptRole::CurrentState
            && spec_clause_label(clause, required_terms) == "現状"@,
        !spec_is_current_state_clause(clause) && spec_is_verification_prompt_clause(clause)
            ==> spec_clause_role(clause, required_terms) == PromptRole::Verification
            && spec_clause_label(clause, required_terms) == "検証"@,
        !spec_is_current_state_clause(clause) && !spec_is_verification_prompt_clause(clause)
            && spec_is_request_clause(clause) ==> spec_clause_role(clause, required_terms)
            == PromptRole::Request && spec_clause_label(clause, required_terms) == "要求"@,
{
    reveal(spec_clause_role);
    reveal(spec_clause_label);
    reveal(spec_is_transition_clause);
}

/// The label of a constraint tells whether it limits, conditions, forbids or keeps something.
pub proof fn labels_tell_kinds_of_constraint(clause: Seq<char>)
    ensures
        parts::holds_in_some_case(clause, "だけ"@) || parts::holds_in_some_case(clause, "のみ"@)
            || parts::holds_in_some_case(clause, "only"@) ==> text::spec_contains(
            spec_constraint_label(clause),
            "限定"@,
        ),
        parts::holds_in_some_case(clause, "場合"@) || parts::holds_in_some_case(clause, "なら"@)
            ==> text::spec_contains(spec_constraint_label(clause), "条件対応"@),
        parts::holds_in_some_case(clause, "しない"@) || parts::holds_in_some_case(clause, "せず"@)
            || parts::holds_in_some_case(clause, "禁止"@) || parts::holds_in_some_case(
            clause,
            "避け"@,
        ) || parts::holds_in_some_case(clause, "must not"@) || parts::holds_in_some_case(
            clause,
            "do not"@,
        ) || parts::holds_in_some_case(clause, "without"@) ==> text::spec_contains(
            spec_constraint_label(clause),
            "禁止"@,
        ),
        parts::holds_in_some_case(clause, "維持"@) || parts::holds_in_some_case(clause, "保持"@)
            || parts::holds_in_some_case(clause, "keep"@) || parts::holds_in_some_case(
            clause,
            "preserve"@,
        ) ==> text::spec_contains(spec_constraint_label(clause), "維持"@),
{
    reveal(spec_constraint_label);
    reveal(spec_constraint_kinds);
    let limits = ["だけ", "のみ", "only"]@;
    let keeps = ["維持", "保持", "残す", "復元", "keep", "preserve"]@;
    matching::markers_are_found_in_some_case(clause, limits);
    matching::markers_are_found_in_some_case(clause, CONDITION_LABEL_MARKERS@);
    matching::markers_are_found_in_some_case(clause, PROHIBITION_LABEL_MARKERS@);
    matching::markers_are_found_in_some_case(clause, keeps);
    assert(limits[0]@ == "だけ"@ && limits[1]@ == "のみ"@ && limits[2]@ == "only"@);
    assert(CONDITION_LABEL_MARKERS@[0]@ == "場合"@ && CONDITION_LABEL_MARKERS@[1]@ == "なら"@);
    assert(PROHIBITION_LABEL_MARKERS@[0]@ == "しない"@ && PROHIBITION_LABEL_MARKERS@[1]@ == "せず"@
        && PROHIBITION_LABEL_MARKERS@[2]@ == "禁止"@ && PROHIBITION_LABEL_MARKERS@[3]@ == "避け"@
        && PROHIBITION_LABEL_MARKERS@[10]@ == "must not"@ && PROHIBITION_LABEL_MARKERS@[11]@
        == "do not"@ && PROHIBITION_LABEL_MARKERS@[12]@ == "without"@);
    assert(keeps[0]@ == "維持"@ && keeps[1]@ == "保持"@ && keeps[4]@ == "keep"@ && keeps[5]@
        == "preserve"@);
    let kinds = spec_constraint_kinds(clause);
    let nothing = Seq::<char>::empty();
    let heading = "制約:"@;
    assert forall|k: int| 0 <= k < kinds.len() implies text::spec_contains(
        spec_constraint_label(clause),
        #[trigger] kinds[k],
    ) by {
        parts::joined_texts_are_held(kinds, "+"@, k);
        let joined = text::spec_join(kinds, "+"@);
        parts::held_by_the_whole(heading, joined, nothing, kinds[k]);
        assert(heading + joined + nothing =~= heading + joined);
    }
    let none = Seq::<Seq<char>>::empty();
    let first = if matching::spec_contains_any_marker(clause, limits) {
        none.push("限定"@)
    } else {
        none
    };
    let second = if matching::spec_contains_any_marker(clause, CONDITION_LABEL_MARKERS@) {
        first.push("条件対応"@)
    } else {
        first
    };
    let third = if matching::spec_contains_any_marker(clause, PROHIBITION_LABEL_MARKERS@) {
        second.push("禁止"@)
    } else {
        second
    };
    if matching::spec_contains_any_marker(clause, limits) {
        assert(kinds[0] == "限定"@);
    }
    if matching::spec_contains_any_marker(clause, CONDITION_LABEL_MARKERS@) {
        assert(kinds[first.len() as int] == "条件対応"@);
    }
    if matching::spec_contains_any_marker(clause, PROHIBITION_LABEL_MARKERS@) {
        assert(kinds[second.len() as int] == "禁止"@);
    }
    if matching::spec_contains_any_marker(clause, keeps) {
        assert(kinds[third.len() as int] == "維持"@);
    }
}

/// A fact has those of the required terms that its text holds, in whatever case.
pub proof fn facts_have_the_terms_of_their_text(
    required_terms: Seq<Seq<char>>,
    text: Seq<char>,
    term: Seq<char>,
)
    ensures
        spec_terms_in(required_terms, text).contains(term) <==> required_terms.contains(term)
            && parts::holds_in_some_case(text, term),
{
    reveal(spec_terms_in);
    parts::held_in_lower_case(text, term);
    parts::kept_items_were_listed(
        required_terms,
        |term: Seq<char>| spec_contains_loosely(text, term),
        term,
    );
}

/// A trimmed text that ends with a marker still holds it.
proof fn trimmed_texts_hold_their_end(before: Seq<char>, marker: Seq<char>)
    requires
        marker.len() > 0,
        !text::spec_is_whitespace(marker[0]),
        !text::spec_is_whitespace(marker.last()),
    ensures
        text::spec_contains(text::spec_trim(before + marker), marker),
    decreases before.len(),
{
    let whole = before + marker;
    let nothing = Seq::<char>::empty();
    assert(whole.last() == marker.last());
    if before.len() > 0 && text::spec_is_whitespace(whole[0]) {
        trimmed_texts_hold_their_end(before.drop_first(), marker);
        assert(whole.drop_first() =~= before.drop_first() + marker);
    } else {
        assert(text::spec_trim_start(whole) == whole) by {
            if before.len() == 0 {
                assert(whole[0] == marker[0]);
            }
        }
        assert(text::spec_trim(whole) == whole);
        parts::parts_are_held(before, marker, nothing);
        assert(before + marker + nothing =~= whole);
    }
}

/// A text that ends with a marker still does when marks at its start are dropped, where the marker
/// begins with none of these.
proof fn start_trimmed_text_keeps_its_end(
    before: Seq<char>,
    marker: Seq<char>,
    set: Seq<char>,
) -> (rest: Seq<char>)
    requires
        marker.len() > 0,
        !set.contains(marker[0]),
    ensures
        text::spec_trim_start_any(before + marker, set) == rest + marker,
    decreases before.len(),
{
    let whole = before + marker;
    if before.len() == 0 {
        assert(whole =~= marker);
        assert(whole.first() == marker[0]);
        before
    } else if set.contains(whole.first()) {
        assert(whole.drop_first() =~= before.drop_first() + marker);
        start_trimmed_text_keeps_its_end(before.drop_first(), marker, set)
    } else {
        before
    }
}

/// The word can end an expression: it neither begins nor ends with white space or a mark.
spec fn can_end_expression(marker: Seq<char>) -> bool {
    &&& marker.len() > 0
    &&& !text::spec_is_whitespace(marker[0])
    &&& !text::spec_is_whitespace(marker.last())
    &&& !"。、,，;； \t\n"@.contains(marker[0])
}

/// An expression that is added is held, and what was held stays.
proof fn added_expressions_are_held(
    expressions: Seq<Seq<char>>,
    value: Seq<char>,
    marker: Seq<char>,
)
    ensures
        spec_any_expression_has(expressions, marker) ==> spec_any_expression_has(
            spec_with_expression(expressions, value),
            marker,
        ),
        spec_contains_loosely(text::spec_trim(value), marker) && text::spec_trim(value).len() > 0
            ==> spec_any_expression_has(spec_with_expression(expressions, value), marker),
{
    reveal(spec_any_expression_has);
    let trimmed = text::spec_trim(value);
    let all = spec_with_expression(expressions, value);
    if spec_any_expression_has(expressions, marker) {
        let i = choose|i: int|
            #![trigger expressions[i]]
            0 <= i < expressions.len() && spec_contains_loosely(expressions[i], marker);
        assert(all[i] == expressions[i]);
    }
    if spec_contains_loosely(trimmed, marker) && trimmed.len() > 0 {
        if text::spec_list_has_ignoring_case(expressions, trimmed) {
            let i = choose|i: int|
                0 <= i < expressions.len() && text::spec_same_ignoring_case(
                    #[trigger] expressions[i],
                    trimmed,
                );
            assert(spec_contains_loosely(all[i], marker));
        } else {
            assert(all[expressions.len() as int] == trimmed);
        }
    }
}

/// What a text holds as it is written it holds loosely.
proof fn held_loosely(text: Seq<char>, marker: Seq<char>)
    requires
        text::spec_contains(text, marker),
    ensures
        spec_contains_loosely(text, marker),
{
    let i = choose|i: int| #[trigger] text::occurs_at(text, marker, i);
    parts::lowercase_of_a_part(text, i, i + marker.len());
    assert(text::spec_lowercase(marker).len() == marker.len());
    assert(text::occurs_at(text::spec_lowercase(text), text::spec_lowercase(marker), i));
}

/// The words before a marker and the marker hold it.
proof fn expressions_through_a_marker_hold_it(
    text: Seq<char>,
    start: int,
    marker: Seq<char>,
    max_chars: int,
)
    requires
        can_end_expression(marker),
    ensures
        spec_contains_loosely(
            text::spec_trim(spec_suffix_through_marker(text, start, marker, max_chars)),
            marker,
        ),
        text::spec_trim(spec_suffix_through_marker(text, start, marker, max_chars)).len() > 0,
{
    reveal(spec_suffix_through_marker);
    let before = spec_last_characters(text::spec_take(text, start), max_chars);
    let rest = start_trimmed_text_keeps_its_end(before, marker, "。、,，;； \t\n"@);
    trimmed_texts_hold_their_end(rest, marker);
    held_loosely(text::spec_trim(rest + marker), marker);
    let i = choose|i: int| #[trigger] text::occurs_at(text::spec_trim(rest + marker), marker, i);
}

/// The expression of the nearest term ends with the marker.
proof fn nearest_terms_end_with_the_marker(
    items: Seq<Seq<char>>,
    prefix: Seq<char>,
    marker: Seq<char>,
    best_gap: int,
) -> (before: Seq<char>)
    ensures
        spec_nearest_term_among(items, prefix, marker, best_gap).2 ==> spec_nearest_term_among(
            items,
            prefix,
            marker,
            best_gap,
        ).0 == before + marker,
    decreases items.len(),
{
    if items.len() == 0 {
        Seq::empty()
    } else {
        let earlier = nearest_terms_end_with_the_marker(
            items.drop_last(),
            prefix,
            marker,
            best_gap,
        );
        let term = items.last();
        let (best, gap_so_far, found) = spec_nearest_term_among(
            items.drop_last(),
            prefix,
            marker,
            best_gap,
        );
        match text::spec_rsplit_once(prefix, term) {
            Some(sides) => {
                let gap = spec_byte_length(sides.1);
                if gap <= 3 && (!found || gap <= gap_so_far) {
                    term + sides.1
                } else {
                    earlier
                }
            },
            None => earlier,
        }
    }
}

/// A limited expression holds its marker.
proof fn limited_expressions_hold_the_marker(
    text: Seq<char>,
    start: int,
    marker: Seq<char>,
    required_terms: Seq<Seq<char>>,
)
    requires
        can_end_expression(marker),
    ensures
        spec_contains_loosely(
            text::spec_trim(spec_limited_expression(text, start, marker, required_terms)),
            marker,
        ),
        text::spec_trim(spec_limited_expression(text, start, marker, required_terms)).len() > 0,
{
    reveal(spec_limited_expression);
    reveal(spec_nearest_term_expression);
    let prefix = text::spec_take(text, start);
    expressions_through_a_marker_hold_it(text, start, marker, 14);
    let before = nearest_terms_end_with_the_marker(required_terms, prefix, marker, 0);
    if spec_nearest_term_among(required_terms, prefix, marker, 0).2 {
        trimmed_texts_hold_their_end(before, marker);
        held_loosely(text::spec_trim(before + marker), marker);
        let i = choose|i: int| #[trigger]
            text::occurs_at(text::spec_trim(before + marker), marker, i);
    }
}

/// Limitations at places add expressions that hold the marker, and lose none.
proof fn limitations_at_places(
    items: Seq<int>,
    text: Seq<char>,
    marker: Seq<char>,
    required_terms: Seq<Seq<char>>,
    collected: Seq<Seq<char>>,
    other: Seq<char>,
)
    ensures
        spec_any_expression_has(collected, other) ==> spec_any_expression_has(
            spec_limitations_at(items, text, marker, required_terms, collected),
            other,
        ),
        items.len() > 0 && can_end_expression(marker) ==> spec_any_expression_has(
            spec_limitations_at(items, text, marker, required_terms, collected),
            marker,
        ),
    decreases items.len(),
{
    if items.len() > 0 {
        let fewer = items.drop_last();
        let before = spec_limitations_at(fewer, text, marker, required_terms, collected);
        let value = spec_limited_expression(text, items.last(), marker, required_terms);
        limitations_at_places(fewer, text, marker, required_terms, collected, other);
        added_expressions_are_held(before, value, other);
        added_expressions_are_held(before, value, marker);
        if can_end_expression(marker) {
            limited_expressions_hold_the_marker(text, items.last(), marker, required_terms);
        }
    }
}

/// A text that holds a marker has matches of it.
proof fn held_markers_have_places(text: Seq<char>, marker: Seq<char>)
    requires
        text::spec_contains(text, marker),
    ensures
        text::spec_match_indices(text, marker).len() > 0,
{
    text::lemma_find_from(text, marker, 0);
    let i = choose|i: int| #[trigger] text::occurs_at(text, marker, i);
    let k = text::find_from(text, marker, 0)->Some_0;
    assert(text::spec_match_indices(text, marker)[0] == k);
}

/// Limitations by words add expressions that hold each word of the text, and lose none.
proof fn limitations_by_words(
    items: Seq<&str>,
    text: Seq<char>,
    required_terms: Seq<Seq<char>>,
    collected: Seq<Seq<char>>,
    other: Seq<char>,
)
    ensures
        spec_any_expression_has(collected, other) ==> spec_any_expression_has(
            spec_limitations_by_word(items, text, required_terms, collected),
            other,
        ),
        forall|k: int|
            0 <= k < items.len() && #[trigger] items[k]@ == other && can_end_expression(other)
                && text::spec_contains(text, other) ==> spec_any_expression_has(
                spec_limitations_by_word(items, text, required_terms, collected),
                other,
            ),
    decreases items.len(),
{
    if items.len() > 0 {
        let fewer = items.drop_last();
        let last = items.last()@;
        let before = spec_limitations_by_word(fewer, text, required_terms, collected);
        limitations_by_words(fewer, text, required_terms, collected, other);
        limitations_at_places(
            text::spec_match_indices(text, last),
            text,
            last,
            required_terms,
            before,
            other,
        );
        if text::spec_contains(text, last) {
            held_markers_have_places(text, last);
        }
        assert forall|k: int|
            0 <= k < items.len() && #[trigger] items[k]@ == other && can_end_expression(other)
                && text::spec_contains(text, other) implies spec_any_expression_has(
            spec_limitations_by_word(items, text, required_terms, collected),
            other,
        ) by {
            if k < items.len() - 1 {
                assert(fewer[k] == items[k]);
            }
        }
    }
}

/// Prohibitions at places add expressions that hold the marker, and lose none.
proof fn prohibitions_at_places(
    items: Seq<int>,
    text: Seq<char>,
    marker: Seq<char>,
    collected: Seq<Seq<char>>,
    other: Seq<char>,
)
    ensures
        spec_any_expression_has(collected, other) ==> spec_any_expression_has(
            spec_prohibitions_at(items, text, marker, collected),
            other,
        ),
        items.len() > 0 && can_end_expression(marker) ==> spec_any_expression_has(
            spec_prohibitions_at(items, text, marker, collected),
            marker,
        ),
    decreases items.len(),
{
    if items.len() > 0 {
        let fewer = items.drop_last();
        let before = spec_prohibitions_at(fewer, text, marker, collected);
        let value = spec_suffix_through_marker(text, items.last(), marker, 20);
        prohibitions_at_places(fewer, text, marker, collected, other);
        added_expressions_are_held(before, value, other);
        added_expressions_are_held(before, value, marker);
        if can_end_expression(marker) {
            expressions_through_a_marker_hold_it(text, items.last(), marker, 20);
        }
    }
}

/// Prohibitions by words add expressions that hold each word of the text, and lose none.
proof fn prohibitions_by_words(
    items: Seq<&str>,
    text: Seq<char>,
    collected: Seq<Seq<char>>,
    other: Seq<char>,
)
    ensures
        spec_any_expression_has(collected, other) ==> spec_any_expression_has(
            spec_prohibitions_by_word(items, text, collected),
            other,
        ),
        forall|k: int|
            0 <= k < items.len() && #[trigger] items[k]@ == other && can_end_expression(other)
                && text::spec_contains(text, other) ==> spec_any_expression_has(
                spec_prohibitions_by_word(items, text, collected),
                other,
            ),
    decreases items.len(),
{
    if items.len() > 0 {
        let fewer = items.drop_last();
        let last = items.last()@;
        let before = spec_prohibitions_by_word(fewer, text, collected);
        prohibitions_by_words(fewer, text, collected, other);
        prohibitions_at_places(
            text::spec_match_indices(text, last),
            text,
            last,
            before,
            other,
        );
        if text::spec_contains(text, last) {
            held_markers_have_places(text, last);
        }
        assert forall|k: int|
            0 <= k < items.len() && #[trigger] items[k]@ == other && can_end_expression(other)
                && text::spec_contains(text, other) implies spec_any_expression_has(
            spec_prohibitions_by_word(items, text, collected),
            other,
        ) by {
            if k < items.len() - 1 {
                assert(fewer[k] == items[k]);
            }
        }
    }
}

/// A word that can end an expression is one.
proof fn words_are_expressions(word: Seq<char>)
    ensures
        can_end_expression(word) ==> spec_contains_loosely(text::spec_trim(word), word)
            && text::spec_trim(word).len() > 0,
{
    if can_end_expression(word) {
        let nothing = Seq::<char>::empty();
        trimmed_texts_hold_their_end(nothing, word);
        assert(nothing + word =~= word);
        held_loosely(text::spec_trim(word), word);
        let i = choose|i: int| #[trigger] text::occurs_at(text::spec_trim(word), word, i);
        assert(text::spec_trim(word).len() > 0);
    }
}

/// Conditions by words add expressions that hold each word of the text, and lose none.
proof fn conditions_by_words(
    items: Seq<&str>,
    text: Seq<char>,
    collected: Seq<Seq<char>>,
    other: Seq<char>,
)
    ensures
        spec_any_expression_has(collected, other) ==> spec_any_expression_has(
            spec_conditions_by_word(items, text, collected),
            other,
        ),
        forall|k: int|
            0 <= k < items.len() && #[trigger] items[k]@ == other && can_end_expression(other)
                && spec_contains_loosely(text, other) ==> spec_any_expression_has(
                spec_conditions_by_word(items, text, collected),
                other,
            ),
    decreases items.len(),
{
    if items.len() > 0 {
        let fewer = items.drop_last();
        let last = items.last()@;
        let before = spec_conditions_by_word(fewer, text, collected);
        conditions_by_words(fewer, text, collected, other);
        added_expressions_are_held(before, last, other);
        words_are_expressions(last);
        assert forall|k: int|
            0 <= k < items.len() && #[trigger] items[k]@ == other && can_end_expression(other)
                && spec_contains_loosely(text, other) implies spec_any_expression_has(
            spec_conditions_by_word(items, text, collected),
            other,
        ) by {
            if k < items.len() - 1 {
                assert(fewer[k] == items[k]);
            }
        }
    }
}

/// The word limits, forbids or conditions something.
pub open spec fn is_protected_word(word: Seq<char>) -> bool {
    ||| word == "だけ"@
    ||| word == "のみ"@
    ||| word == "以外"@
    ||| word == "しない"@
    ||| word == "せず"@
    ||| word == "ないで"@
    ||| word == "禁止"@
    ||| word == "不可"@
    ||| word == "除外"@
    ||| word == "増やさない"@
    ||| word == "なら"@
    ||| word == "場合"@
    ||| word == "とき"@
    ||| word == "時は"@
}

/// Protected words can end an expression.
proof fn protected_words_can_end_expressions(word: Seq<char>)
    requires
        is_protected_word(word),
    ensures
        can_end_expression(word),
{
    reveal_strlit("。、,，;； \t\n");
    reveal_strlit("だけ");
    reveal_strlit("のみ");
    reveal_strlit("以外");
    reveal_strlit("しない");
    reveal_strlit("せず");
    reveal_strlit("ないで");
    reveal_strlit("禁止");
    reveal_strlit("不可");
    reveal_strlit("除外");
    reveal_strlit("増やさない");
    reveal_strlit("なら");
    reveal_strlit("場合");
    reveal_strlit("とき");
    reveal_strlit("時は");
}

/// The expressions that are collected from a text hold each of its words that limit, forbid or
/// condition something, and those that were collected before stay.
proof fn collected_expressions_hold_protected_words(
    text: Seq<char>,
    required_terms: Seq<Seq<char>>,
    expressions: Seq<Seq<char>>,
    word: Seq<char>,
)
    requires
        is_protected_word(word),
    ensures
        spec_any_expression_has(expressions, word) || text::spec_contains(text, word)
            ==> spec_any_expression_has(
            spec_collect_protected_expressions(text, required_terms, expressions),
            word,
        ),
{
    reveal(spec_collect_protected_expressions);
    reveal(spec_collect_limitations);
    reveal(spec_collect_prohibitions);
    reveal(spec_collect_conditions);
    protected_words_can_end_expressions(word);
    let limited = spec_collect_limitations(text, required_terms, expressions);
    let forbidden = spec_collect_prohibitions(text, limited);
    limitations_by_words(LIMITATION_WORDS@, text, required_terms, expressions, word);
    prohibitions_by_words(PROHIBITION_WORDS@, text, limited, word);
    conditions_by_words(CONDITION_WORDS@, text, forbidden, word);
    assert(LIMITATION_WORDS@[0]@ == "だけ"@ && LIMITATION_WORDS@[1]@ == "のみ"@
        && LIMITATION_WORDS@[2]@ == "以外"@);
    assert(PROHIBITION_WORDS@[0]@ == "しない"@ && PROHIBITION_WORDS@[1]@ == "せず"@
        && PROHIBITION_WORDS@[2]@ == "ないで"@ && PROHIBITION_WORDS@[3]@ == "禁止"@
        && PROHIBITION_WORDS@[4]@ == "不可"@ && PROHIBITION_WORDS@[5]@ == "除外"@
        && PROHIBITION_WORDS@[7]@ == "増やさない"@);
    assert(CONDITION_WORDS@[0]@ == "なら"@ && CONDITION_WORDS@[1]@ == "場合"@
        && CONDITION_WORDS@[2]@ == "とき"@ && CONDITION_WORDS@[3]@ == "時は"@);
    if text::spec_contains(text, word) {
        held_loosely(text, word);
    }
}

/// Each constraint among the facts whose text holds a word that limits, forbids or conditions
/// something is protected by an expression that holds the word.
pub proof fn protected_words_are_in_expressions(facts: Seq<Fact>, k: int, word: Seq<char>)
    requires
        0 <= k < facts.len(),
        facts[k].role == PromptRole::Constraint,
        is_protected_word(word),
        text::spec_contains(facts[k].text, word),
    ensures
        exists|i: int|
            0 <= i < spec_protected_of_facts(facts).len() && parts::holds_in_some_case(
                #[trigger] spec_protected_of_facts(facts)[i],
                word,
            ),
{
    reveal(spec_protected_of_facts);
    protected_among_facts(facts, k, word);
    reveal(spec_any_expression_has);
    let expressions = spec_protected_of_facts(facts);
    let i = choose|i: int|
        #![trigger expressions[i]]
        0 <= i < expressions.len() && spec_contains_loosely(expressions[i], word);
    parts::held_in_lower_case(expressions[i], word);
    assert(parts::holds_in_some_case(expressions[i], word));
}

/// Expressions of each constraint are among those of all facts.
proof fn protected_among_facts(facts: Seq<Fact>, k: int, word: Seq<char>)
    requires
        0 <= k < facts.len(),
        facts[k].role == PromptRole::Constraint,
        is_protected_word(word),
        text::spec_contains(facts[k].text, word),
    ensures
        spec_any_expression_has(spec_protected_among(facts), word),
    decreases facts.len(),
{
    let fewer = facts.drop_last();
    let last = facts.last();
    let before = spec_protected_among(fewer);
    collected_expressions_hold_protected_words(last.text, last.required_terms, before, word);
    if k < facts.len() - 1 {
        assert(fewer[k] == facts[k]);
        protected_among_facts(fewer, k, word);
    }
}

/// The short form of facts holds the short text of each that is not idle background, up to the case
/// of ASCII letters.
pub proof fn short_forms_hold_the_facts(facts: Seq<Fact>, k: int)
    requires
        0 <= k < facts.len(),
        !spec_is_idle_context(facts[k]),
        spec_compact_surface_text(facts[k].text).len() > 0,
    ensures
        spec_candidate_of_facts(facts) matches Some(candidate) ==> spec_contains_loosely(
            candidate,
            spec_compact_surface_text(facts[k].text),
        ),
{
    reveal(spec_candidate_of_facts);
    reveal(spec_compacted_facts);
    let short = spec_compact_surface_text(facts[k].text);
    let listed = spec_compacted_facts(facts);
    compacted_facts_are_listed(facts, k);
    let i = choose|i: int|
        0 <= i < listed.len() && text::spec_same_ignoring_case(#[trigger] listed[i], short);
    parts::joined_texts_are_held(listed, "。"@, i);
    held_loosely(text::spec_join(listed, "。"@), listed[i]);
}

/// Short texts of facts are listed.
proof fn compacted_facts_are_listed(facts: Seq<Fact>, k: int)
    requires
        0 <= k < facts.len(),
        !spec_is_idle_context(facts[k]),
        spec_compact_surface_text(facts[k].text).len() > 0,
    ensures
        text::spec_list_has_ignoring_case(
            spec_facts_compacted(facts),
            spec_compact_surface_text(facts[k].text),
        ),
    decreases facts.len(),
{
    let fewer = facts.drop_last();
    let before = spec_facts_compacted(fewer);
    let all = spec_facts_compacted(facts);
    let short = spec_compact_surface_text(facts[k].text);
    if k < facts.len() - 1 {
        assert(fewer[k] == facts[k]);
        compacted_facts_are_listed(fewer, k);
        let i = choose|i: int|
            0 <= i < before.len() && text::spec_same_ignoring_case(#[trigger] before[i], short);
        assert(all[i] == before[i]);
    } else if !text::spec_list_has_ignoring_case(before, short) {
        assert(all[before.len() as int] == short);
    }
}

/// What a request says of its occasion is dropped where it goes on with what is asked for.
pub proof fn occasions_are_dropped(before: Seq<char>, rest: Seq<char>)
    requires
        text::lacks(before, 'で'),
        parts::holds_in_some_case(before, "相談"@)
            || parts::holds_in_some_case(before, "お願い"@)
            || parts::holds_in_some_case(before, "依頼"@)
            || parts::holds_in_some_case(before, "共有"@)
            || parts::holds_in_some_case(before, "背景"@)
            || parts::holds_in_some_case(before, "前にも"@)
            || parts::holds_in_some_case(before, "以前"@),
        text::spec_trim(rest).len() > 0,
    ensures
        spec_without_conversation(before + "ですが、"@ + rest) == text::spec_trim(rest),
{
    reveal(spec_without_conversation);
    reveal_strlit("ですが、");
    let whole = before + "ですが、"@ + rest;
    let place = before.len() as int;
    text::split_texts_go_together(whole, "ですが、"@);
    assert(whole.subrange(place, place + 4) =~= "ですが、"@);
    assert(text::occurs_at(whole, "ですが、"@, place));
    match text::spec_split_once(whole, "ですが、"@) {
        Some((head, tail)) => {
            let found = head.len() as int;
            if found < place {
                assert(whole[found] == "ですが、"@[0]);
                assert(whole[found] == before[found]);
            }
            assert(head =~= whole.take(found));
            assert(before =~= whole.take(found));
            assert(tail =~= whole.skip(found + 4));
            assert(rest =~= whole.skip(found + 4));
        },
        None => {},
    }
    let words = ["相談", "お願い", "依頼", "共有", "背景", "前にも", "以前"]@;
    matching::markers_are_found_in_some_case(before, words);
    assert(words[0]@ == "相談"@);
    assert(words[1]@ == "お願い"@);
    assert(words[2]@ == "依頼"@);
    assert(words[3]@ == "共有"@);
    assert(words[4]@ == "背景"@);
    assert(words[5]@ == "前にも"@);
    assert(words[6]@ == "以前"@);
}

/// The words end a request and say nothing of what is asked for.
pub open spec fn is_request_ending(words: Seq<char>) -> bool {
    ||| words == "していただけますでしょうか"@
    ||| words == "していただきたいです"@
    ||| words == "してもらいたいです"@
    ||| words == "してほしいです"@
    ||| words == "するようにしてください"@
    ||| words == "をお願いします"@
    ||| words == "お願いします"@
    ||| words == "ください"@
    ||| words == "です"@
}

/// The ending that is dropped is one of a list that the text has.
proof fn dropped_endings_are_listed(items: Seq<&str>, i: int, text: Seq<char>)
    requires
        0 <= i,
    ensures
        (forall|k: int|
            i <= k < items.len() ==> !text::spec_ends_with(text, #[trigger] items[k]@))
            ==> spec_ending_dropped(items, i, text) == text,
        (exists|k: int| i <= k < items.len() && text::spec_ends_with(text, #[trigger] items[k]@))
            ==> exists|k: int|
            i <= k < items.len() && text::spec_ends_with(text, #[trigger] items[k]@)
                && spec_ending_dropped(items, i, text) == text::spec_trim(
                text.take(text.len() - items[k]@.len()),
            ),
    decreases items.len() - i,
{
    if i < items.len() {
        dropped_endings_are_listed(items, i + 1, text);
        assert(items[i]@ == items[i]@);
    }
}

/// Words that end a request are dropped, and nothing else is: a text without them stays, and of any
/// other what stands before them is left, without the white space around it.
pub proof fn endings_of_requests_are_dropped(text: Seq<char>)
    ensures
        (forall|words: Seq<char>| #[trigger]
            is_request_ending(words) ==> !text::spec_ends_with(text, words))
            ==> spec_without_request_ending(text) == text,
        (exists|words: Seq<char>| #[trigger]
            is_request_ending(words) && text::spec_ends_with(text, words)) ==> exists|
            words: Seq<char>,
        | #[trigger]
            is_request_ending(words) && text::spec_ends_with(text, words)
                && spec_without_request_ending(text) == text::spec_trim(
                text.take(text.len() - words.len()),
            ),
{
    let items = REQUEST_SUFFIXES@;
    assert(items[0]@ == "していただけますでしょうか"@);
    assert(items[1]@ == "していただきたいです"@);
    assert(items[2]@ == "してもらいたいです"@);
    assert(items[3]@ == "してほしいです"@);
    assert(items[4]@ == "するようにしてください"@);
    assert(items[5]@ == "をお願いします"@);
    assert(items[6]@ == "お願いします"@);
    assert(items[7]@ == "ください"@);
    assert(items[8]@ == "です"@);
    dropped_endings_are_listed(items, 0, text);
    assert forall|k: int| 0 <= k < items.len() implies is_request_ending(
        #[trigger] items[k]@,
    ) by {}
    if exists|words: Seq<char>| #[trigger]
        is_request_ending(words) && text::spec_ends_with(text, words) {
        let words = choose|words: Seq<char>| #[trigger]
            is_request_ending(words) && text::spec_ends_with(text, words);
        assert(exists|k: int| 0 <= k < items.len() && #[trigger] items[k]@ == words);
        let k = choose|k: int|
            0 <= k < items.len() && text::spec_ends_with(text, #[trigger] items[k]@)
                && spec_ending_dropped(items, 0, text) == text::spec_trim(
                text.take(text.len() - items[k]@.len()),
            );
        assert(is_request_ending(items[k]@));
    }
}

/// A word that softens a request is dropped at its start.
pub proof fn softening_words_are_dropped(word: Seq<char>, rest: Seq<char>)
    requires
        word == "できれば、"@
            || word == "可能であれば、"@
            || word == "念のため、"@
            || word == "要するに、"@
            || word == "今回については、"@,
        rest.len() > 0,
        !text::spec_is_whitespace(rest[0]),
        !text::spec_is_whitespace(rest[rest.len() - 1]),
        rest[0] != 'で' && rest[0] != '可' && rest[0] != '念' && rest[0] != '要' && rest[0] != '今',
    ensures
        spec_without_softening(word + rest) == rest,
        spec_without_softening(rest) == rest,
{
    reveal_strlit("できれば、");
    reveal_strlit("可能であれば、");
    reveal_strlit("念のため、");
    reveal_strlit("要するに、");
    reveal_strlit("今回については、");
    let items = SOFTENING_PREFIXES@;
    assert(items[0]@ == "できれば、"@);
    assert(items[1]@ == "可能であれば、"@);
    assert(items[2]@ == "念のため、"@);
    assert(items[3]@ == "要するに、"@);
    assert(items[4]@ == "今回については、"@);
    let whole = word + rest;
    clauses::firm_texts_are_trimmed(rest);
    assert(whole[0] == word[0]);
    assert(whole.subrange(0, word.len() as int) =~= word);
    assert(whole.skip(word.len() as int) =~= rest);
    assert(text::spec_strip_prefix(whole, word) == Some(rest));
    assert forall|k: int| 0 <= k < items.len() implies text::spec_strip_prefix(
        rest,
        #[trigger] items[k]@,
    ) is None by {
        if text::spec_starts_with(rest, items[k]@) {
            assert(rest.subrange(0, items[k]@.len() as int)[0] == items[k]@[0]);
        }
    }
    assert forall|k: int| 0 <= k < items.len() && items[k]@[0] != word[0] implies
        text::spec_strip_prefix(whole, #[trigger] items[k]@) is None by {
        if text::spec_starts_with(whole, items[k]@) {
            assert(whole.subrange(0, items[k]@.len() as int)[0] == items[k]@[0]);
        }
    }
    assert(items.drop_last() =~= items.take(4));
    assert(items.take(4).drop_last() =~= items.take(3));
    assert(items.take(3).drop_last() =~= items.take(2));
    assert(items.take(2).drop_last() =~= items.take(1));
    assert(items.take(1).drop_last() =~= Seq::empty());
    reveal_with_fuel(spec_softening_dropped, 6);
}

} // verus!
