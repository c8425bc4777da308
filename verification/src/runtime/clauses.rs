//! The clauses of a request, the constraints among them, and the lists that they give.
use vstd::prelude::*;
use crate::contents;
use crate::parts;
use crate::runtime::matching;
use crate::runtime::spacing;
use crate::text;

verus! {

broadcast use crate::contents::group_contents;

/// A condition on a key: one of several values, and what follows from it.
#[derive(Debug)]
pub struct ConditionalValueList {
    pub key: String,
    pub values: Vec<String>,
    pub consequence: String,
}

/// What a [`ConditionalValueList`] holds.
pub struct ConditionalValues {
    pub key: Seq<char>,
    pub values: Seq<Seq<char>>,
    pub consequence: Seq<char>,
}

impl View for ConditionalValueList {
    type V = ConditionalValues;

    open spec fn view(&self) -> ConditionalValues {
        ConditionalValues {
            key: self.key@,
            values: contents::views(self.values@),
            consequence: self.consequence@,
        }
    }
}

/// What an optional [`ConditionalValueList`] holds.
pub open spec fn view_conditional(value: Option<ConditionalValueList>) -> Option<
    ConditionalValues,
> {
    match value {
        Some(list) => Some(list@),
        None => None,
    }
}

/// Several targets of one predicate.
#[derive(Debug)]
pub struct SharedPredicateList {
    pub targets: Vec<String>,
    pub predicate: String,
}

/// What a [`SharedPredicateList`] holds.
pub struct SharedPredicate {
    pub targets: Seq<Seq<char>>,
    pub predicate: Seq<char>,
}

impl View for SharedPredicateList {
    type V = SharedPredicate;

    open spec fn view(&self) -> SharedPredicate {
        SharedPredicate {
            targets: contents::views(self.targets@),
            predicate: self.predicate@,
        }
    }
}

/// What an optional [`SharedPredicateList`] holds.
pub open spec fn view_shared(value: Option<SharedPredicateList>) -> Option<SharedPredicate> {
    match value {
        Some(list) => Some(list@),
        None => None,
    }
}

/// Signs of a clause that states a constraint.
pub const CONSTRAINT_MARKERS: [&'static str; 81] = [
    "避け",
    "禁止",
    "しない",
    "できない",
    "不要",
    "ではなく",
    "でなく",
    "はみ出さない",
    "行わない",
    "読み込まず",
    "読まない",
    "下げない",
    "廃止",
    "変えず",
    "入れない",
    "影響させない",
    "削除しない",
    "消えない",
    "消さない",
    "変更不可",
    "実通信しない",
    "送信しない",
    "二重作成しない",
    "再接続しない",
    "再試行しない",
    "超えたら",
    "再推論せず",
    "戻さない",
    "参照しない",
    "混ぜない",
    "混ざらない",
    "取りすぎない",
    "押さなくても",
    "クリア",
    "隠れない",
    "出さない",
    "見せない",
    "依存せず",
    "保存せず",
    "のみ",
    "だけ",
    "必ず",
    "維持",
    "残す",
    "残して",
    "残してほしい",
    "テスト",
    "確認できる",
    "確認したい",
    "場合",
    "なら",
    "ときは",
    "時は",
    "際は",
    "失敗時",
    "成功時",
    "変えない",
    "変更せず",
    "変更しない",
    "変更なし",
    "改変せず",
    "改変しない",
    "改変なし",
    "増やさない",
    "増えない",
    "増加させない",
    "せず",
    "行わず",
    "作らず",
    "戻さず",
    "送らず",
    "含めず",
    "must",
    "must not",
    "do not",
    "don't",
    "avoid",
    "only",
    "without",
    "preserve",
    "keep",
];

/// Words between the values of a condition and what follows from it.
pub const CONDITION_MARKERS: [&'static str; 3] = [
    "のいずれかなら",
    "のいずれかの場合",
    "のどれかなら",
];

/// Predicates that several targets may share, with their short forms.
pub const SHARED_PREDICATES: [(&'static str, &'static str); 12] = [
    ("変更しないでください", "変更しない"),
    ("変更しない", "変更しない"),
    ("変えないでください", "変えない"),
    ("変えない", "変えない"),
    ("維持してください", "維持"),
    ("保持してください", "保持"),
    ("含めないでください", "含めない"),
    ("含めない", "含めない"),
    ("保存しないでください", "保存しない"),
    ("保存しない", "保存しない"),
    ("行わないでください", "行わない"),
    ("行わない", "行わない"),
];

/// Remarks that explain a list of targets and do not belong to it.
pub const LIST_REMARK_MARKERS: [&'static str; 3] = ["は機密情報", "は個人情報", "は秘密情報"];

/// Signs that a piece of a list is a clause of its own.
pub const ACTION_MARKERS: [&'static str; 8] = [
    "維持し",
    "保持し",
    "含め",
    "追加し",
    "返し",
    "行い",
    "してください",
    "変更し",
];

/// Numerals by which a clause refers to the items of a list.
pub const COUNT_NUMERALS: [&'static str; 11] = [
    "2",
    "3",
    "4",
    "5",
    "6",
    "7",
    "8",
    "9",
    "10",
    "11",
    "12",
];

/// Short forms of what may be the target of a shared predicate.
pub const TARGET_SHORT_FORMS: [(&'static str, &'static str); 12] = [
    ("既存の", ""),
    ("成功時の", "成功"),
    ("成功した時の", "成功"),
    (" の ", ""),
    (" の", ""),
    ("の採番", "採番"),
    ("エラーコード", "エラー"),
    ("処理", ""),
    ("オプション", ""),
    ("の表示", "表示"),
    ("テストコマンド", "テスト"),
    ("レスポンスフィールド名", "レスポンス名"),
];

/// Short forms of phrases in constraints.
pub const CLAUSE_SHORT_FORMS: [(&'static str, &'static str); 39] = [
    ("変更しないでください", "変更しない"),
    ("変えないでください", "変えない"),
    ("維持してください", "維持"),
    ("保持してください", "保持"),
    ("含めないでください", "含めない"),
    ("行わないでください", "行わない"),
    ("していただけますでしょうか", ""),
    ("していただきたいです", ""),
    ("してほしいです", ""),
    ("をお願いします", ""),
    ("成功時のレスポンス形式", "成功レスポンス形式"),
    ("既存の監査ログ", "監査ログ"),
    ("既存の schema.graphql", "schema.graphql"),
    ("レスポンスフィールド名", "レスポンス名"),
    ("ページ番号を変更しても検索条件と検索状態が消えないようにしてください", "ページ変更時も検索条件/状態維持"),
    ("検索条件と検索状態が消えないようにしてください", "検索条件/状態維持"),
    ("検索条件と検索状態が消えないように", "検索条件/状態維持"),
    ("大規模なリファクタリングや画面全体の作り直しは避けてください", "大規模リファクタリング/画面作り直し回避"),
    ("大規模なリファクタリング", "大規模リファクタリング"),
    ("画面全体の作り直し", "画面作り直し"),
    ("避けてください", "回避"),
    ("データが混ざらないようにしてください", "データ混ざらない"),
    ("データが混ざらないように", "データ混ざらない"),
    ("ユーザーが任意のローカルモデルを検証するために残すこと", "任意ローカルモデル検証用に残す"),
    ("ユーザーが任意のローカルモデルを検証するために残す", "任意ローカルモデル検証用に残す"),
    ("任意のローカルモデルを検証するために残すこと", "任意ローカルモデル検証用に残す"),
    ("任意のローカルモデルを検証するために残す", "任意ローカルモデル検証用に残す"),
    ("ユーザーが任意モデルを試すために残してください", "任意モデル用に残す"),
    ("ユーザーが任意モデルを試すために残す", "任意モデル用に残す"),
    ("ことを明記してください", ""),
    ("ことを明記", ""),
    ("を明記してください", ""),
    ("を明記", ""),
    ("本題だけ圧縮できるか見たいです", "本題のみ"),
    ("本題だけ圧縮", "本題のみ"),
    ("本題だけ", "本題のみ"),
    ("作り直しは今回はいりません", "作り直し不要"),
    ("作り直しは今回は不要です", "作り直し不要"),
    ("今回はいりません", "不要"),
];

/// Words that turn from the history of a request to the request itself.
pub const FOCUS_MARKERS: [&'static str; 2] = ["今回は", "今回については"];

/// Signs of the history of a request.
pub const HISTORY_MARKERS: [&'static str; 6] = [
    "前にも",
    "以前",
    "先ほど",
    "似た",
    "同様",
    "お願い",
];

/// Value of [`input_clauses`].
pub open spec fn spec_input_clauses(input: Seq<char>) -> Seq<Seq<char>> {
    text::spec_segments(input, "。！？\n;；"@)
}

/// The clauses of a request: the trimmed pieces between marks that end a sentence.
pub fn input_clauses(input: &str) -> (r: Vec<String>)
    ensures
        contents::views(r@) == spec_input_clauses(input@),
{
    text::segments(input, "。！？\n;；")
}

/// Value of [`constraint_clauses_among`].
#[verifier::opaque]
pub open spec fn spec_constraint_clauses_among(clauses: Seq<Seq<char>>) -> Seq<Seq<char>> {
    clauses.filter(
        |clause: Seq<char>|
            matching::spec_holds_marker(text::spec_lowercase(clause), CONSTRAINT_MARKERS@),
    )
}

/// The clauses that state a constraint.
pub fn constraint_clauses_among(clauses: &Vec<String>) -> (r: Vec<String>)
    ensures
        contents::views(r@) == spec_constraint_clauses_among(contents::views(clauses@)),
{
    proof {
        reveal(spec_constraint_clauses_among);
        reveal(Seq::filter);
    }
    let mut out: Vec<String> = Vec::new();
    let mut i: usize = 0;
    while i < clauses.len()
        invariant
            i <= clauses@.len(),
            contents::views(out@) == spec_constraint_clauses_among(
                contents::views(clauses@).take(i as int),
            ),
        decreases clauses@.len() - i,
    {
        proof {
            reveal(spec_constraint_clauses_among);
            reveal(Seq::filter);
        }
        assert(contents::views(clauses@).take(i + 1).drop_last()
            =~= contents::views(clauses@).take(i as int));
        let clause: &str = &clauses[i];
        i = i + 1;
        if matching::holds_marker(&text::lowercase(clause), &CONSTRAINT_MARKERS) {
            out.push(clause.to_owned());
        }
    }
    assert(contents::views(clauses@).take(clauses@.len() as int) =~= contents::views(clauses@));
    out
}

/// Value of [`required_constraint_clauses`].
#[verifier::opaque]
pub open spec fn spec_required_constraint_clauses(input: Seq<char>) -> Seq<Seq<char>> {
    spec_constraint_clauses_among(spec_input_clauses(input))
}

/// The clauses of a request that state a constraint.
pub fn required_constraint_clauses(input: &str) -> (r: Vec<String>)
    ensures
        contents::views(r@) == spec_required_constraint_clauses(input@),
{
    proof {
        reveal(spec_required_constraint_clauses);
    }
    constraint_clauses_among(&input_clauses(input))
}

/// What [`first_split`] comes to from position `i` of the items on.
pub open spec fn spec_split_at_first(
    items: Seq<&str>,
    i: int,
    text: Seq<char>,
) -> Option<(Seq<char>, Seq<char>)>
    decreases items.len() - i,
{
    if i >= items.len() {
        None
    } else {
        let separator = items[i]@;
        match text::spec_split_once(text, separator) {
            Some(parts) => Some(parts),
            None => spec_split_at_first(items, i + 1, text),
        }
    }
}

/// Value of [`first_split`].
pub open spec fn spec_first_split(
    text: Seq<char>,
    separators: Seq<&str>,
) -> Option<(Seq<char>, Seq<char>)> {
    spec_split_at_first(separators, 0, text)
}

/// The parts before and after the first of the separators that the text holds.
pub fn first_split(text: &str, separators: &[&str]) -> (r: Option<(String, String)>)
    ensures
        contents::view_pair(r) == spec_first_split(text@, separators@),
{
    let ghost goal = spec_split_at_first(separators@, 0, text@);
    let mut i: usize = 0;
    while i < separators.len()
        invariant
            i <= separators@.len(),
            goal == spec_split_at_first(separators@, i as int, text@),
            goal == spec_first_split(text@, separators@),
        decreases separators@.len() - i,
    {
        let separator: &str = separators[i];
        i = i + 1;
        match text::split_once(text, separator) {
            Some(parts) => {
                return Some(parts);
            },
            None => {
            },
        }
    }
    None
}

/// The state of [`condition_values`] after the given items.
pub open spec fn spec_condition_values_among(
    items: Seq<Seq<char>>,
    first_value: Seq<char>,
    listed: Seq<Seq<char>>,
) -> Seq<Seq<char>>
    decreases items.len(),
{
    if items.len() == 0 {
        Seq::<Seq<char>>::empty()
    } else {
        let values = spec_condition_values_among(items.drop_last(), first_value, listed);
        let index: int = items.len() - 1;
        let item = items.last();
        if index == 0 {
            values.push(text::spec_trim(first_value))
        } else if index + 1 == listed.len() {
            values.push(text::spec_trim(text::spec_trim_end_text(item, "だけ"@)))
        } else {
            values.push(item)
        }
    }
}

/// Value of [`condition_values`].
pub open spec fn spec_condition_values(
    listed: Seq<Seq<char>>,
    first_value: Seq<char>,
) -> Seq<Seq<char>> {
    spec_condition_values_among(listed, first_value, listed)
}

/// The values of a condition: the first one given apart, the last one without a word of limit.
pub fn condition_values(listed: &Vec<String>, first_value: &str) -> (r: Vec<String>)
    ensures
        contents::views(r@) == spec_condition_values(contents::views(listed@), first_value@),
{
    let mut values: Vec<String> = Vec::new();
    let mut i: usize = 0;
    while i < listed.len()
        invariant
            i <= listed@.len(),
            contents::views(values@) == spec_condition_values_among(
                contents::views(listed@).take(i as int),
                first_value@,
                contents::views(listed@),
            ),
        decreases listed@.len() - i,
    {
        assert(contents::views(listed@).take(i + 1).drop_last()
            =~= contents::views(listed@).take(i as int));
        let item: &str = &listed[i];
        let index: usize = i;
        i = i + 1;
        if index == 0 {
            values.push(text::trim(first_value));
        } else if index + 1 == listed.len() {
            values.push(text::trim(&text::trim_end_text(item, "だけ")));
        } else {
            values.push(item.to_owned());
        }
    }
    assert(contents::views(listed@).take(listed@.len() as int) =~= contents::views(listed@));
    values
}

/// The condition of [`any_empty`]: some text of the list is empty.
pub open spec fn spec_any_empty(items: Seq<Seq<char>>) -> bool {
    exists|i: int| #![trigger items[i]] 0 <= i < items.len() && items[i].len() == 0
}

/// Whether some text of the list is empty.
pub fn any_empty(items: &Vec<String>) -> (r: bool)
    ensures
        r == spec_any_empty(contents::views(items@)),
{
    let mut i: usize = 0;
    while i < items.len()
        invariant
            i <= items@.len(),
            forall|j: int|
                #![trigger contents::views(items@)[j]] 0 <= j < i ==> !(contents::views(items@)[j].len()
                    == 0),
        decreases items@.len() - i,
    {
        let item: &str = &items[i];
        assert(contents::views(items@)[i as int] == items@[i as int]@);
        if text::char_count(item) == 0 {
            return true;
        }
        i = i + 1;
    }
    false
}

/// Value of [`parse_conditional_value_list`].
#[verifier::opaque]
pub open spec fn spec_parse_conditional_value_list(clause: Seq<char>) -> Option<ConditionalValues> {
    match spec_first_split(clause, CONDITION_MARKERS@) {
        None => None,
        Some(sides) => {
            let items = text::spec_segments(sides.0, "、,"@);
            if items.len() < 3 {
                None
            } else {
                match text::spec_split_once(items[0], "が"@) {
                    None => None,
                    Some(subject) => {
                        let key = text::spec_trim(subject.0);
                        if key.len() == 0 {
                            None
                        } else {
                            let values = spec_condition_values(items, subject.1);
                            let consequence = text::spec_trim(sides.1);
                            if spec_any_empty(values) || consequence.len() == 0 {
                                None
                            } else {
                                Some(
                                    ConditionalValues {
                                        key: key,
                                        values: values,
                                        consequence: consequence,
                                    },
                                )
                            }
                        }
                    },
                }
            }
        },
    }
}

/// The condition that a clause states on one key and at least three values.
pub fn parse_conditional_value_list(clause: &str) -> (r: Option<ConditionalValueList>)
    ensures
        view_conditional(r) == spec_parse_conditional_value_list(clause@),
{
    proof {
        reveal(spec_parse_conditional_value_list);
    }
    let sides = match first_split(clause, &CONDITION_MARKERS) {
        Some(value) => value,
        None => {
            return None;
        },
    };
    let items: Vec<String> = text::segments(&sides.0, "、,");
    if items.len() < 3 {
        return None;
    }
    let subject = match text::split_once(&items[0], "が") {
        Some(value) => value,
        None => {
            return None;
        },
    };
    let key: String = text::trim(&subject.0);
    if text::char_count(&key) == 0 {
        return None;
    }
    let values: Vec<String> = condition_values(&items, &subject.1);
    let consequence: String = text::trim(&sides.1);
    if any_empty(&values) || text::char_count(&consequence) == 0 {
        return None;
    }
    Some(ConditionalValueList { key: key, values: values, consequence: consequence })
}

/// What [`shared_predicate`] comes to from position `i` of the items on.
pub open spec fn spec_predicate_of(
    items: Seq<(&str, &str)>,
    i: int,
    clause: Seq<char>,
) -> Option<(Seq<char>, Seq<char>)>
    decreases items.len() - i,
{
    if i >= items.len() {
        None
    } else {
        let marker = items[i].0@;
        let predicate = items[i].1@;
        match text::spec_rfind(clause, marker) {
            Some(index) => Some((text::spec_take(clause, index), predicate)),
            None => spec_predicate_of(items, i + 1, clause),
        }
    }
}

/// Value of [`shared_predicate`].
pub open spec fn spec_shared_predicate(clause: Seq<char>) -> Option<(Seq<char>, Seq<char>)> {
    spec_predicate_of(SHARED_PREDICATES@, 0, clause)
}

/// What stands before the last place of the first known predicate of the clause, and its short
/// form.
pub fn shared_predicate(clause: &str) -> (r: Option<(String, String)>)
    ensures
        contents::view_pair(r) == spec_shared_predicate(clause@),
{
    let ghost goal = spec_predicate_of(SHARED_PREDICATES@, 0, clause@);
    let mut i: usize = 0;
    while i < SHARED_PREDICATES.len()
        invariant
            i <= SHARED_PREDICATES@.len(),
            goal == spec_predicate_of(SHARED_PREDICATES@, i as int, clause@),
            goal == spec_shared_predicate(clause@),
        decreases SHARED_PREDICATES@.len() - i,
    {
        let marker: &str = SHARED_PREDICATES[i].0;
        let predicate: &str = SHARED_PREDICATES[i].1;
        i = i + 1;
        match text::rfind(clause, marker) {
            Some(index) => {
                return Some((text::take(clause, index), predicate.to_owned()));
            },
            None => {
            },
        }
    }
    None
}

/// Value of [`without_list_remark`].
#[verifier::opaque]
pub open spec fn spec_without_list_remark(before: Seq<char>) -> Seq<char> {
    match spec_first_split(before, LIST_REMARK_MARKERS@) {
        Some(parts) => text::spec_trim(parts.0),
        None => before,
    }
}

/// The list of targets without a remark that explains it.
pub fn without_list_remark(before: &str) -> (r: String)
    ensures
        r@ == spec_without_list_remark(before@),
{
    proof {
        reveal(spec_without_list_remark);
    }
    match first_split(before, &LIST_REMARK_MARKERS) {
        Some(parts) => {
            text::trim(&parts.0)
        },
        None => {
            before.to_owned()
        },
    }
}

/// Value of [`focused_targets`].
pub open spec fn spec_focused_targets(before: Seq<char>) -> Seq<char> {
    match text::spec_rsplit_once_any(before, "、,"@) {
        Some(parts) => {
            if text::spec_contains(parts.1, "や"@) {
                text::spec_trim(parts.1)
            } else {
                before
            }
        },
        None => before,
    }
}

/// The last piece of the text where it joins targets of its own.
pub fn focused_targets(before: &str) -> (r: String)
    ensures
        r@ == spec_focused_targets(before@),
{
    match text::rsplit_once_any(before, "、,") {
        Some(parts) => {
            if text::contains(&parts.1, "や") {
                return text::trim(&parts.1);
            }
            before.to_owned()
        },
        None => {
            before.to_owned()
        },
    }
}

/// Value of [`listed_targets`].
pub open spec fn spec_listed_targets(before: Seq<char>) -> Seq<Seq<char>> {
    text::spec_segments(before, "、,や"@).map_values(
        |target: Seq<char>| text::spec_trim(text::spec_trim_start_text(target, "既存の"@)),
    )
}

/// The targets that a text lists.
pub fn listed_targets(before: &str) -> (r: Vec<String>)
    ensures
        contents::views(r@) == spec_listed_targets(before@),
{
    let mut out: Vec<String> = Vec::new();
    let items: Vec<String> = text::segments(before, "、,や");
    let mut i: usize = 0;
    while i < items.len()
        invariant
            i <= items@.len(),
            out@.len() == i,
            forall|j: int|
                #![trigger contents::views(out@)[j]]
                0 <= j < i ==> contents::views(out@)[j] == text::spec_trim(
                    text::spec_trim_start_text(contents::views(items@)[j], "既存の"@),
                ),
        decreases items@.len() - i,
    {
        assert(contents::views(items@)[i as int] == items@[i as int]@);
        let target: &str = &items[i];
        i = i + 1;
        out.push(text::trim(&text::trim_start_text(target, "既存の")));
    }
    assert(contents::views(out@) =~= spec_listed_targets(before@));
    out
}

/// The condition of [`any_action`]: some target is a clause of its own.
#[verifier::opaque]
pub open spec fn spec_any_action(targets: Seq<Seq<char>>) -> bool {
    exists|i: int|
        #![trigger targets[i]] 0 <= i < targets.len()
        && matching::spec_contains_any_marker(targets[i], ACTION_MARKERS@)
}

/// Whether some target is a clause of its own.
pub fn any_action(targets: &Vec<String>) -> (r: bool)
    ensures
        r == spec_any_action(contents::views(targets@)),
{
    proof {
        reveal(spec_any_action);
    }
    let mut i: usize = 0;
    while i < targets.len()
        invariant
            i <= targets@.len(),
            forall|j: int|
                #![trigger contents::views(targets@)[j]] 0 <= j < i ==> !(matching::spec_contains_any_marker(
                    contents::views(targets@)[j],
                    ACTION_MARKERS@,
                )),
        decreases targets@.len() - i,
    {
        proof {
            reveal(spec_any_action);
        }
        let target: &str = &targets[i];
        assert(contents::views(targets@)[i as int] == targets@[i as int]@);
        if matching::contains_any_marker(target, &ACTION_MARKERS) {
            return true;
        }
        i = i + 1;
    }
    false
}

/// Value of [`parse_shared_predicate_list`].
#[verifier::opaque]
pub open spec fn spec_parse_shared_predicate_list(clause: Seq<char>) -> Option<SharedPredicate> {
    match spec_shared_predicate(clause) {
        None => None,
        Some(parts) => {
            let introduced = text::spec_trim(
                text::spec_trim_start_text(
                    text::spec_trim_start_text(
                        text::spec_trim_start_text(text::spec_trim(parts.0), "ただし"@),
                        "なお"@,
                    ),
                    "一方で"@,
                ),
            );
            let focused = spec_focused_targets(spec_without_list_remark(introduced));
            let before = text::spec_trim(
                text::spec_trim_end_any(text::spec_trim_end_text(focused, "までは"@), "はを"@),
            );
            let supports_two_item_prohibition = text::spec_contains(before, "や"@)
                    && parts.1 == "行わない"@;
            let targets = spec_listed_targets(before);
            if (targets.len() < 3 && !(targets.len() == 2 && supports_two_item_prohibition))
                || spec_any_action(targets) {
                None
            } else {
                Some(SharedPredicate { targets: targets, predicate: parts.1 })
            }
        },
    }
}

/// The predicate that a clause states of at least three targets, or of two that it joins in a
/// prohibition.
pub fn parse_shared_predicate_list(clause: &str) -> (r: Option<SharedPredicateList>)
    ensures
        view_shared(r) == spec_parse_shared_predicate_list(clause@),
{
    proof {
        reveal(spec_parse_shared_predicate_list);
    }
    let parts = match shared_predicate(clause) {
        Some(value) => value,
        None => {
            return None;
        },
    };
    let introduced: String = text::trim(
        &text::trim_start_text(
            &text::trim_start_text(
                &text::trim_start_text(&text::trim(&parts.0), "ただし"),
                "なお",
            ),
            "一方で",
        ),
    );
    let focused: String = focused_targets(&without_list_remark(&introduced));
    let before: String = text::trim(
        &text::trim_end_any(&text::trim_end_text(&focused, "までは"), "はを"),
    );
    let supports_two_item_prohibition: bool = text::contains(&before, "や")
            && text::same(&parts.1, "行わない");
    let targets: Vec<String> = listed_targets(&before);
    if (targets.len() < 3 && !(targets.len() == 2 && supports_two_item_prohibition))
        || any_action(&targets) {
        return None;
    }
    Some(SharedPredicateList { targets: targets, predicate: parts.1 })
}

/// Value of [`parse_enumerated_definition_clause`].
pub open spec fn spec_parse_enumerated_definition_clause(
    clause: Seq<char>,
) -> Option<Seq<Seq<char>>> {
    match text::spec_rsplit_once(clause, "は"@) {
        None => None,
        Some(parts) => {
            let list_text = text::spec_trim(
                text::spec_trim_end_text(
                    text::spec_trim_end_text(text::spec_trim(parts.1), "です"@),
                    "でした"@,
                ),
            );
            let targets = text::spec_segments(list_text, "、,"@);
            if targets.len() < 3 {
                None
            } else {
                Some(targets)
            }
        },
    }
}

/// The items of a clause that says what something consists of, where there are at least three.
pub fn parse_enumerated_definition_clause(clause: &str) -> (r: Option<Vec<String>>)
    ensures
        contents::view_list(r) == spec_parse_enumerated_definition_clause(clause@),
{
    let parts = match text::rsplit_once(clause, "は") {
        Some(value) => value,
        None => {
            return None;
        },
    };
    let list_text: String = text::trim(
        &text::trim_end_text(&text::trim_end_text(&text::trim(&parts.1), "です"), "でした"),
    );
    let targets: Vec<String> = text::segments(&list_text, "、,");
    if targets.len() < 3 {
        return None;
    }
    Some(targets)
}

/// What [`referenced_item_count`] comes to from position `i` of the items on.
pub open spec fn spec_count_referenced(items: Seq<&str>, i: int, clause: Seq<char>) -> Option<int>
    decreases items.len() - i,
{
    if i >= items.len() {
        None
    } else {
        let numeral = items[i]@;
        let index: int = i;
        if text::spec_contains(clause, numeral + "項目"@)
            || text::spec_contains(clause, numeral + "つ"@) {
            Some(index + 2)
        } else {
            spec_count_referenced(items, i + 1, clause)
        }
    }
}

/// Value of [`referenced_item_count`].
pub open spec fn spec_referenced_item_count(clause: Seq<char>) -> Option<int> {
    spec_count_referenced(COUNT_NUMERALS@, 0, clause)
}

/// The number of items that a clause refers to, from two to twelve.
pub fn referenced_item_count(clause: &str) -> (r: Option<usize>)
    ensures
        contents::view_position(r) == spec_referenced_item_count(clause@),
{
    let ghost goal = spec_count_referenced(COUNT_NUMERALS@, 0, clause@);
    let mut i: usize = 0;
    while i < COUNT_NUMERALS.len()
        invariant
            i <= COUNT_NUMERALS@.len(),
            goal == spec_count_referenced(COUNT_NUMERALS@, i as int, clause@),
            goal == spec_referenced_item_count(clause@),
        decreases COUNT_NUMERALS@.len() - i,
    {
        let numeral: &str = COUNT_NUMERALS[i];
        let index: usize = i;
        i = i + 1;
        if text::contains(clause, &text::concat2(numeral, "項目"))
            || text::contains(clause, &text::concat2(numeral, "つ")) {
            return Some(index + 2);
        }
    }
    None
}

/// Value of [`counted_predicate`].
pub open spec fn spec_counted_predicate(clause: Seq<char>) -> Seq<char> {
    if text::spec_contains(clause, "保存"@) {
        "のみ保存"@
    } else {
        if text::spec_contains(clause, "復元"@) {
            "のみ復元"@
        } else {
            "のみ"@
        }
    }
}

/// The short form of what a clause says of the items that it refers to.
pub fn counted_predicate(clause: &str) -> (r: String)
    ensures
        r@ == spec_counted_predicate(clause@),
{
    if text::contains(clause, "保存") {
        return "のみ保存".to_owned();
    }
    if text::contains(clause, "復元") {
        return "のみ復元".to_owned();
    }
    "のみ".to_owned()
}

/// Value of [`counted_item_reference`].
#[verifier::opaque]
pub open spec fn spec_counted_item_reference(
    definition: Seq<char>,
    reference: Seq<char>,
) -> Option<SharedPredicate> {
    match spec_parse_enumerated_definition_clause(definition) {
        None => None,
        Some(targets) => {
            match spec_referenced_item_count(reference) {
                None => None,
                Some(count) => {
                    if targets.len() != count
                        || !matching::spec_contains_any_marker(reference, ["だけ", "のみ"]@) {
                        None
                    } else {
                        Some(
                            SharedPredicate {
                                targets: targets,
                                predicate: spec_counted_predicate(reference),
                            },
                        )
                    }
                },
            }
        },
    }
}

/// The list that one clause defines and the next refers to by the number of its items.
pub fn counted_item_reference(definition: &str, reference: &str) -> (r: Option<SharedPredicateList>)
    ensures
        view_shared(r) == spec_counted_item_reference(definition@, reference@),
{
    proof {
        reveal(spec_counted_item_reference);
    }
    let targets: Vec<String> = match parse_enumerated_definition_clause(definition) {
        Some(value) => value,
        None => {
            return None;
        },
    };
    let count: usize = match referenced_item_count(reference) {
        Some(value) => value,
        None => {
            return None;
        },
    };
    if targets.len() != count || !matching::contains_any_marker(reference, &["だけ", "のみ"]) {
        return None;
    }
    Some(SharedPredicateList { targets: targets, predicate: counted_predicate(reference) })
}

/// What [`parse_counted_item_reference_list`] comes to from position `i` of the items on.
pub open spec fn spec_counted_list_from(
    items: Seq<Seq<char>>,
    i: int,
    previous: Seq<char>,
) -> Option<SharedPredicate>
    decreases items.len() - i,
{
    if i >= items.len() {
        None
    } else {
        let clause = items[i];
        let index: int = i;
        let definition = previous;
        let previous = clause;
        if index > 0 {
            match spec_counted_item_reference(definition, clause) {
                Some(list) => Some(list),
                None => spec_counted_list_from(items, i + 1, previous),
            }
        } else {
            spec_counted_list_from(items, i + 1, previous)
        }
    }
}

/// Value of [`parse_counted_item_reference_list`].
#[verifier::opaque]
pub open spec fn spec_parse_counted_item_reference_list(input: Seq<char>) -> Option<SharedPredicate> {
    let previous = Seq::<char>::empty();
    spec_counted_list_from(spec_input_clauses(input), 0, previous)
}

/// The first list of the input that one clause defines and the next refers to by the number of
/// its items.
pub fn parse_counted_item_reference_list(input: &str) -> (r: Option<SharedPredicateList>)
    ensures
        view_shared(r) == spec_parse_counted_item_reference_list(input@),
{
    proof {
        reveal(spec_parse_counted_item_reference_list);
    }
    let mut previous: String = String::new();
    let items: Vec<String> = input_clauses(input);
    let ghost goal = spec_counted_list_from(contents::views(items@), 0, previous@);
    let mut i: usize = 0;
    while i < items.len()
        invariant
            i <= items@.len(),
            goal == spec_counted_list_from(contents::views(items@), i as int, previous@),
            goal == spec_parse_counted_item_reference_list(input@),
        decreases items@.len() - i,
    {
        assert(contents::views(items@)[i as int] == items@[i as int]@);
        let clause: &str = &items[i];
        let index: usize = i;
        i = i + 1;
        let definition: String = previous.clone();
        previous = clause.to_owned();
        if index > 0 {
            match counted_item_reference(&definition, clause) {
                Some(list) => {
                    return Some(list);
                },
                None => {
                    continue;
                },
            }
        }
    }
    None
}

/// Value of [`compact_shared_predicate_target`].
pub open spec fn spec_compact_shared_predicate_target(target: Seq<char>) -> Seq<char> {
    text::spec_replace_all(text::spec_trim(target), TARGET_SHORT_FORMS@)
}

/// The short form of a target.
pub fn compact_shared_predicate_target(target: &str) -> (r: String)
    ensures
        r@ == spec_compact_shared_predicate_target(target@),
{
    text::replace_all(&text::trim(target), &TARGET_SHORT_FORMS)
}

/// Value of [`compact_targets`].
#[verifier::opaque]
pub open spec fn spec_compact_targets(targets: Seq<Seq<char>>) -> Seq<Seq<char>> {
    targets.map_values(|target: Seq<char>| spec_compact_shared_predicate_target(target))
}

/// The short forms of the targets.
pub fn compact_targets(targets: &Vec<String>) -> (r: Vec<String>)
    ensures
        contents::views(r@) == spec_compact_targets(contents::views(targets@)),
{
    proof {
        reveal(spec_compact_targets);
    }
    let mut out: Vec<String> = Vec::new();
    let mut i: usize = 0;
    while i < targets.len()
        invariant
            i <= targets@.len(),
            out@.len() == i,
            forall|j: int|
                #![trigger contents::views(out@)[j]]
                0 <= j < i ==> contents::views(out@)[j] == spec_compact_shared_predicate_target(contents::views(targets@)[j]),
        decreases targets@.len() - i,
    {
        assert(contents::views(targets@)[i as int] == targets@[i as int]@);
        let target: &str = &targets[i];
        i = i + 1;
        out.push(compact_shared_predicate_target(target));
    }
    assert(contents::views(out@) =~= spec_compact_targets(contents::views(targets@)));
    out
}

/// What [`trim_constraint_discourse_prefix`] comes to from position `i` of the items on.
pub open spec fn spec_history_dropped(items: Seq<&str>, i: int, clause: Seq<char>) -> Seq<char>
    decreases items.len() - i,
{
    if i >= items.len() {
        clause
    } else {
        let marker = items[i]@;
        match text::spec_split_once(clause, marker) {
            Some(parts) => {
                if matching::spec_contains_any_marker(parts.0, HISTORY_MARKERS@)
                    && text::spec_trim(parts.1).len() > 0 {
                    text::spec_trim(parts.1)
                } else {
                    spec_history_dropped(items, i + 1, clause)
                }
            },
            None => spec_history_dropped(items, i + 1, clause),
        }
    }
}

/// Value of [`trim_constraint_discourse_prefix`].
#[verifier::opaque]
pub open spec fn spec_trim_constraint_discourse_prefix(clause: Seq<char>) -> Seq<char> {
    spec_history_dropped(FOCUS_MARKERS@, 0, clause)
}

/// The clause without the history of the request before it.
pub fn trim_constraint_discourse_prefix(clause: &str) -> (r: String)
    ensures
        r@ == spec_trim_constraint_discourse_prefix(clause@),
{
    proof {
        reveal(spec_trim_constraint_discourse_prefix);
    }
    let ghost goal = spec_history_dropped(FOCUS_MARKERS@, 0, clause@);
    let mut i: usize = 0;
    while i < FOCUS_MARKERS.len()
        invariant
            i <= FOCUS_MARKERS@.len(),
            goal == spec_history_dropped(FOCUS_MARKERS@, i as int, clause@),
            goal == spec_trim_constraint_discourse_prefix(clause@),
        decreases FOCUS_MARKERS@.len() - i,
    {
        let marker: &str = FOCUS_MARKERS[i];
        i = i + 1;
        match text::split_once(clause, marker) {
            Some(parts) => {
                if matching::contains_any_marker(&parts.0, &HISTORY_MARKERS)
                    && text::char_count(&text::trim(&parts.1)) > 0 {
                    return text::trim(&parts.1);
                }
            },
            None => {
            },
        }
    }
    clause.to_owned()
}

/// Value of [`compact_constraint_clause`].
#[verifier::opaque]
pub open spec fn spec_compact_constraint_clause(clause: Seq<char>) -> Seq<char> {
    let focused = text::spec_trim(spec_trim_constraint_discourse_prefix(clause));
    match spec_parse_shared_predicate_list(focused) {
        Some(list) => {
            let targets = text::spec_join(spec_compact_targets(list.targets), "/"@);
            targets + list.predicate
        },
        None => {
            let compact = text::spec_replace_all(focused, CLAUSE_SHORT_FORMS@);
            text::spec_trim(
                text::spec_trim_end_any(
                    text::spec_trim(spacing::spec_collapse_plain_spaces(compact)),
                    "。！？"@,
                ),
            )
        },
    }
}

/// The short form of a constraint: the list that it gives, or the clause with long phrases
/// shortened.
pub fn compact_constraint_clause(clause: &str) -> (r: String)
    ensures
        r@ == spec_compact_constraint_clause(clause@),
{
    proof {
        reveal(spec_compact_constraint_clause);
    }
    let focused: String = text::trim(&trim_constraint_discourse_prefix(clause));
    match parse_shared_predicate_list(&focused) {
        Some(list) => {
            let targets: String = text::join(&compact_targets(&list.targets), "/");
            text::concat2(&targets, &list.predicate)
        },
        None => {
            let compact: String = text::replace_all(&focused, &CLAUSE_SHORT_FORMS);
            text::trim(
                &text::trim_end_any(
                    &text::trim(&spacing::collapse_plain_spaces(&compact)),
                    "。！？",
                ),
            )
        },
    }
}

/// Value of [`compact_assignment_segment`].
pub open spec fn spec_compact_assignment_segment(segment: Seq<char>) -> Seq<char> {
    let trimmed = text::spec_trim(segment);
    match text::spec_split_once(trimmed, " は "@) {
        Some(parts) => {
            let left = text::spec_trim(parts.0);
            let right = text::spec_trim(text::spec_trim_end_text(parts.1, " に"@));
            if left.len() == 0 || right.len() == 0 {
                trimmed
            } else {
                left + "="@ + right
            }
        },
        None => trimmed,
    }
}

/// The segment as an assignment, where it says what something is.
pub fn compact_assignment_segment(segment: &str) -> (r: String)
    ensures
        r@ == spec_compact_assignment_segment(segment@),
{
    let trimmed: String = text::trim(segment);
    match text::split_once(&trimmed, " は ") {
        Some(parts) => {
            let left: String = text::trim(&parts.0);
            let right: String = text::trim(&text::trim_end_text(&parts.1, " に"));
            if text::char_count(&left) == 0 || text::char_count(&right) == 0 {
                return trimmed;
            }
            text::concat3(&left, "=", &right)
        },
        None => {
            trimmed
        },
    }
}

/// Value of [`compact_assignment_pieces`].
#[verifier::opaque]
pub open spec fn spec_compact_assignment_pieces(pieces: Seq<Seq<char>>) -> Seq<Seq<char>> {
    pieces.map_values(|piece: Seq<char>| spec_compact_assignment_segment(piece))
}

/// The pieces as assignments, where they say what something is.
pub fn compact_assignment_pieces(pieces: &Vec<String>) -> (r: Vec<String>)
    ensures
        contents::views(r@) == spec_compact_assignment_pieces(contents::views(pieces@)),
{
    proof {
        reveal(spec_compact_assignment_pieces);
    }
    let mut out: Vec<String> = Vec::new();
    let mut i: usize = 0;
    while i < pieces.len()
        invariant
            i <= pieces@.len(),
            out@.len() == i,
            forall|j: int|
                #![trigger contents::views(out@)[j]]
                0 <= j < i ==> contents::views(out@)[j] == spec_compact_assignment_segment(contents::views(pieces@)[j]),
        decreases pieces@.len() - i,
    {
        assert(contents::views(pieces@)[i as int] == pieces@[i as int]@);
        let piece: &str = &pieces[i];
        i = i + 1;
        out.push(compact_assignment_segment(piece));
    }
    assert(contents::views(out@) =~= spec_compact_assignment_pieces(contents::views(pieces@)));
    out
}

/// Value of [`compact_assignment_segments`].
#[verifier::opaque]
pub open spec fn spec_compact_assignment_segments(value: Seq<char>) -> Seq<char> {
    text::spec_join(spec_compact_assignment_pieces(text::spec_split_any(value, "、"@)), "、"@)
}

/// The text with the segments that say what something is written as assignments.
pub fn compact_assignment_segments(value: &str) -> (r: String)
    ensures
        r@ == spec_compact_assignment_segments(value@),
{
    proof {
        reveal(spec_compact_assignment_segments);
    }
    text::join(&compact_assignment_pieces(&text::split_any(value, "、")), "、")
}

/// Value of [`structured_constraint_clause`].
#[verifier::opaque]
pub open spec fn spec_structured_constraint_clause(clause: Seq<char>) -> Option<Seq<char>> {
    match spec_parse_conditional_value_list(clause) {
        Some(condition) => {
            let c1 = text::spec_replace(
                spec_compact_constraint_clause(condition.consequence),
                "へ進む前に"@,
                "前に"@,
            );
            let c2 = text::spec_replace(text::spec_replace(c1, " を返し、"@, "、"@), " の "@, " "@);
            let consequence = spec_compact_assignment_segments(
                text::spec_replace(c2, "に HTTP"@, "にHTTP"@),
            );
            let values = text::spec_join(condition.values, "/"@);
            Some(condition.key + "="@ + values + "のいずれかなら"@ + consequence)
        },
        None => {
            match spec_parse_shared_predicate_list(clause) {
                Some(list) => {
                    let targets = text::spec_join(spec_compact_targets(list.targets), "/"@);
                    Some(targets + list.predicate)
                },
                None => None,
            }
        },
    }
}

/// The short form of a constraint that gives a list of values or of targets.
pub fn structured_constraint_clause(clause: &str) -> (r: Option<String>)
    ensures
        contents::view_option(r) == spec_structured_constraint_clause(clause@),
{
    proof {
        reveal(spec_structured_constraint_clause);
    }
    match parse_conditional_value_list(clause) {
        Some(condition) => {
            let c1: String = text::replace(
                &compact_constraint_clause(&condition.consequence),
                "へ進む前に",
                "前に",
            );
            let c2: String = text::replace(&text::replace(&c1, " を返し、", "、"), " の ", " ");
            let consequence: String = compact_assignment_segments(
                &text::replace(&c2, "に HTTP", "にHTTP"),
            );
            let values: String = text::join(&condition.values, "/");
            Some(text::concat5(&condition.key, "=", &values, "のいずれかなら", &consequence))
        },
        None => {
            match parse_shared_predicate_list(clause) {
                Some(list) => {
                    let targets: String = text::join(&compact_targets(&list.targets), "/");
                    Some(text::concat2(&targets, &list.predicate))
                },
                None => {
                    None
                },
            }
        },
    }
}

/// The clauses that state a constraint are those of the request that hold one of the markers, in
/// whatever case.
pub proof fn constraint_clauses_are_found(input: Seq<char>, clause: Seq<char>)
    ensures
        spec_required_constraint_clauses(input).contains(clause) <==> spec_input_clauses(
            input,
        ).contains(clause) && is_marked(clause),
{
    reveal(spec_required_constraint_clauses);
    reveal(spec_constraint_clauses_among);
    parts::kept_items_were_listed(
        spec_input_clauses(input),
        |clause: Seq<char>|
            matching::spec_holds_marker(text::spec_lowercase(clause), CONSTRAINT_MARKERS@),
        clause,
    );
    markers_are_found(clause);
}

/// The clause holds, in whatever case, a word that forbids, limits, keeps or conditions something.
pub open spec fn is_marked(clause: Seq<char>) -> bool {
    ||| parts::holds_in_some_case(clause, "避け"@)
    ||| parts::holds_in_some_case(clause, "禁止"@)
    ||| parts::holds_in_some_case(clause, "しない"@)
    ||| parts::holds_in_some_case(clause, "できない"@)
    ||| parts::holds_in_some_case(clause, "不要"@)
    ||| parts::holds_in_some_case(clause, "ではなく"@)
    ||| parts::holds_in_some_case(clause, "でなく"@)
    ||| parts::holds_in_some_case(clause, "はみ出さない"@)
    ||| parts::holds_in_some_case(clause, "行わない"@)
    ||| parts::holds_in_some_case(clause, "読み込まず"@)
    ||| parts::holds_in_some_case(clause, "読まない"@)
    ||| parts::holds_in_some_case(clause, "下げない"@)
    ||| parts::holds_in_some_case(clause, "廃止"@)
    ||| parts::holds_in_some_case(clause, "変えず"@)
    ||| parts::holds_in_some_case(clause, "入れない"@)
    ||| parts::holds_in_some_case(clause, "影響させない"@)
    ||| parts::holds_in_some_case(clause, "削除しない"@)
    ||| parts::holds_in_some_case(clause, "消えない"@)
    ||| parts::holds_in_some_case(clause, "消さない"@)
    ||| parts::holds_in_some_case(clause, "変更不可"@)
    ||| parts::holds_in_some_case(clause, "実通信しない"@)
    ||| parts::holds_in_some_case(clause, "送信しない"@)
    ||| parts::holds_in_some_case(clause, "二重作成しない"@)
    ||| parts::holds_in_some_case(clause, "再接続しない"@)
    ||| parts::holds_in_some_case(clause, "再試行しない"@)
    ||| parts::holds_in_some_case(clause, "超えたら"@)
    ||| parts::holds_in_some_case(clause, "再推論せず"@)
    ||| parts::holds_in_some_case(clause, "戻さない"@)
    ||| parts::holds_in_some_case(clause, "参照しない"@)
    ||| parts::holds_in_some_case(clause, "混ぜない"@)
    ||| parts::holds_in_some_case(clause, "混ざらない"@)
    ||| parts::holds_in_some_case(clause, "取りすぎない"@)
    ||| parts::holds_in_some_case(clause, "押さなくても"@)
    ||| parts::holds_in_some_case(clause, "クリア"@)
    ||| parts::holds_in_some_case(clause, "隠れない"@)
    ||| parts::holds_in_some_case(clause, "出さない"@)
    ||| parts::holds_in_some_case(clause, "見せない"@)
    ||| parts::holds_in_some_case(clause, "依存せず"@)
    ||| parts::holds_in_some_case(clause, "保存せず"@)
    ||| parts::holds_in_some_case(clause, "のみ"@)
    ||| parts::holds_in_some_case(clause, "だけ"@)
    ||| parts::holds_in_some_case(clause, "必ず"@)
    ||| parts::holds_in_some_case(clause, "維持"@)
    ||| parts::holds_in_some_case(clause, "残す"@)
    ||| parts::holds_in_some_case(clause, "残して"@)
    ||| parts::holds_in_some_case(clause, "残してほしい"@)
    ||| parts::holds_in_some_case(clause, "テスト"@)
    ||| parts::holds_in_some_case(clause, "確認できる"@)
    ||| parts::holds_in_some_case(clause, "確認したい"@)
    ||| parts::holds_in_some_case(clause, "場合"@)
    ||| parts::holds_in_some_case(clause, "なら"@)
    ||| parts::holds_in_some_case(clause, "ときは"@)
    ||| parts::holds_in_some_case(clause, "時は"@)
    ||| parts::holds_in_some_case(clause, "際は"@)
    ||| parts::holds_in_some_case(clause, "失敗時"@)
    ||| parts::holds_in_some_case(clause, "成功時"@)
    ||| parts::holds_in_some_case(clause, "変えない"@)
    ||| parts::holds_in_some_case(clause, "変更せず"@)
    ||| parts::holds_in_some_case(clause, "変更しない"@)
    ||| parts::holds_in_some_case(clause, "変更なし"@)
    ||| parts::holds_in_some_case(clause, "改変せず"@)
    ||| parts::holds_in_some_case(clause, "改変しない"@)
    ||| parts::holds_in_some_case(clause, "改変なし"@)
    ||| parts::holds_in_some_case(clause, "増やさない"@)
    ||| parts::holds_in_some_case(clause, "増えない"@)
    ||| parts::holds_in_some_case(clause, "増加させない"@)
    ||| parts::holds_in_some_case(clause, "せず"@)
    ||| parts::holds_in_some_case(clause, "行わず"@)
    ||| parts::holds_in_some_case(clause, "作らず"@)
    ||| parts::holds_in_some_case(clause, "戻さず"@)
    ||| parts::holds_in_some_case(clause, "送らず"@)
    ||| parts::holds_in_some_case(clause, "含めず"@)
    ||| parts::holds_in_some_case(clause, "must"@)
    ||| parts::holds_in_some_case(clause, "must not"@)
    ||| parts::holds_in_some_case(clause, "do not"@)
    ||| parts::holds_in_some_case(clause, "don't"@)
    ||| parts::holds_in_some_case(clause, "avoid"@)
    ||| parts::holds_in_some_case(clause, "only"@)
    ||| parts::holds_in_some_case(clause, "without"@)
    ||| parts::holds_in_some_case(clause, "preserve"@)
    ||| parts::holds_in_some_case(clause, "keep"@)
}

/// Markers of constraints are found in whatever case.
proof fn markers_are_found(clause: Seq<char>)
    ensures
        is_marked(clause) <==> matching::spec_holds_marker(
            text::spec_lowercase(clause),
            CONSTRAINT_MARKERS@,
        ),
{
    let words = CONSTRAINT_MARKERS@;
    let lower = text::spec_lowercase(clause);
    markers_are_in_lower_case();
    assert forall|k: int| 0 <= k < words.len() implies (parts::holds_in_some_case(
        clause,
        #[trigger] words[k]@,
    ) <==> text::spec_contains(lower, words[k]@)) by {
        parts::held_in_lower_case(clause, words[k]@);
        parts::lower_case_stays(words[k]@);
    }
    assert(words[0]@ == "避け"@);
    assert(words[1]@ == "禁止"@);
    assert(words[2]@ == "しない"@);
    assert(words[3]@ == "できない"@);
    assert(words[4]@ == "不要"@);
    assert(words[5]@ == "ではなく"@);
    assert(words[6]@ == "でなく"@);
    assert(words[7]@ == "はみ出さない"@);
    assert(words[8]@ == "行わない"@);
    assert(words[9]@ == "読み込まず"@);
    assert(words[10]@ == "読まない"@);
    assert(words[11]@ == "下げない"@);
    assert(words[12]@ == "廃止"@);
    assert(words[13]@ == "変えず"@);
    assert(words[14]@ == "入れない"@);
    assert(words[15]@ == "影響させない"@);
    assert(words[16]@ == "削除しない"@);
    assert(words[17]@ == "消えない"@);
    assert(words[18]@ == "消さない"@);
    assert(words[19]@ == "変更不可"@);
    assert(words[20]@ == "実通信しない"@);
    assert(words[21]@ == "送信しない"@);
    assert(words[22]@ == "二重作成しない"@);
    assert(words[23]@ == "再接続しない"@);
    assert(words[24]@ == "再試行しない"@);
    assert(words[25]@ == "超えたら"@);
    assert(words[26]@ == "再推論せず"@);
    assert(words[27]@ == "戻さない"@);
    assert(words[28]@ == "参照しない"@);
    assert(words[29]@ == "混ぜない"@);
    assert(words[30]@ == "混ざらない"@);
    assert(words[31]@ == "取りすぎない"@);
    assert(words[32]@ == "押さなくても"@);
    assert(words[33]@ == "クリア"@);
    assert(words[34]@ == "隠れない"@);
    assert(words[35]@ == "出さない"@);
    assert(words[36]@ == "見せない"@);
    assert(words[37]@ == "依存せず"@);
    assert(words[38]@ == "保存せず"@);
    assert(words[39]@ == "のみ"@);
    assert(words[40]@ == "だけ"@);
    assert(words[41]@ == "必ず"@);
    assert(words[42]@ == "維持"@);
    assert(words[43]@ == "残す"@);
    assert(words[44]@ == "残して"@);
    assert(words[45]@ == "残してほしい"@);
    assert(words[46]@ == "テスト"@);
    assert(words[47]@ == "確認できる"@);
    assert(words[48]@ == "確認したい"@);
    assert(words[49]@ == "場合"@);
    assert(words[50]@ == "なら"@);
    assert(words[51]@ == "ときは"@);
    assert(words[52]@ == "時は"@);
    assert(words[53]@ == "際は"@);
    assert(words[54]@ == "失敗時"@);
    assert(words[55]@ == "成功時"@);
    assert(words[56]@ == "変えない"@);
    assert(words[57]@ == "変更せず"@);
    assert(words[58]@ == "変更しない"@);
    assert(words[59]@ == "変更なし"@);
    assert(words[60]@ == "改変せず"@);
    assert(words[61]@ == "改変しない"@);
    assert(words[62]@ == "改変なし"@);
    assert(words[63]@ == "増やさない"@);
    assert(words[64]@ == "増えない"@);
    assert(words[65]@ == "増加させない"@);
    assert(words[66]@ == "せず"@);
    assert(words[67]@ == "行わず"@);
    assert(words[68]@ == "作らず"@);
    assert(words[69]@ == "戻さず"@);
    assert(words[70]@ == "送らず"@);
    assert(words[71]@ == "含めず"@);
    assert(words[72]@ == "must"@);
    assert(words[73]@ == "must not"@);
    assert(words[74]@ == "do not"@);
    assert(words[75]@ == "don't"@);
    assert(words[76]@ == "avoid"@);
    assert(words[77]@ == "only"@);
    assert(words[78]@ == "without"@);
    assert(words[79]@ == "preserve"@);
    assert(words[80]@ == "keep"@);
}

/// Markers of constraints are written in lower case.
proof fn markers_are_in_lower_case()
    ensures
        forall|k: int|
            0 <= k < CONSTRAINT_MARKERS@.len() ==> parts::is_in_lower_case(
                #[trigger] CONSTRAINT_MARKERS@[k]@,
            ),
{
    reveal_strlit("避け");
    reveal_strlit("禁止");
    reveal_strlit("しない");
    reveal_strlit("できない");
    reveal_strlit("不要");
    reveal_strlit("ではなく");
    reveal_strlit("でなく");
    reveal_strlit("はみ出さない");
    reveal_strlit("行わない");
    reveal_strlit("読み込まず");
    reveal_strlit("読まない");
    reveal_strlit("下げない");
    reveal_strlit("廃止");
    reveal_strlit("変えず");
    reveal_strlit("入れない");
    reveal_strlit("影響させない");
    reveal_strlit("削除しない");
    reveal_strlit("消えない");
    reveal_strlit("消さない");
    reveal_strlit("変更不可");
    reveal_strlit("実通信しない");
    reveal_strlit("送信しない");
    reveal_strlit("二重作成しない");
    reveal_strlit("再接続しない");
    reveal_strlit("再試行しない");
    reveal_strlit("超えたら");
    reveal_strlit("再推論せず");
    reveal_strlit("戻さない");
    reveal_strlit("参照しない");
    reveal_strlit("混ぜない");
    reveal_strlit("混ざらない");
    reveal_strlit("取りすぎない");
    reveal_strlit("押さなくても");
    reveal_strlit("クリア");
    reveal_strlit("隠れない");
    reveal_strlit("出さない");
    reveal_strlit("見せない");
    reveal_strlit("依存せず");
    reveal_strlit("保存せず");
    reveal_strlit("のみ");
    reveal_strlit("だけ");
    reveal_strlit("必ず");
    reveal_strlit("維持");
    reveal_strlit("残す");
    reveal_strlit("残して");
    reveal_strlit("残してほしい");
    reveal_strlit("テスト");
    reveal_strlit("確認できる");
    reveal_strlit("確認したい");
    reveal_strlit("場合");
    reveal_strlit("なら");
    reveal_strlit("ときは");
    reveal_strlit("時は");
    reveal_strlit("際は");
    reveal_strlit("失敗時");
    reveal_strlit("成功時");
    reveal_strlit("変えない");
    reveal_strlit("変更せず");
    reveal_strlit("変更しない");
    reveal_strlit("変更なし");
    reveal_strlit("改変せず");
    reveal_strlit("改変しない");
    reveal_strlit("改変なし");
    reveal_strlit("増やさない");
    reveal_strlit("増えない");
    reveal_strlit("増加させない");
    reveal_strlit("せず");
    reveal_strlit("行わず");
    reveal_strlit("作らず");
    reveal_strlit("戻さず");
    reveal_strlit("送らず");
    reveal_strlit("含めず");
    reveal_strlit("must");
    reveal_strlit("must not");
    reveal_strlit("do not");
    reveal_strlit("don't");
    reveal_strlit("avoid");
    reveal_strlit("only");
    reveal_strlit("without");
    reveal_strlit("preserve");
    reveal_strlit("keep");
}

/// The character ends a clause.
pub open spec fn ends_a_clause(c: char) -> bool {
    c == '。' || c == '！' || c == '？' || c == '\n' || c == ';' || c == '；'
}

/// The clauses of a request are the parts of it between the marks that end a clause, without the
/// white space around them.
pub proof fn clauses_stand_between_marks(input: Seq<char>, start: int, end: int)
    requires
        0 <= start <= end <= input.len(),
        start > 0 ==> ends_a_clause(input[start - 1]),
        end < input.len() ==> ends_a_clause(input[end]),
        forall|i: int| start <= i < end ==> !ends_a_clause(#[trigger] input[i]),
        text::spec_trim(input.subrange(start, end)).len() > 0,
    ensures
        spec_input_clauses(input).contains(text::spec_trim(input.subrange(start, end))),
{
    marks_end_clauses();
    let set = "。！？\n;；"@;
    assert forall|i: int| start <= i < end implies !set.contains(#[trigger] input[i]) by {
        assert(!ends_a_clause(input[i]));
    }
    parts::parts_between_marks_are_segments(input, set, start, end);
}

/// The marks that end a clause.
proof fn marks_end_clauses()
    ensures
        forall|c: char| "。！？\n;；"@.contains(c) <==> #[trigger] ends_a_clause(c),
{
    reveal_strlit("。！？\n;；");
    let set = "。！？\n;；"@;
    assert(set =~= seq!['。', '！', '？', '\n', ';', '；']);
    assert forall|c: char| set.contains(c) <==> #[trigger] ends_a_clause(c) by {
        assert(set[0] == '。' && set[1] == '！' && set[2] == '？' && set[3] == '\n' && set[4] == ';'
            && set[5] == '；');
        if ends_a_clause(c) {
            assert(set.contains(c));
        }
    }
}

/// A condition on a key is made of what its clause says: the key, three values or more, and what
/// follows. It is announced by one of three phrases.
pub proof fn conditions_are_made_of_their_clause(clause: Seq<char>)
    ensures
        spec_parse_conditional_value_list(clause) matches Some(condition) ==> {
            &&& text::spec_contains(clause, condition.key)
            &&& condition.key.len() > 0
            &&& text::spec_contains(clause, condition.consequence)
            &&& condition.consequence.len() > 0
            &&& condition.values.len() >= 3
            &&& forall|k: int|
                0 <= k < condition.values.len() ==> (#[trigger] condition.values[k]).len() > 0
            &&& text::spec_contains(clause, "のいずれかなら"@) || text::spec_contains(
                clause,
                "のいずれかの場合"@,
            ) || text::spec_contains(clause, "のどれかなら"@)
        },
{
    reveal(spec_parse_conditional_value_list);
    first_splits_go_together(CONDITION_MARKERS@, 0, clause);
    assert(CONDITION_MARKERS@[0]@ == "のいずれかなら"@);
    assert(CONDITION_MARKERS@[1]@ == "のいずれかの場合"@);
    assert(CONDITION_MARKERS@[2]@ == "のどれかなら"@);
    match spec_first_split(clause, CONDITION_MARKERS@) {
        None => {},
        Some(sides) => {
            let items = text::spec_segments(sides.0, "、,"@);
            if items.len() >= 3 {
                parts::segments_are_parts(sides.0, "、,"@, 0);
                match text::spec_split_once(items[0], "が"@) {
                    None => {},
                    Some(subject) => {
                        text::split_texts_go_together(items[0], "が"@);
                        parts::parts_are_held(Seq::empty(), subject.0, "が"@ + subject.1);
                        assert(Seq::<char>::empty() + subject.0 + ("が"@ + subject.1)
                            =~= items[0]);
                        parts::trimmed_texts_are_held(subject.0);
                        parts::held_parts_are_held(items[0], subject.0, text::spec_trim(subject.0));
                        parts::held_parts_are_held(sides.0, items[0], text::spec_trim(subject.0));
                        parts::held_parts_are_held(clause, sides.0, text::spec_trim(subject.0));
                        parts::trimmed_texts_are_held(sides.1);
                        parts::held_parts_are_held(clause, sides.1, text::spec_trim(sides.1));
                        one_value_for_each_item(items, subject.1, items);
                    },
                }
            }
        },
    }
}

/// As many values are listed as there are items.
proof fn one_value_for_each_item(
    items: Seq<Seq<char>>,
    first_value: Seq<char>,
    listed: Seq<Seq<char>>,
)
    ensures
        spec_condition_values_among(items, first_value, listed).len() == items.len(),
    decreases items.len(),
{
    if items.len() > 0 {
        one_value_for_each_item(items.drop_last(), first_value, listed);
    }
}

/// A text that is split at one of several separators holds the separator and both parts.
proof fn first_splits_go_together(items: Seq<&str>, i: int, text: Seq<char>)
    requires
        0 <= i,
    ensures
        spec_split_at_first(items, i, text) matches Some(sides) ==> text::spec_contains(
            text,
            sides.0,
        ) && text::spec_contains(text, sides.1) && exists|k: int|
            i <= k < items.len() && text::spec_contains(text, #[trigger] items[k]@),
    decreases items.len() - i,
{
    if i < items.len() {
        let separator = items[i]@;
        text::split_texts_go_together(text, separator);
        match text::spec_split_once(text, separator) {
            Some((head, tail)) => {
                let none = Seq::<char>::empty();
                parts::parts_are_held(none, head, separator + tail);
                assert(none + head + (separator + tail) =~= text);
                parts::parts_are_held(head + separator, tail, none);
                assert(head + separator + tail + none =~= text);
                parts::parts_are_held(head, separator, tail);
                assert(text::spec_contains(text, items[i]@));
            },
            None => {
                first_splits_go_together(items, i + 1, text);
            },
        }
    }
}

/// A clause counts items where it holds a number from two to twelve before the word for items. The
/// least number that it holds so counts.
pub proof fn counted_items_are_referenced(clause: Seq<char>)
    ensures
        match spec_referenced_item_count(clause) {
            Some(n) => 2 <= n <= 12 && counts_items(clause, n) && forall|m: int|
                2 <= m < n ==> !#[trigger] counts_items(clause, m),
            None => forall|m: int| 2 <= m <= 12 ==> !#[trigger] counts_items(clause, m),
        },
{
    numerals_are_numbers();
    counted_from(clause, 0);
}

/// The clause holds the number before the word for items.
pub open spec fn counts_items(clause: Seq<char>, n: int) -> bool {
    text::spec_contains(clause, text::spec_decimal(n as nat) + "項目"@) || text::spec_contains(
        clause,
        text::spec_decimal(n as nat) + "つ"@,
    )
}

/// The numerals are the numbers from two to twelve.
proof fn numerals_are_numbers()
    ensures
        forall|i: int|
            0 <= i < 11 ==> (#[trigger] COUNT_NUMERALS@[i])@ == text::spec_decimal((i + 2) as nat),
{
    reveal_strlit("2");
    reveal_strlit("3");
    reveal_strlit("4");
    reveal_strlit("5");
    reveal_strlit("6");
    reveal_strlit("7");
    reveal_strlit("8");
    reveal_strlit("9");
    reveal_strlit("10");
    reveal_strlit("11");
    reveal_strlit("12");
    reveal_with_fuel(text::spec_decimal, 2);
    assert(text::spec_decimal(2) =~= "2"@);
    assert(text::spec_decimal(3) =~= "3"@);
    assert(text::spec_decimal(4) =~= "4"@);
    assert(text::spec_decimal(5) =~= "5"@);
    assert(text::spec_decimal(6) =~= "6"@);
    assert(text::spec_decimal(7) =~= "7"@);
    assert(text::spec_decimal(8) =~= "8"@);
    assert(text::spec_decimal(9) =~= "9"@);
    assert(text::spec_decimal(10) =~= "10"@);
    assert(text::spec_decimal(11) =~= "11"@);
    assert(text::spec_decimal(12) =~= "12"@);
}

/// The first numeral from a position on that a clause holds before the word for items.
proof fn counted_from(clause: Seq<char>, i: int)
    requires
        0 <= i <= 11,
        forall|k: int|
            0 <= k < 11 ==> (#[trigger] COUNT_NUMERALS@[k])@ == text::spec_decimal((k + 2) as nat),
    ensures
        match spec_count_referenced(COUNT_NUMERALS@, i, clause) {
            Some(n) => i + 2 <= n <= 12 && counts_items(clause, n) && forall|m: int|
                i + 2 <= m < n ==> !#[trigger] counts_items(clause, m),
            None => forall|m: int| i + 2 <= m <= 12 ==> !#[trigger] counts_items(clause, m),
        },
    decreases 11 - i,
{
    if i < 11 {
        assert(COUNT_NUMERALS@[i]@ == text::spec_decimal((i + 2) as nat));
        assert(counts_items(clause, i + 2) || !counts_items(clause, i + 2));
        counted_from(clause, i + 1);
    }
}

/// An assignment in words becomes one with a sign: what stands before and after the particle stays.
pub proof fn assignments_get_a_sign(left: Seq<char>, right: Seq<char>)
    requires
        left.len() > 0,
        !text::spec_is_whitespace(left[0]),
        !text::spec_is_whitespace(left[left.len() - 1]),
        text::lacks(left, 'は'),
        right.len() > 0,
        !text::spec_is_whitespace(right[0]),
        !text::spec_is_whitespace(right[right.len() - 1]),
        right[right.len() - 1] != 'に',
    ensures
        spec_compact_assignment_segment(left + " は "@ + right) == left + "="@ + right,
        spec_compact_assignment_segment(left + " は "@ + right + " に"@) == left + "="@ + right,
{
    reveal_strlit(" は ");
    reveal_strlit(" に");
    assignment_is_split(left, right);
    assignment_is_split(left, right + " に"@);
    firm_texts_are_trimmed(left);
    firm_texts_are_trimmed(right);
    let short = left + " は "@ + right;
    let long = left + " は "@ + (right + " に"@);
    assert(short[0] == left[0] && short[short.len() - 1] == right[right.len() - 1]);
    assert(long[0] == left[0] && long[long.len() - 1] == 'に');
    firm_texts_are_trimmed(short);
    firm_texts_are_trimmed(long);
    assert(left + " は "@ + right + " に"@ =~= long);
    assert(text::spec_trim_end_text(right, " に"@) == right) by {
        if text::spec_ends_with(right, " に"@) {
            assert(right.subrange(right.len() - 2, right.len() as int)[1] == " に"@[1]);
        }
    }
    let longer = right + " に"@;
    assert(longer.subrange(longer.len() - 2, longer.len() as int) =~= " に"@);
    assert(text::spec_ends_with(longer, " に"@));
    assert(longer.take(longer.len() - 2) =~= right);
}

/// A text that begins and ends with no white space is its own trimmed form.
pub proof fn firm_texts_are_trimmed(text: Seq<char>)
    requires
        text.len() > 0,
        !text::spec_is_whitespace(text[0]),
        !text::spec_is_whitespace(text[text.len() - 1]),
    ensures
        text::spec_trim(text) == text,
{
    let (start, end) = text::trimmed_texts_are_parts(text);
    assert(start == 0 && end == text.len());
    assert(text.subrange(0, text.len() as int) =~= text);
}

/// An assignment in words is split at its particle.
proof fn assignment_is_split(left: Seq<char>, right: Seq<char>)
    requires
        text::lacks(left, 'は'),
    ensures
        text::spec_split_once(left + " は "@ + right, " は "@) == Some((left, right)),
{
    reveal_strlit(" は ");
    let whole = left + " は "@ + right;
    text::split_texts_go_together(whole, " は "@);
    let place = left.len() as int;
    assert(whole.subrange(place, place + 3) =~= " は "@);
    assert(text::occurs_at(whole, " は "@, place));
    match text::spec_split_once(whole, " は "@) {
        Some((head, tail)) => {
            let found = head.len() as int;
            if found < place {
                assert(whole[found + 1] == " は "@[1]);
                if found + 1 < place {
                    assert(whole[found + 1] == left[found + 1]);
                } else {
                    assert(whole[found + 1] == ' ');
                }
            }
            assert(head =~= whole.take(found));
            assert(left =~= whole.take(found));
            assert(tail =~= whole.skip(found + 3));
            assert(right =~= whole.skip(found + 3));
        },
        None => {},
    }
}

/// What a clause says of earlier requests is dropped where it goes on with the present one.
pub proof fn earlier_requests_are_dropped(before: Seq<char>, rest: Seq<char>)
    requires
        text::lacks(before, '今'),
        parts::holds_in_some_case(before, "前にも"@) || parts::holds_in_some_case(before, "以前"@)
            || parts::holds_in_some_case(before, "先ほど"@) || parts::holds_in_some_case(
            before,
            "似た"@,
        ) || parts::holds_in_some_case(before, "同様"@) || parts::holds_in_some_case(
            before,
            "お願い"@,
        ),
        text::spec_trim(rest).len() > 0,
    ensures
        spec_trim_constraint_discourse_prefix(before + "今回は"@ + rest) == text::spec_trim(rest),
{
    reveal(spec_trim_constraint_discourse_prefix);
    reveal_strlit("今回は");
    let whole = before + "今回は"@ + rest;
    let place = before.len() as int;
    text::split_texts_go_together(whole, "今回は"@);
    assert(whole.subrange(place, place + 3) =~= "今回は"@);
    assert(text::occurs_at(whole, "今回は"@, place));
    match text::spec_split_once(whole, "今回は"@) {
        Some((head, tail)) => {
            let found = head.len() as int;
            if found < place {
                assert(whole[found] == "今回は"@[0]);
                assert(whole[found] == before[found]);
            }
            assert(head =~= whole.take(found) && before =~= whole.take(found));
            assert(tail =~= whole.skip(found + 3) && rest =~= whole.skip(found + 3));
        },
        None => {},
    }
    matching::markers_are_found_in_some_case(before, HISTORY_MARKERS@);
    assert(HISTORY_MARKERS@[0]@ == "前にも"@ && HISTORY_MARKERS@[1]@ == "以前"@
        && HISTORY_MARKERS@[2]@ == "先ほど"@ && HISTORY_MARKERS@[3]@ == "似た"@
        && HISTORY_MARKERS@[4]@ == "同様"@ && HISTORY_MARKERS@[5]@ == "お願い"@);
    assert(FOCUS_MARKERS@[0]@ == "今回は"@);
}

/// The short form of a clause with a condition names the key, each value and what follows.
pub proof fn short_conditions_name_their_values(clause: Seq<char>, k: int)
    requires
        spec_parse_conditional_value_list(clause) matches Some(condition) && 0 <= k
            < condition.values.len(),
    ensures
        spec_parse_conditional_value_list(clause) matches Some(condition)
            && spec_structured_constraint_clause(clause) matches Some(short)
            && text::spec_starts_with(short, condition.key + "="@) && text::spec_contains(
            short,
            condition.values[k],
        ) && text::spec_contains(short, "のいずれかなら"@),
{
    reveal(spec_structured_constraint_clause);
    match spec_parse_conditional_value_list(clause) {
        Some(condition) => {
            let values = text::spec_join(condition.values, "/"@);
            let start = condition.key + "="@;
            parts::joined_texts_are_held(condition.values, "/"@, k);
            match spec_structured_constraint_clause(clause) {
                Some(short) => {
                    let end = short.skip((start.len() + values.len()) as int);
                    assert(short =~= start + values + end);
                    parts::held_by_the_whole(start, values, end, condition.values[k]);
                    assert(short.subrange(0, start.len() as int) =~= start);
                    let word = "のいずれかなら"@;
                    let place = (start.len() + values.len()) as int;
                    assert(short.subrange(place, place + word.len()) =~= word);
                    assert(text::occurs_at(short, word, place));
                },
                None => {},
            }
        },
        None => {},
    }
}

/// The short form of a clause with several targets names each of them, and ends with what is said
/// of all.
pub proof fn short_lists_name_their_targets(clause: Seq<char>, k: int)
    requires
        spec_parse_conditional_value_list(clause) is None,
        spec_parse_shared_predicate_list(clause) matches Some(list) && 0 <= k < list.targets.len(),
    ensures
        spec_parse_shared_predicate_list(clause) matches Some(list)
            && spec_structured_constraint_clause(clause) matches Some(short)
            && text::spec_contains(short, spec_compact_shared_predicate_target(list.targets[k]))
            && text::spec_ends_with(short, list.predicate),
{
    reveal(spec_structured_constraint_clause);
    reveal(spec_compact_targets);
    match spec_parse_shared_predicate_list(clause) {
        Some(list) => {
            let targets = spec_compact_targets(list.targets);
            let joined = text::spec_join(targets, "/"@);
            parts::joined_texts_are_held(targets, "/"@, k);
            let short = joined + list.predicate;
            let none = Seq::<char>::empty();
            parts::held_by_the_whole(none, joined, list.predicate, targets[k]);
            assert(none + joined + list.predicate =~= short);
            let size = short.len() as int;
            assert(short.subrange(size - list.predicate.len(), size) =~= list.predicate);
        },
        None => {},
    }
}

/// What is said of several targets is one of these things, and the clause says it.
pub proof fn shared_predicates_are_said(clause: Seq<char>)
    ensures
        spec_parse_shared_predicate_list(clause) matches Some(list) ==> {
            &&& list.targets.len() >= 2
            &&& list.targets.len() == 2 ==> list.predicate == "行わない"@
            &&& list.predicate == "変更しない"@ && text::spec_contains(clause, "変更しない"@)
                || list.predicate == "変えない"@ && text::spec_contains(clause, "変えない"@)
                || list.predicate == "維持"@ && text::spec_contains(clause, "維持してください"@)
                || list.predicate == "保持"@ && text::spec_contains(clause, "保持してください"@)
                || list.predicate == "含めない"@ && text::spec_contains(clause, "含めない"@)
                || list.predicate == "保存しない"@ && text::spec_contains(clause, "保存しない"@)
                || list.predicate == "行わない"@ && text::spec_contains(clause, "行わない"@)
        },
{
    reveal(spec_parse_shared_predicate_list);
    let rows = SHARED_PREDICATES@;
    predicates_are_found(rows, 0, clause);
    assert(rows[0].0@ == "変更しないでください"@ && rows[0].1@ == "変更しない"@);
    assert(rows[1].0@ == "変更しない"@ && rows[1].1@ == "変更しない"@);
    assert(rows[2].0@ == "変えないでください"@ && rows[2].1@ == "変えない"@);
    assert(rows[3].0@ == "変えない"@ && rows[3].1@ == "変えない"@);
    assert(rows[4].0@ == "維持してください"@ && rows[4].1@ == "維持"@);
    assert(rows[5].0@ == "保持してください"@ && rows[5].1@ == "保持"@);
    assert(rows[6].0@ == "含めないでください"@ && rows[6].1@ == "含めない"@);
    assert(rows[7].0@ == "含めない"@ && rows[7].1@ == "含めない"@);
    assert(rows[8].0@ == "保存しないでください"@ && rows[8].1@ == "保存しない"@);
    assert(rows[9].0@ == "保存しない"@ && rows[9].1@ == "保存しない"@);
    assert(rows[10].0@ == "行わないでください"@ && rows[10].1@ == "行わない"@);
    assert(rows[11].0@ == "行わない"@ && rows[11].1@ == "行わない"@);
    polite_forms_hold_the_plain(clause);
}

/// A clause that says something politely says it.
proof fn polite_forms_hold_the_plain(clause: Seq<char>)
    ensures
        text::spec_contains(clause, "変更しないでください"@) ==> text::spec_contains(
            clause,
            "変更しない"@,
        ),
        text::spec_contains(clause, "変えないでください"@) ==> text::spec_contains(
            clause,
            "変えない"@,
        ),
        text::spec_contains(clause, "含めないでください"@) ==> text::spec_contains(
            clause,
            "含めない"@,
        ),
        text::spec_contains(clause, "保存しないでください"@) ==> text::spec_contains(
            clause,
            "保存しない"@,
        ),
        text::spec_contains(clause, "行わないでください"@) ==> text::spec_contains(
            clause,
            "行わない"@,
        ),
{
    reveal_strlit("変更しないでください");
    reveal_strlit("変更しない");
    reveal_strlit("変えないでください");
    reveal_strlit("変えない");
    reveal_strlit("含めないでください");
    reveal_strlit("含めない");
    reveal_strlit("保存しないでください");
    reveal_strlit("保存しない");
    reveal_strlit("行わないでください");
    reveal_strlit("行わない");
    starts_are_said(clause, "変更しないでください"@, "変更しない"@);
    starts_are_said(clause, "変えないでください"@, "変えない"@);
    starts_are_said(clause, "含めないでください"@, "含めない"@);
    starts_are_said(clause, "保存しないでください"@, "保存しない"@);
    starts_are_said(clause, "行わないでください"@, "行わない"@);
}

/// A text that holds a phrase holds its start.
proof fn starts_are_said(clause: Seq<char>, phrase: Seq<char>, start: Seq<char>)
    requires
        start.len() <= phrase.len(),
        phrase.take(start.len() as int) =~= start,
    ensures
        text::spec_contains(clause, phrase) ==> text::spec_contains(clause, start),
{
    if text::spec_contains(clause, phrase) {
        let i = choose|i: int| #[trigger] text::occurs_at(clause, phrase, i);
        assert(clause.subrange(i, i + start.len()) =~= clause.subrange(i, i + phrase.len()).take(
            start.len() as int,
        ));
        assert(text::occurs_at(clause, start, i));
    }
}

/// A predicate that is found is that of a row whose phrase the clause holds.
proof fn predicates_are_found(items: Seq<(&str, &str)>, i: int, clause: Seq<char>)
    requires
        0 <= i,
    ensures
        spec_predicate_of(items, i, clause) matches Some(parts) ==> exists|k: int|
            i <= k < items.len() && text::spec_contains(clause, (#[trigger] items[k]).0@) && parts.1
                == items[k].1@,
    decreases items.len() - i,
{
    if i < items.len() {
        text::lemma_rfind_from(clause, items[i].0@, clause.len() as int);
        match text::spec_rfind(clause, items[i].0@) {
            Some(index) => {
                assert(text::spec_contains(clause, items[i].0@));
            },
            None => {
                predicates_are_found(items, i + 1, clause);
            },
        }
    }
}

/// The text says that something is done.
pub open spec fn says_an_action(text: Seq<char>) -> bool {
    ||| parts::holds_in_some_case(text, "維持し"@)
    ||| parts::holds_in_some_case(text, "保持し"@)
    ||| parts::holds_in_some_case(text, "含め"@)
    ||| parts::holds_in_some_case(text, "追加し"@)
    ||| parts::holds_in_some_case(text, "返し"@)
    ||| parts::holds_in_some_case(text, "行い"@)
    ||| parts::holds_in_some_case(text, "してください"@)
    ||| parts::holds_in_some_case(text, "変更し"@)
}

/// Targets are clauses of their own where one of them says that something is done.
pub proof fn targets_that_are_clauses(targets: Seq<Seq<char>>)
    ensures
        spec_any_action(targets) <==> exists|i: int|
            0 <= i < targets.len() && says_an_action(#[trigger] targets[i]),
{
    reveal(spec_any_action);
    let words = ACTION_MARKERS@;
    assert(words[0]@ == "維持し"@);
    assert(words[1]@ == "保持し"@);
    assert(words[2]@ == "含め"@);
    assert(words[3]@ == "追加し"@);
    assert(words[4]@ == "返し"@);
    assert(words[5]@ == "行い"@);
    assert(words[6]@ == "してください"@);
    assert(words[7]@ == "変更し"@);
    assert forall|i: int| 0 <= i < targets.len() implies (matching::spec_contains_any_marker(
        #[trigger] targets[i],
        words,
    ) <==> says_an_action(targets[i])) by {
        matching::markers_are_found_in_some_case(targets[i], words);
    }
}

} // verus!
