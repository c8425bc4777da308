//! What a request goes through before a model reads it.
use vstd::prelude::*;
use crate::runtime::constraints;
use crate::contents;
use crate::runtime::corrections;
use crate::runtime::matching;
use crate::runtime::noise;
use crate::runtime::spacing;
use crate::runtime::spans;
use crate::runtime::terms;
use crate::text;
use crate::runtime::typos;

verus! {

broadcast use crate::contents::group_contents;

/// Long and polite phrases with their short forms.
pub const POLITE_SHORT_FORMS: [(&'static str, &'static str); 55] = [
    ("なんですけど ", "で"),
    ("なんですけど、", "で"),
    ("えっと", ""),
    ("を直してほしいです", "を修正"),
    ("を呼び出してください", "呼出"),
    ("を作成してください", "作成"),
    ("を追加してください", "追加"),
    ("を実装してください", "実装"),
    ("を修正してください", "修正"),
    ("を確認してください", "確認"),
    ("を調べてください", "調査"),
    ("を整理してください", "整理"),
    ("をまとめてください", "整理"),
    ("を提案してください", "提案"),
    ("を検証してください", "検証"),
    ("を更新してください", "更新"),
    ("を保持してください", "保持"),
    ("を維持してください", "維持"),
    ("を返してください", "返却"),
    ("をコピーしてください", "コピー"),
    ("を出してください", "出力"),
    ("バー内に収まり", "はみ出さない"),
    ("バー内に収め", "はみ出さない"),
    ("データ混在禁止", "データ混ざらない"),
    ("検索じょうたい", "検索状態"),
    ("検索状態は残してください", "検索状態維持"),
    ("検索状態は残してほしいです", "検索状態維持"),
    ("検索状態は残してほしい", "検索状態維持"),
    ("検索状態は残して", "検索状態維持"),
    ("検索状態は残す", "検索状態維持"),
    ("検索状態は残", "検索状態維持"),
    ("触らず", "触らない"),
    ("やめてください", "やめる"),
    ("やめて", "やめる"),
    ("残してください", "残す"),
    ("残してほしいです", "残す"),
    ("残してほしい", "残す"),
    ("残して", "残す"),
    ("ユーザーが任意のローカルモデルを検証するために残すこと", "任意ローカルモデル検証用に残す"),
    ("ユーザーが任意モデルを試すために残す", "任意モデル用に残す"),
    ("採用中の ", ""),
    ("が毎回依存関係を再インストールしていて遅い", "の再インストール遅延"),
    ("を使って npm のキャッシュを有効化して", "でnpmキャッシュ有効化"),
    ("テストコマンド npm test と lint は変更しないで", "npm test/lint変更しない"),
    ("キャッシュが効かなかった場合でも CI が失敗しないようにし", "キャッシュ無効でもCI失敗しない"),
    ("ログでキャッシュヒットの有無を確認できるようにして", "ログでキャッシュヒット確認"),
    ("既存の useSearchParams による URL クエリ管理は維持し、ページ番号を変更しても検索条件と検索状態が消えないようにしてください", "useSearchParams URL管理維持、ページ変更時も検索条件/状態維持"),
    ("ページ番号を変更しても検索条件と検索状態が消えないようにしてください", "ページ変更時も検索条件/状態維持"),
    ("TypeScript の既存構造はなるべく活かし、大規模なリファクタリングや画面全体の作り直しは避けてください", "TypeScript既存構造維持、大規模リファクタリング/画面作り直し回避"),
    ("大規模なリファクタリング", "大規模リファクタリング"),
    ("画面全体の作り直し", "画面作り直し"),
    ("避けてください", "回避"),
    ("お願いいたします", ""),
    ("お願い致します", ""),
    ("お願いします", ""),
];

/// Value of [`shorten_polite_phrases`].
pub open spec fn spec_shorten_polite_phrases(span: Seq<char>) -> Seq<char> {
    text::spec_replace_all(span, POLITE_SHORT_FORMS@)
}

/// The text with long and polite phrases shortened.
pub fn shorten_polite_phrases(span: &str) -> (r: String)
    ensures
        r@ == spec_shorten_polite_phrases(span@),
{
    text::replace_all(span, &POLITE_SHORT_FORMS)
}

/// Value of [`remove_polite_request_fillers`].
#[verifier::opaque]
pub open spec fn spec_remove_polite_request_fillers(output: Seq<char>) -> Seq<char> {
    text::spec_trim(
        spans::spec_map_unquoted_spans(output, |s: Seq<char>| spec_shorten_polite_phrases(s)),
    )
}

/// The text with long and polite phrases outside quoted literals shortened, trimmed.
pub fn remove_polite_request_fillers(output: &str) -> (r: String)
    ensures
        r@ == spec_remove_polite_request_fillers(output@),
{
    proof {
        reveal(spec_remove_polite_request_fillers);
    }
    text::trim(
        &spans::map_unquoted_spans(
            output,
            shorten_polite_phrases,
            Ghost(|s: Seq<char>| spec_shorten_polite_phrases(s)),
        ),
    )
}

/// The condition of [`preserves_preprocess_required_terms`]: the candidate holds every required
/// term of the original, as written or corrected.
#[verifier::opaque]
pub open spec fn spec_preserves_preprocess_required_terms(
    original: Seq<char>,
    candidate: Seq<char>,
) -> bool {
    let terms = terms::spec_required_technical_terms(original);
    forall|i: int|
        #![trigger terms[i]] 0 <= i < terms.len() ==> (matching::spec_contains_ascii_case_insensitive(
            candidate,
            terms[i],
        )
                || matching::spec_contains_ascii_case_insensitive(
                    candidate,
                    typos::spec_apply_known_input_typo_replacements(terms[i]),
                ))
}

/// Whether the candidate holds every required term of the original, as written or corrected.
pub fn preserves_preprocess_required_terms(original: &str, candidate: &str) -> (r: bool)
    ensures
        r == spec_preserves_preprocess_required_terms(original@, candidate@),
{
    proof {
        reveal(spec_preserves_preprocess_required_terms);
    }
    let terms: Vec<String> = terms::required_technical_terms(original);
    let mut i: usize = 0;
    while i < terms.len()
        invariant
            i <= terms@.len(),
            contents::views(terms@) == terms::spec_required_technical_terms(original@),
            forall|j: int|
                #![trigger contents::views(terms@)[j]] 0 <= j < i ==> (matching::spec_contains_ascii_case_insensitive(
                    candidate@,
                    contents::views(terms@)[j],
                )
                    || matching::spec_contains_ascii_case_insensitive(
                        candidate@,
                        typos::spec_apply_known_input_typo_replacements(contents::views(terms@)[j]),
                    )),
        decreases terms@.len() - i,
    {
        proof {
            reveal(spec_preserves_preprocess_required_terms);
        }
        let term: &str = &terms[i];
        assert(contents::views(terms@)[i as int] == terms@[i as int]@);
        if !(matching::contains_ascii_case_insensitive(candidate, term)
            || matching::contains_ascii_case_insensitive(
                candidate,
                &typos::apply_known_input_typo_replacements(term),
            )) {
            return false;
        }
        i = i + 1;
    }
    true
}

/// The condition of [`preprocessed_input_is_safe`]: the candidate is at least a third as long as
/// the original and keeps its constraints and terms.
#[verifier::opaque]
pub open spec fn spec_preprocessed_input_is_safe(original: Seq<char>, candidate: Seq<char>) -> bool {
    let trimmed = text::spec_trim(candidate);
    trimmed.len() > 0
        && trimmed.len() * 3 >= text::spec_trim(original).len()
        && constraints::spec_preserves_negative_constraints(original, trimmed)
        && spec_preserves_preprocess_required_terms(original, trimmed)
}

/// Whether the candidate is at least a third as long as the original and keeps its constraints
/// and terms.
pub fn preprocessed_input_is_safe(original: &str, candidate: &str) -> (r: bool)
    ensures
        r == spec_preprocessed_input_is_safe(original@, candidate@),
{
    proof {
        reveal(spec_preprocessed_input_is_safe);
    }
    let trimmed: String = text::trim(candidate);
    text::char_count(&trimmed) > 0
        && (text::char_count(&trimmed) as u128) * 3
            >= text::char_count(&text::trim(original)) as u128
        && constraints::preserves_negative_constraints(original, &trimmed)
        && preserves_preprocess_required_terms(original, &trimmed)
}

/// Value of [`preprocess_input_for_llm`].
#[verifier::opaque]
pub open spec fn spec_preprocess_input_for_llm(input: Seq<char>) -> Seq<char> {
    let normalized = spacing::spec_normalize_input_whitespace(input);
    let corrected = corrections::spec_normalize_self_correction_artifacts(
        typos::spec_normalize_known_input_typos_for_llm(
            noise::spec_remove_obvious_input_noise(normalized),
        ),
    );
    let cleaned = spec_remove_polite_request_fillers(corrected);
    if spec_preprocessed_input_is_safe(corrected, cleaned) {
        cleaned
    } else {
        normalized
    }
}

/// The request cleaned and shortened for a model; only its white space is normalized where
/// anything more would lose what it asks for.
pub fn preprocess_input_for_llm(input: &str) -> (r: String)
    ensures
        r@ == spec_preprocess_input_for_llm(input@),
{
    proof {
        reveal(spec_preprocess_input_for_llm);
    }
    let normalized: String = spacing::normalize_input_whitespace(input);
    let corrected: String = corrections::normalize_self_correction_artifacts(
        &typos::normalize_known_input_typos_for_llm(
            &noise::remove_obvious_input_noise(&normalized),
        ),
    );
    let cleaned: String = remove_polite_request_fillers(&corrected);
    if preprocessed_input_is_safe(&corrected, &cleaned) {
        return cleaned;
    }
    normalized
}

/// A request that is cleaned for a model is as it was but for its white space, or keeps the
/// negations and required terms that it had before polite words were taken out.
pub proof fn cleaned_requests_keep_requirements(input: Seq<char>)
    ensures
        ({
            let spaced = spacing::spec_normalize_input_whitespace(input);
            let corrected = corrections::spec_normalize_self_correction_artifacts(
                typos::spec_normalize_known_input_typos_for_llm(
                    noise::spec_remove_obvious_input_noise(spaced),
                ),
            );
            let result = spec_preprocess_input_for_llm(input);
            let trimmed = text::spec_trim(result);
            result == spaced || (trimmed.len() > 0
                && constraints::spec_preserves_negative_constraints(corrected, trimmed)
                && spec_preserves_preprocess_required_terms(corrected, trimmed))
        }),
{
    reveal(spec_preprocess_input_for_llm);
    reveal(spec_preprocessed_input_is_safe);
}

} // verus!
