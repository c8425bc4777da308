//! Estimates of tokens.
use prompt_compressor::compression::token_estimator::SimpleTokenEstimator;

#[test]
fn estimates_japanese_text_as_more_than_one_token() {
    let estimate = SimpleTokenEstimator.estimate(
        "検索ボタンを押したときだけAPIを呼び出してください。",
        "codex_default",
    );

    assert!(estimate > 10);
}

#[test]
fn estimates_a_shorter_japanese_prompt_as_fewer_tokens() {
    let estimator = SimpleTokenEstimator;
    let original = "検索ボタンを押したときだけAPIを呼び出し、URLクエリを保持してください。既存のuseSearchParamsを使い、大きなリファクタは避けてください。";
    let compressed = "検索ボタン押下時のみAPIを呼び出し、URLクエリとuseSearchParamsを保持。大規模なリファクタは避ける。";

    assert!(
        estimator.estimate(original, "codex_default")
            > estimator.estimate(compressed, "codex_default")
    );
}

#[test]
fn estimates_english_words_and_identifiers() {
    let estimate = SimpleTokenEstimator.estimate(
        "Keep useSearchParams and URL query parameters.",
        "codex_default",
    );

    assert!(estimate >= 8);
}

#[test]
fn estimates_add_up_over_white_space() {
    let estimator = SimpleTokenEstimator;
    let estimate = |text: &str| estimator.estimate(text, "codex_default");
    assert_eq!(estimate("12"), 1);
    assert_eq!(estimate("12 12"), 2);
    assert_eq!(estimate("1212"), 2);
    assert_eq!(estimate("123123"), 2);
    assert_eq!(estimate("ab"), 1);
    assert_eq!(estimate("abab"), 1);
    for (first, second) in [("ab", "ab"), ("検索", "する。"), (" a ", "\t"), ("", ""), ("API", "400!")] {
        for space in [' ', '\n', '\u{3000}'] {
            assert_eq!(
                estimate(&format!("{first}{space}{second}")),
                estimate(first) + estimate(second)
            );
        }
    }
}
