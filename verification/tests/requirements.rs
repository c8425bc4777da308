use prompt_compressor::compression::numbers::{
    extract_all_numbers, extract_numbers, preserves_requested_numbers, requested_numbers,
};
use prompt_compressor::runtime::constraints::preserves_negative_constraints;
use prompt_compressor::runtime::matching::{
    absent_terms, contains_ascii_case_insensitive, contains_word,
};
use prompt_compressor::runtime::noise::{
    is_obvious_unrelated_noise_segment, without_noise_segments,
};
use prompt_compressor::runtime::preprocess::preprocess_input_for_llm;
use prompt_compressor::runtime::restoration::{
    best_soft_cut, with_required_constraints, with_required_terms,
};
use prompt_compressor::runtime::spacing::{
    collapse_plain_spaces, compacted_lines, normalize_input_whitespace,
};
use prompt_compressor::runtime::terms::required_technical_terms;
use prompt_compressor::runtime::typos::replace_exact_ascii_token;

const REQUEST: &str = "現在の検索画面では、商品一覧の表示にとても時間がかかっています。Redisのキャッシュを導入して、応答時間を短縮するように実装してください。既存のAPIは変更しないでください。";

fn texts(values: &[&str]) -> Vec<String> {
    values.iter().map(|value| value.to_string()).collect()
}

#[test]
fn runs_of_spaces_and_tabs_become_one_space() {
    assert_eq!(collapse_plain_spaces("a \t  b\tc"), "a b c");
}

#[test]
fn blank_lines_do_not_follow_each_other() {
    assert_eq!(
        compacted_lines(&texts(&["", "first", "", "  ", "second"])),
        texts(&["first", "", "second"])
    );
    assert_eq!(normalize_input_whitespace("first\n\n\nsecond\n\n"), "first\n\nsecond");
}

#[test]
fn identifiers_are_words_of_their_own() {
    assert!(contains_word("read user_id first", "user_id"));
    assert!(!contains_word("read user_id first", "user"));
    assert!(contains_word("userをuser_idに", "user"));
}

#[test]
fn absent_terms_are_told_from_present_ones() {
    assert_eq!(
        absent_terms(&texts(&["Redis", "Kafka"]), "redisを使う"),
        texts(&["Kafka"])
    );
}

#[test]
fn required_terms_are_put_back() {
    let prompt = "キャッシュ導入で応答時間を短縮";
    let restored = with_required_terms(REQUEST, prompt);
    let terms = required_technical_terms(REQUEST);
    assert!(terms.contains(&"Redis".to_string()));
    assert!(!contains_ascii_case_insensitive(prompt, "Redis"));
    for term in terms {
        assert!(contains_ascii_case_insensitive(&restored, &term), "{restored}");
    }
}

#[test]
fn required_constraints_are_put_back() {
    let prompt = "Redisのキャッシュ導入で検索画面の応答時間を短縮。API";
    assert!(!preserves_negative_constraints(REQUEST, prompt));
    let restored = with_required_constraints(REQUEST, true, prompt);
    assert!(preserves_negative_constraints(REQUEST, &restored), "{restored}");
    assert!(restored.chars().count() < REQUEST.chars().count());
}

#[test]
fn cleaned_requests_keep_what_they_forbid() {
    let input = "お疲れ様です。お手数ですが、ログイン画面の表示崩れを修正してください。APIは変更しないでください。よろしくお願いいたします。";
    let cleaned = preprocess_input_for_llm(input);
    assert!(cleaned.chars().count() < input.chars().count(), "{cleaned}");
    assert!(cleaned.contains("API"));
    assert!(preserves_negative_constraints(input, &cleaned), "{cleaned}");
}

#[test]
fn requests_hold_the_numbers_that_they_ask_for() {
    let input = "3件のログを確認し、タイムアウトを30秒に変更してください。HTTP 500エラーが出ています。";
    let all = extract_all_numbers(input);
    assert_eq!(all, texts(&["3", "30", "500"]));
    for number in extract_numbers(input) {
        assert!(all.contains(&number));
    }
    for number in requested_numbers(input) {
        assert!(all.contains(&number));
    }
    assert!(preserves_requested_numbers(input, input));
    assert!(!preserves_requested_numbers(input, "3件のログを確認"));
    let kept = "3件のログ、30秒、HTTP 500";
    assert!(preserves_requested_numbers(input, kept));
    assert!(preserves_requested_numbers(input, &format!("{kept}。7 件も確認")));
    assert!(preserves_requested_numbers(input, &format!("{kept} 7")));
    assert!(!preserves_requested_numbers(input, &format!("{kept}7")));
}

#[test]
fn noise_is_dropped_by_sentences() {
    let input = "検索画面を修正してください。asdf これは意味ないです。保存は確認してください";
    assert_eq!(
        without_noise_segments(input),
        "検索画面を修正してください。保存は確認してください"
    );
    assert_eq!(without_noise_segments("一つ目。\n二つ目！"), "一つ目。\n二つ目！");
}

#[test]
fn needed_sentences_are_not_dropped() {
    assert!(is_obvious_unrelated_noise_segment("これは意味ないです。"));
    assert!(!is_obvious_unrelated_noise_segment(
        "これは意味ないですが、APIのテストは3件追加。"
    ));
    assert!(!is_obvious_unrelated_noise_segment("。"));
}

#[test]
fn misspellings_within_longer_identifiers_are_kept() {
    assert_eq!(
        replace_exact_ascii_token("dryrunner dryrun my_dryrun", "dryrun", "dryRun"),
        "dryrunner dryRun my_dryrun"
    );
    assert_eq!(replace_exact_ascii_token("dryrun", "", "dryRun"), "dryrun");
}

#[test]
fn normalized_requests_are_tidy_and_stay_so() {
    let input = "\n\n\u{3000}一行目\u{3000}\u{3000}です \r\n\r\n\r\n  字下げ  行\t\r> 引用  文\n`a  b`  の  値\n\n";
    let tidy = normalize_input_whitespace(input);
    assert_eq!(normalize_input_whitespace(&tidy), tidy);
    assert!(!tidy.contains(['\r', '\u{3000}']));
    assert!(!tidy.contains("\n\n\n"));
    assert!(!tidy.starts_with('\n') && !tidy.ends_with('\n'));
    assert!(tidy.lines().all(|line| line.trim_end() == line));
    assert!(tidy.ends_with("`a  b` の 値"), "{tidy}");
}

#[test]
fn texts_are_cut_before_the_last_mark_with_enough_before_it() {
    assert_eq!(best_soft_cut("一つ、二つ、三つ", 3), "一つ、二つ");
    assert_eq!(best_soft_cut("一つ、二つ、三つ", 6), "一つ、二つ、三つ");
    assert_eq!(best_soft_cut("a  /b", 1), "a");
}
