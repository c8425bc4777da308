use prompt_compressor::compression::numbers::{
    extract_all_numbers, extract_numbers, preserves_requested_numbers, requested_numbers,
};
use prompt_compressor::compression::service::CompressionService;
use prompt_compressor::compression::token_estimator::SimpleTokenEstimator;
use prompt_compressor::config::profile::{ProfileDefinition, ProfileRegistry};
use prompt_compressor::error::CompressionError;
use prompt_compressor::runtime::backend::{NoopRuntimeBackend, RuntimeBackend};
use prompt_compressor::runtime::draft::CompressionDraft;
use prompt_compressor::runtime::output_parser::{
    parse_compression_output, parse_model_compression_json,
};
use prompt_compressor::runtime::spans::{contains_marker_outside_literal_spans, quoted_spans};
use prompt_compressor::types::{
    CompressionConstraints, CompressionLevel, CompressionRequest, RequestSource, RequestTarget,
};

struct Answering(&'static str);

impl RuntimeBackend for Answering {
    fn compress(
        &self,
        _request: &CompressionRequest,
        _profile: &ProfileDefinition,
    ) -> Result<CompressionDraft, CompressionError> {
        Ok(CompressionDraft {
            distilled_prompt: self.0.to_string(),
            removed_content_summary: vec!["挨拶".to_string()],
        })
    }
}

fn request(input: &str, level: u8) -> CompressionRequest {
    CompressionRequest {
        input_text: input.to_string(),
        compression_level: CompressionLevel::from_u8(level).expect("valid level"),
        profile: "internal_llm".to_string(),
        constraints: CompressionConstraints::default(),
        target: RequestTarget::codex_default(),
        source: RequestSource::Cli,
    }
}

#[test]
fn a_shorter_answer_that_keeps_everything_is_sent() {
    let service = CompressionService::new(
        ProfileRegistry::bootstrap(),
        Answering("README.mdを簡潔に整理。"),
    );
    let result = service
        .compress(request("いつもお世話になっております。README.mdの説明を短く整理してください。", 2))
        .expect("answer");
    assert_eq!(result.distilled_prompt, "README.mdを簡潔に整理。");
    assert!(!result.should_send_original);
    assert!(result.fallback_reason.is_none());
    assert_eq!(result.removed_content_summary, ["挨拶"]);
    assert_eq!(result.model_id, "sarashina_2_2_3b_instruct_q4_k_s");
    assert_eq!(result.runtime, "llama_cpp_embedded");
    assert_eq!(result.metrics.output_characters, 16);
    assert!(result
        .preserved_requirements
        .iter()
        .any(|kept| kept.text == "preserve_file_names"));
}

#[test]
fn reasons_are_put_in_a_sentence_where_a_draft_gives_way() {
    let input = "config.yamlの処理を変更しないでください。";
    let lost = CompressionService::new(ProfileRegistry::bootstrap(), Answering("処理を変更"))
        .compress(request(input, 2))
        .expect("answer");
    assert_eq!(lost.distilled_prompt, input);
    assert_eq!(
        lost.fallback_reason.as_deref(),
        Some("原文返し理由: 圧縮結果の要件保持を確認できませんでした（verification_failed: preserve_file_names, preserve_negations）。原文を返しました。")
    );
    let blank = CompressionService::new(ProfileRegistry::bootstrap(), Answering("  "))
        .compress(request(input, 2))
        .expect("answer");
    assert_eq!(blank.distilled_prompt, input);
    assert_eq!(blank.fallback_reason.as_deref(), Some("empty_distilled_prompt"));
}

#[test]
fn every_answer_has_an_identifier_of_its_own() {
    let service = CompressionService::new(ProfileRegistry::bootstrap(), NoopRuntimeBackend);
    let first = service.compress(request("依頼", 2)).expect("answer").request_id;
    let second = service.compress(request("依頼", 2)).expect("answer").request_id;
    assert_ne!(first, second);
    for id in [first, second] {
        let groups: Vec<usize> = id.split('-').map(|group| group.len()).collect();
        assert_eq!(groups, [8, 4, 4, 4, 12]);
        assert_eq!(id.chars().nth(14), Some('4'));
        assert!(id.chars().all(|c| c == '-' || c.is_ascii_digit() || ('a'..='f').contains(&c)));
    }
}

#[test]
fn level_zero_hands_the_original_back() {
    let service = CompressionService::new(ProfileRegistry::bootstrap(), Answering("短い"));
    let input = "  README.mdを直してください。\n";
    let result = service.compress(request(input, 0)).expect("answer");
    assert_eq!(result.distilled_prompt, input.trim());
    assert_eq!(result.metrics.input_tokens_est, result.metrics.output_tokens_est);
}

#[test]
fn nothing_and_strangers_are_refused() {
    let service = CompressionService::new(ProfileRegistry::bootstrap(), NoopRuntimeBackend);
    assert!(matches!(
        service.compress(request(" \n\u{3000}", 2)),
        Err(CompressionError::EmptyInput)
    ));
    let mut strange = request("依頼", 2);
    strange.profile = "nobody".to_string();
    assert!(matches!(
        service.compress(strange),
        Err(CompressionError::UnknownProfile(name)) if name == "nobody"
    ));
    assert_eq!(service.list_profiles(), ["internal_llm", "lmstudio_local"]);
    assert!(!service.prepare(request("依頼", 2)).expect("nothing to prepare"));
}

#[test]
fn profiles_are_compared_one_by_one() {
    let service = CompressionService::new(ProfileRegistry::bootstrap(), NoopRuntimeBackend);
    let names = ["lmstudio_local".to_string(), "nobody".to_string(), "internal_llm".to_string()];
    let results = service.compare_profiles(request("依頼", 2), &names);
    assert_eq!(results.len(), 3);
    assert_eq!(results[0].as_ref().expect("answer").profile, "lmstudio_local");
    assert!(matches!(&results[1], Err(CompressionError::UnknownProfile(name)) if name == "nobody"));
    assert_eq!(results[2].as_ref().expect("answer").profile, "internal_llm");
}

#[test]
fn a_disconnected_runtime_hands_requests_back() {
    let registry = ProfileRegistry::bootstrap();
    let profile = registry.resolve("internal_llm").expect("profile");
    let draft = NoopRuntimeBackend
        .compress(&request(" 依頼 ", 2), profile)
        .expect("draft");
    assert_eq!(draft.distilled_prompt, "依頼");
    assert_eq!(
        draft.removed_content_summary,
        ["No runtime backend is connected yet; returning passthrough output for profile 'internal_llm'."]
    );
}

#[test]
fn numbers_are_asked_for_unless_a_reported_status_gives_way() {
    assert_eq!(extract_all_numbers("a1b22c1"), ["1", "22"]);
    assert_eq!(extract_numbers("3ではなく5にする。7は関係ありません。"), ["5"]);
    let report = "保存すると 500 エラーになっています。HTTP 400 を返すよう修正してください。";
    assert_eq!(extract_numbers(report), ["500", "400"]);
    assert_eq!(requested_numbers(report), ["400"]);
    assert!(preserves_requested_numbers(report, "HTTP 400 を返す"));
    assert!(!preserves_requested_numbers(report, "HTTP 500 を返す"));
    assert_eq!(requested_numbers("500 エラーになっています。"), ["500"]);
    let unanswered = "保存すると 500 エラーになっています。入力を検証するよう修正してください。";
    assert_eq!(requested_numbers(unanswered), ["500"]);
    let named_again =
        "保存すると 500 エラーになっています。500 の代わりに HTTP 400 を返すよう修正してください。";
    assert_eq!(requested_numbers(named_again), ["500", "400"]);
    let counted = "3 回保存すると 500 エラーになっています。HTTP 400 を返すよう修正してください。";
    assert_eq!(requested_numbers(counted), ["3", "400"]);
    let code = "保存すると 12 エラーになっています。HTTP 400 を返すよう修正してください。";
    assert_eq!(requested_numbers(code), ["12", "400"]);
    assert_eq!(requested_numbers("現在は 30 秒です。60 秒に変更してください。"), ["30", "60"]);
}

#[test]
fn fields_that_are_given_twice_are_read_as_aliases() {
    let repeated = parse_model_compression_json(
        "{\"distilled_prompt\":\"a\",\"distilled_prompt\":\" \"}",
    );
    assert!(repeated
        .expect_err("no prompt")
        .message()
        .contains("duplicate field `distilled_prompt`"));
    let repeated = parse_model_compression_json(
        "{\"distilled_prompt\":\"a\",\"distilled_prompt\":\" b \"}",
    )
    .expect("draft");
    assert_eq!(repeated.distilled_prompt, "b");
    let once = parse_model_compression_json("{\"distilled_prompt\":\" b \"}").expect("draft");
    assert_eq!(once.distilled_prompt, " b ");
    let repeated = parse_model_compression_json(
        "{\"distilled_prompt\":\" a \",\"removed_content_summary\":[\"x\"],\"removed_content_summary\":[\" \",\"y \"]}",
    )
    .expect("draft");
    assert_eq!(repeated.distilled_prompt, "a");
    assert_eq!(repeated.removed_content_summary, ["y"]);
}

#[test]
fn outputs_of_models_are_read_in_many_forms() {
    let draft = parse_compression_output(
        "```json\n{\"distilled_prompt\": \"a\\u0062\\n\", \"removed_content_summary\": [\"x\", \"y\"]}\n```",
    )
    .expect("draft");
    assert_eq!(draft.distilled_prompt, "ab");
    assert_eq!(draft.removed_content_summary, ["x", "y"]);
    assert_eq!(
        parse_compression_output("\"短縮した依頼\"").expect("draft").distilled_prompt,
        "短縮した依頼"
    );
    assert_eq!(
        parse_model_compression_json("{\"output\":\"a\",\"removed\":[\" b \", 3, \" \"]}")
            .expect("draft")
            .removed_content_summary,
        ["b"]
    );
    assert!(parse_model_compression_json("[1]").is_err());
    assert!(parse_model_compression_json("[]").is_err());
    assert!(parse_model_compression_json("[\"a\",[],[]]").is_err());
    let listed = parse_model_compression_json("[\"a\",[\"b\"]]").expect("draft");
    assert_eq!(listed.distilled_prompt, "a");
    assert_eq!(listed.removed_content_summary, ["b"]);
    let listed = parse_model_compression_json("[ \"\\u0061\" ]").expect("draft");
    assert_eq!(listed.distilled_prompt, "a");
    assert!(listed.removed_content_summary.is_empty());
    assert!(parse_model_compression_json("{\"other\":1}").is_err());
    assert_eq!(
        parse_compression_output("no object").err().expect("nothing").message(),
        "runtime error: llama.cpp output did not contain JSON; output starts with: no object"
    );
}

#[test]
fn braces_out_of_order_are_no_object_but_may_stand_in_a_text() {
    assert_eq!(parse_compression_output("\"} x {\"").expect("string").distilled_prompt, "} x {");
    assert_eq!(
        parse_compression_output("\"distilled_prompt\":\"} {\"")
            .expect("wrapped")
            .distilled_prompt,
        "} {"
    );
    assert_eq!(
        parse_compression_output("} {").err().expect("no object").message(),
        "runtime error: llama.cpp output did not contain JSON; output starts with: } {"
    );
    assert!(parse_compression_output("}{").is_err());
}

#[test]
fn quoted_literals_are_told_apart() {
    let text = "say \"do not\" and `keep`「残す」 end";
    let spans = quoted_spans(text);
    let joined: String = spans.iter().map(|span| span.text.as_str()).collect();
    assert_eq!(joined, text);
    assert!(spans.iter().any(|span| span.literal && span.text.contains("do not")));
    assert!(!contains_marker_outside_literal_spans(text, &["do not"]));
    assert!(contains_marker_outside_literal_spans(text, &["and"]));
}

#[test]
fn estimates_lie_between_nothing_and_the_length() {
    let estimator = SimpleTokenEstimator::default();
    for text in ["", " ", "abc", "検索 API 2024", "a b c d", "😀!?"] {
        let tokens = estimator.estimate(text, "codex_default");
        assert!(tokens <= text.chars().count().max(1), "{text}: {tokens}");
    }
}
