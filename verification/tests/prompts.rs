use prompt_compressor::config::catalog::{PromptProfileEntry, PromptProfileRegistry};
use prompt_compressor::config::profile::ProfileRegistry;
use prompt_compressor::runtime::budget::{
    effective_max_output_tokens, select_context_length_for_token_budget,
};
use prompt_compressor::config::catalog::ModelDefinition;
use prompt_compressor::runtime::prompts::{
    concise_prompt_parts, format_embedded_llama_prompt, format_embedded_llama_prompt_prefix,
    format_embedded_llama_prompt_suffix, physical_batch_quality_requests, template_file_name,
    template_prompt_parts, uses_concise_prompts, PromptParts,
};
use prompt_compressor::text_map::TextMap;
use prompt_compressor::types::{
    CompressionConstraints, CompressionLevel, CompressionRequest, RequestSource, RequestTarget,
};

fn request(input: &str, level: u8) -> CompressionRequest {
    CompressionRequest {
        input_text: input.to_string(),
        compression_level: CompressionLevel::from_u8(level).expect("valid level"),
        profile: "internal_llm".to_string(),
        constraints: CompressionConstraints::default(),
        target: RequestTarget::codex_default(),
        source: RequestSource::Desktop,
    }
}

fn model(prompt_style: &str) -> ModelDefinition {
    ModelDefinition {
        id: "m".to_string(),
        label: "M".to_string(),
        adapter: "llama".to_string(),
        runtime_ref: "r".to_string(),
        model_path: None,
        download: None,
        api_model: None,
        quantization: "q4".to_string(),
        context_length: 4096,
        thinking: false,
        default_max_output: 256,
        prompt_template: "codex-ja".to_string(),
        prompt_style: prompt_style.to_string(),
        supports_json_schema: true,
    }
}

fn wordings() -> PromptProfileRegistry {
    let mut entries = TextMap::new();
    for level in 1..=3u8 {
        entries.insert(
            format!("level{level}"),
            PromptProfileEntry {
                level,
                target_ratio: format!("{}割", 9 - level),
                instruction: format!("指示{level}"),
                format_instruction: "書式".to_string(),
                allow_semantic_shortening: level == 3,
            },
        );
    }
    PromptProfileRegistry::from_entries(1, "v1", "共通".to_string(), &entries).expect("wordings")
}

#[test]
fn short_prompts_are_made_of_wording_and_request() {
    let parts = concise_prompt_parts(&request("ボタンを追加してください。", 2), &wordings())
        .expect("prompt");
    assert_eq!(
        parts.prefix,
        "JSONだけ返す。distilled_promptは日本語/7割/原文より短く。\n守る:共通 指示2 表現変更最小。 書式 ラベル/見出し/接頭辞は禁止。\n入力の[現状]は望む動作ではない。[現状→要求]は矢印後だけを実装指示にする。各行の必須語はその行の役割と一緒に使う。[検証]の成功/失敗/否定も変えない。\n出力前確認:必須語全件/[制約]全件/[検証]全件/限定・否定・条件語の脱落なし/重複なし。\n"
    );
    assert_eq!(
        parts.suffix,
        "入力整理:\n[要求] ボタン追加\nJSON:{\"distilled_prompt\":\"\"}"
    );
    let other = concise_prompt_parts(&request("画面を修正してください。", 2), &wordings())
        .expect("prompt");
    assert_eq!(parts.prefix, other.prefix);
    assert_ne!(parts.suffix, other.suffix);
    let strong = concise_prompt_parts(&request("画面を修正してください。", 3), &wordings())
        .expect("prompt");
    assert!(strong.prefix.contains("同義短縮可。"));
    assert_eq!(
        concise_prompt_parts(&request("画面", 0), &wordings()).err().expect("level").message(),
        "invalid config: level prompt profiles do not define compression level 0"
    );
}

#[test]
fn prompts_are_framed_as_a_whole_or_in_parts() {
    let parts = PromptParts {
        prefix: "a".to_string(),
        suffix: "b".to_string(),
    };
    assert_eq!(parts.combined(), "ab");
    assert_eq!(
        format_embedded_llama_prompt(&parts.combined()),
        format!(
            "{}{}",
            format_embedded_llama_prompt_prefix("a"),
            format_embedded_llama_prompt_suffix("b")
        )
    );
    assert_eq!(PromptParts::whole("p".to_string()).prefix, "");
    assert_eq!(PromptParts::whole("p".to_string()).suffix, "p");
}

#[test]
fn templates_come_before_what_is_asked() {
    let parts = template_prompt_parts(&request("Add a button to page.tsx", 1), "TEMPLATE");
    assert_eq!(parts.prefix, "");
    assert!(parts.suffix.starts_with("TEMPLATE\n\n"));
    assert!(parts.suffix.contains("次の技術用語は表記を変えず、必ず `distilled_prompt` に含める: "));
    assert!(parts.suffix.contains("page.tsx"));
    assert!(parts.suffix.ends_with("ユーザーの依頼:\nAdd a button to page.tsx"));
    assert!(uses_concise_prompts(&model("concise")));
    assert!(!uses_concise_prompts(&model("detailed")));
    assert_eq!(template_file_name(&model("detailed")), "codex-ja.md");
}

#[test]
fn quality_is_measured_on_three_requests() {
    let registry = ProfileRegistry::bootstrap();
    let profile = registry.resolve("internal_llm").expect("profile");
    let requests = physical_batch_quality_requests(profile).expect("requests");
    assert_eq!(requests.len(), 3);
    for request in &requests {
        assert_eq!(request.compression_level.value(), 2);
        assert_eq!(request.profile, "internal_llm");
    }
    assert!(requests[0].input_text.starts_with("Next.js の POST /api/orders"));
}

#[test]
fn the_length_of_an_answer_follows_level_and_request() {
    let expected = |level: u8, characters: usize| {
        effective_max_output_tokens(&request(&"あ".repeat(characters), level), &model("concise"))
    };
    assert_eq!(expected(0, 1000), 32);
    assert_eq!(expected(1, 60), 77);
    assert_eq!(expected(1, 1000), 112);
    assert_eq!(expected(2, 100), 92);
    assert_eq!(expected(2, 1000), 192);
    assert_eq!(expected(3, 100), 74);
    assert_eq!(expected(3, 1000), 96);
    assert_eq!(expected(2, 1), 64);
}

#[test]
fn the_context_is_the_smallest_that_fits() {
    assert_eq!(select_context_length_for_token_budget(900, 116, 8192).expect("fits"), 1024);
    assert_eq!(select_context_length_for_token_budget(900, 117, 8192).expect("fits"), 2048);
    assert_eq!(select_context_length_for_token_budget(5000, 100, 8192).expect("fits"), 8192);
    assert_eq!(select_context_length_for_token_budget(10, 10, 512).expect("fits"), 512);
    assert!(select_context_length_for_token_budget(500, 10, 512).is_err());
}
