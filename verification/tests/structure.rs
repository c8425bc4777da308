//! Requests as lists of facts.
use prompt_compressor::runtime::structure::PromptStructure;

#[test]
fn renders_conditional_constraints_and_verification_as_distinct_facts() {
    let input = "customerIdが空ならHTTP 400を返してください。既存のJSONキーは変えないでください。Vitestで境界値を確認してください。";
    let terms = vec![
        "customerId".to_string(),
        "HTTP".to_string(),
        "Vitest".to_string(),
    ];

    let rendered = PromptStructure::analyze(input, &terms).render_for_model();

    assert!(rendered.contains("[制約:条件対応"), "{rendered}");
    assert!(rendered.contains("[制約:禁止"), "{rendered}");
    assert!(rendered.contains("[検証"), "{rendered}");
}

#[test]
fn builds_candidate_for_unseen_domain_without_fixture_markers() {
    let input = "前にもお願いした内容ですが、参考までに共有します。Zigのbuild.zigを更新してください。release-fastだけを対象にし、既存のinstall手順は変更しないでください。最後にzig build testで確認してください。";
    let terms = vec![
        "Zig".to_string(),
        "build.zig".to_string(),
        "release-fast".to_string(),
        "install".to_string(),
    ];

    let candidate = PromptStructure::analyze(input, &terms)
        .compact_candidate()
        .expect("generic candidate");

    assert!(!candidate.contains("前にもお願い"), "{candidate}");
    assert!(candidate.contains("build.zig"), "{candidate}");
    assert!(candidate.contains("release-fastだけ"), "{candidate}");
    assert!(candidate.contains("install手順は変更しない"), "{candidate}");
    assert!(candidate.contains("zig build test"), "{candidate}");
    assert!(candidate.chars().count() < input.chars().count());
}

#[test]
fn removes_conversation_history_without_dropping_exclusive_constraints() {
    let input = "前にも少し相談した件ですが、Zigのbuild.zigを整理してください。release-fastだけはLTOを有効にし、release-safeは安全性チェックを無効にしないでください。背景説明は長くなりましたが、必要なのはこの変更だけです。";
    let terms = vec![
        "Zig".to_string(),
        "build.zig".to_string(),
        "release-fast".to_string(),
        "release-safe".to_string(),
        "LTO".to_string(),
    ];

    let candidate = PromptStructure::analyze(input, &terms)
        .compact_candidate()
        .expect("generic candidate");

    assert!(!candidate.contains("前にも"), "{candidate}");
    assert!(!candidate.contains("背景説明"), "{candidate}");
    assert!(candidate.contains("release-fastだけ"), "{candidate}");
    assert!(candidate.contains("無効にしない"), "{candidate}");
}

#[test]
fn extracts_literal_constraint_expressions_for_model_contract() {
    let input = "release-fastだけはLTOを有効にし、release-safeでは安全性チェックを無効にしないでください。Linuxの場合だけ実行してください。";
    let terms = vec![
        "release-fast".to_string(),
        "release-safe".to_string(),
        "Linux".to_string(),
    ];

    let expressions = PromptStructure::analyze(input, &terms).protected_expressions();

    assert!(expressions.iter().any(|value| value == "release-fastだけ"));
    assert!(expressions
        .iter()
        .any(|value| value.contains("無効にしない")));
    assert!(expressions.iter().any(|value| value.contains("場合")));
    assert!(!expressions.iter().any(|value| value == "場合"));
}
