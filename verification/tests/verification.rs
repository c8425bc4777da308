//! What is found missing in a result.
use prompt_compressor::compression::verification::SimpleVerifier;
use prompt_compressor::types::{
    CompressionConstraints, CompressionLevel, CompressionRequest, RequestSource, RequestTarget,
};

#[test]
fn rejects_missing_protected_values_without_reporting_them_as_preserved() {
    let request = test_request(
        "config.yamlでHTTP 400のINVALID_CUSTOMERを返してください。既存画面の表示文言は変えないでください。",
    );

    let summary = SimpleVerifier.verify(&request, "入力エラーを返すよう修正する。");

    assert!(summary.should_send_original);
    assert_eq!(
        summary.fallback_reason.as_deref(),
        Some("verification_failed: preserve_file_names, preserve_error_messages, preserve_numbers, preserve_negations")
    );
    for missing in [
        "preserve_file_names",
        "preserve_error_messages",
        "preserve_numbers",
        "preserve_negations",
    ] {
        assert!(!summary
            .preserved_requirements
            .iter()
            .any(|requirement| requirement.text == missing));
    }
    assert!(summary
        .risk_flags
        .iter()
        .any(|risk| risk.code == "VERIFICATION_FAILED"));
}

#[test]
fn reports_only_constraints_verified_against_the_output() {
    let request = test_request(
        "config.yamlでHTTP 400のINVALID_CUSTOMERを返してください。既存画面の表示文言は変えないでください。",
    );
    let output =
        "config.yaml: HTTP 400でINVALID_CUSTOMERを返す。既存画面の表示文言は変更しない。";

    let summary = SimpleVerifier.verify(&request, output);

    assert!(!summary.should_send_original);
    assert!(summary.risk_flags.is_empty());
    for preserved in [
        "preserve_file_names",
        "preserve_error_messages",
        "preserve_numbers",
        "preserve_negations",
    ] {
        assert!(summary
            .preserved_requirements
            .iter()
            .any(|requirement| requirement.text == preserved));
    }
}

#[test]
fn omits_preservation_claims_when_the_constraint_is_not_applicable() {
    let request = test_request("依頼を短くまとめてください。");

    let summary = SimpleVerifier.verify(&request, "依頼を短縮する。");

    assert!(!summary.should_send_original);
    assert!(summary.preserved_requirements.is_empty());
}

#[test]
fn ignores_noise_and_superseded_values_before_verifying_numbers() {
    let input = "指数バックオフは1秒、2秒、4秒、最大30秒、jitterは±20%。zzzz 987654はタッチミスなので関係ありません。60秒後に0へ戻し、4001/4003では再接続しない。10回で停止。最大20秒とも考えましたが、最終的には30秒です。";
    let output = "指数バックオフ1/2/4秒、最大30秒、±20% jitter。60秒後0へ戻す。4001/4003では再接続しない。10回で停止。";
    let request = test_request(input);

    let summary = SimpleVerifier.verify(&request, output);

    assert!(!summary.should_send_original, "{summary:?}");
    assert!(summary
        .preserved_requirements
        .iter()
        .any(|requirement| requirement.text == "preserve_numbers"));
}

#[test]
fn verifies_corrected_error_code_and_final_status_only() {
    let input = "INVALID_CUSTMERではなくINVALID_CUSTOMERを返してください。たぶんHTTP 404とも考えましたが、ここはHTTP 400が正しいです。";
    let output = "HTTP 400でINVALID_CUSTOMERを返す。";
    let mut request = test_request(input);
    request.constraints.preserve_negations = false;

    let summary = SimpleVerifier.verify(&request, output);

    assert!(!summary.should_send_original, "{summary:?}");
    for preserved in ["preserve_error_messages", "preserve_numbers"] {
        assert!(summary
            .preserved_requirements
            .iter()
            .any(|requirement| requirement.text == preserved));
    }
}

#[test]
fn accepts_compact_search_state_and_rebuild_avoidance() {
    let request = test_request(
        "React の検索画面について相談です。今は検索欄に文字を入力している途中でも API が呼ばれてしまい、通信回数が多くなって画面の反応も重く感じます。検索ボタンを押した時だけ API を呼び出すように変更してください。既存の useSearchParams による URL クエリ管理は維持し、ページ番号を変更しても検索条件と検索状態が消えないようにしてください。TypeScript の既存構造はなるべく活かし、大規模なリファクタリングや画面全体の作り直しは避けてください。",
    );
    let output = "React の検索画面について相談。検索ボタンを押した時だけ API を呼び出すように変更して。既存の useSearchParams による URL クエリ管理は維持し。ページ変更時も検索条件/状態維持。TypeScript の既存構造はなるべく活かし、大規模リファクタリング/画面作り直し回避";

    let summary = SimpleVerifier.verify(&request, output);

    assert!(
        !summary.should_send_original,
        "{:?}",
        summary.fallback_reason
    );
}

#[test]
fn accepts_compact_model_readme_and_ci_constraints() {
    let readme_request = test_request(
        "アプリ内 Model フォルダの役割を README に追記してください。採用中の Sarashina 2.2 3B GGUF の配置先、モデル本体を Git 管理しない理由、LM Studio 接続はユーザーが任意のローカルモデルを検証するために残すことを明記してください。exe 化した後でも、アプリ内モデルと LM Studio 接続の役割が分かるように説明してください。",
    );
    let readme_output = "アプリ内 Model フォルダの役割を README に追記して。Sarashina 2.2 3B GGUF の配置先、モデル本体を Git 管理しない理由、LM Studio 接続は任意ローカルモデル検証用に残すを明記して。exe 化した後でも、アプリ内モデルと LM Studio 接続の役割が分かるように説明して";
    let readme_summary = SimpleVerifier.verify(&readme_request, readme_output);
    assert!(
        !readme_summary.should_send_original,
        "{:?}",
        readme_summary.fallback_reason
    );

    let ci_request = test_request(
        "GitHub Actions の Node.js CI が毎回依存関係を再インストールしていて遅いです。actions/cache を使って npm のキャッシュを有効化してください。ただし package-lock.json をキーに含め、テストコマンド npm test と lint は変更しないでください。キャッシュが効かなかった場合でも CI が失敗しないようにし、ログでキャッシュヒットの有無を確認できるようにしてください。",
    );
    let ci_output = "GitHub Actions の Node.js CI の再インストール遅延。actions/cache でnpmキャッシュ有効化。ただし package-lock.json をキーに含め、npm test/lint変更しない。キャッシュ無効でもCI失敗しない。ログでキャッシュヒット確認";
    let ci_summary = SimpleVerifier.verify(&ci_request, ci_output);
    assert!(
        !ci_summary.should_send_original,
        "{:?}",
        ci_summary.fallback_reason
    );
}

#[test]
fn verifies_fenced_code_blocks_only_when_the_block_survives() {
    let input = "次のコードを保ったまま短くしてください。\n```rust\nfn main() {}\n```";
    let request = test_request(input);

    let preserved =
        SimpleVerifier.verify(&request, "実行条件を整理。\n```rust\nfn main() {}\n```");
    let missing = SimpleVerifier.verify(&request, "実行条件を整理。");

    assert!(preserved
        .preserved_requirements
        .iter()
        .any(|requirement| requirement.text == "preserve_code_blocks"));
    assert!(missing.should_send_original);
}

#[test]
fn verifies_standalone_file_name_before_a_colon() {
    let request = test_request("Modelフォルダの役割をREADMEに追記してください。");

    let summary = SimpleVerifier.verify(&request, "README: Modelフォルダの役割を追記。");

    assert!(!summary.should_send_original, "{summary:?}");
    assert!(summary
        .preserved_requirements
        .iter()
        .any(|requirement| requirement.text == "preserve_file_names"));
}

#[test]
fn keeps_output_numbers_that_appear_before_a_contrast_marker() {
    let request = test_request(
        "Windows WebView2アプリです。通知はPowerShellではなくアプリ本体から出してください。",
    );

    let summary = SimpleVerifier.verify(
        &request,
        "Windows WebView2通知: PowerShellではなくアプリ本体から出す。",
    );

    assert!(!summary.should_send_original, "{summary:?}");
    assert!(summary
        .preserved_requirements
        .iter()
        .any(|requirement| requirement.text == "preserve_numbers"));
}

#[test]
fn verifies_multiple_file_names_joined_by_a_slash() {
    let request = test_request("ja.jsonとen.jsonの不足キーを検出してください。");

    let summary = SimpleVerifier.verify(&request, "ja.json/en.json不足キーを検出。");

    assert!(!summary.should_send_original, "{summary:?}");
    assert!(summary
        .preserved_requirements
        .iter()
        .any(|requirement| requirement.text == "preserve_file_names"));
}

fn test_request(input_text: &str) -> CompressionRequest {
    CompressionRequest {
        input_text: input_text.to_string(),
        compression_level: CompressionLevel::from_u8(2).expect("valid level"),
        profile: "internal_llm".to_string(),
        constraints: CompressionConstraints::default(),
        target: RequestTarget::codex_default(),
        source: RequestSource::Cli,
    }
}
