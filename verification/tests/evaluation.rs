//! What an output lacks.
use prompt_compressor::evaluation::{
    contains_marker_text, contains_required_term, missing_required_marker_groups,
};

#[test]
fn treats_keep_marker_aliases_as_equivalent() {
    assert!(contains_marker_text(
        "既存処理と監査ログは変更なし。",
        "変更しない"
    ));
    assert!(contains_marker_text(
        "既存コードとテスト名は変更せず。",
        "変更しない"
    ));
    assert!(contains_marker_text(
        "既存処理と監査ログは変更なし。",
        "維持"
    ));
    assert!(contains_marker_text(
        "時刻/requestId/エラー文字列は改変せず。",
        "変更しない"
    ));
    assert!(contains_marker_text(
        "大規模リファクタリングは回避。",
        "避ける"
    ));
    assert!(contains_marker_text("再レンダリング回避。", "増やさない"));
    assert!(contains_marker_text(
        "再レンダリングを最小限に。",
        "増やさない"
    ));
    assert!(contains_marker_text("個人情報外部送信なし。", "送信しない"));
    assert!(contains_marker_text(
        "既存クライアントが壊れず、互換性を確認。",
        "壊れない"
    ));
}

#[test]
fn accepts_marker_group_when_alias_is_present() {
    let missing = missing_required_marker_groups(
        "既存処理と監査ログは変更なし。",
        &vec!["変更しない|維持".to_string()],
    );

    assert!(missing.is_empty());
}

#[test]
fn treats_code_like_required_terms_as_whitespace_insensitive() {
    assert!(contains_required_term(
        "HTTP400 と INVALID_CUSTOMER を返す。",
        "HTTP 400"
    ));
    assert!(!contains_required_term(
        "INVALID_CUSTOMER を返す。",
        "HTTP 400"
    ));
    assert!(contains_required_term(
        "月額コスト3万円以下。",
        "3 万円以下"
    ));
}

#[test]
fn treats_natural_compound_required_terms_as_parts() {
    assert!(contains_required_term(
        "通知はWindowsのみ。アプリ内通知は禁止。",
        "Windows 通知"
    ));
    assert!(!contains_required_term(
        "通知はアプリ内のみ。",
        "Windows 通知"
    ));
}
