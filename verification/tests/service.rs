//! Serving requests with the original handed back where shortening fails.
use prompt_compressor::compression::service::{CompressionService, count_characters};
use prompt_compressor::config::profile::{ProfileDefinition, ProfileRegistry};
use prompt_compressor::error::CompressionError;
use prompt_compressor::runtime::backend::RuntimeBackend;
use prompt_compressor::runtime::draft::{
    CompressionDraft, RuntimeCompressionObservation, RuntimeTransformation,
};
use prompt_compressor::types::{
    CompressionConstraints, CompressionLevel, CompressionRequest, RequestSource, RequestTarget,
};

#[test]
fn counts_japanese_and_ascii_characters() {
    assert_eq!(count_characters("検索 API"), 6);
}

#[test]
fn returns_original_without_profile_retry_when_runtime_fails() {
    let service = CompressionService::new(ProfileRegistry::bootstrap(), FallbackBackend);
    let result = service
        .compress(test_request("lmstudio_local"))
        .expect("service should fail open with original prompt");

    assert_eq!(result.profile, "lmstudio_local");
    assert_eq!(
        result.distilled_prompt,
        "テスト用の依頼を短くしてください。"
    );
    assert!(result.should_send_original);
    assert!(result
        .fallback_reason
        .as_deref()
        .is_some_and(|reason| reason.contains("圧縮ランタイムが失敗")));
    assert!(result
        .risk_flags
        .iter()
        .any(|risk| risk.code == "RUNTIME_FALLBACK"));
    assert!(!result
        .risk_flags
        .iter()
        .any(|risk| risk.code == "PROFILE_FALLBACK"));
}

#[test]
fn returns_original_when_runtime_fails() {
    let service = CompressionService::new(ProfileRegistry::bootstrap(), AlwaysFailBackend);
    let result = service
        .compress(test_request("lmstudio_local"))
        .expect("service should fail open with original prompt");

    assert_eq!(result.profile, "lmstudio_local");
    assert_eq!(
        result.distilled_prompt,
        "テスト用の依頼を短くしてください。"
    );
    assert!(result.should_send_original);
    assert!(result
        .risk_flags
        .iter()
        .any(|risk| risk.code == "RUNTIME_FALLBACK"));
}

#[test]
fn returns_original_when_output_verification_fails() {
    let service =
        CompressionService::new(ProfileRegistry::bootstrap(), MissingConstraintBackend);
    let mut request = test_request("internal_llm");
    request.input_text = "config.yamlのHTTP 400処理を変更しないでください。".to_string();

    let result = service
        .compress(request.clone())
        .expect("verification failure should return the original prompt");

    assert_eq!(result.distilled_prompt, request.input_text);
    assert!(result.should_send_original);
    assert!(result
        .fallback_reason
        .as_deref()
        .is_some_and(|reason| reason.contains("原文返し理由")));
    assert!(result
        .risk_flags
        .iter()
        .any(|risk| risk.code == "VERIFICATION_FAILED"));
    assert!(!result
        .preserved_requirements
        .iter()
        .any(|requirement| requirement.text == "preserve_file_names"));
}

#[test]
fn exposes_raw_and_runtime_outputs_for_evaluation() {
    let service = CompressionService::new(ProfileRegistry::bootstrap(), ObservingBackend);
    let mut request = test_request("internal_llm");
    request.input_text = "README.mdの説明を短く整理してください。".to_string();

    let observed = service
        .compress_with_observation(request)
        .expect("observed compression should succeed");
    let runtime = observed
        .runtime_observation
        .expect("runtime observation should be retained");

    assert_eq!(
        runtime
            .raw_model_draft
            .expect("raw model draft should be available")
            .distilled_prompt,
        "出力: README.mdの説明を簡潔にする。"
    );
    assert_eq!(
        runtime.final_draft.distilled_prompt,
        "README.mdの説明を簡潔にする。"
    );
    assert_eq!(
        runtime.transformations,
        [RuntimeTransformation::PolishedModelOutput]
    );
    assert!(!observed.application_fallback_applied);
}

#[test]
fn regular_compression_uses_the_non_observed_backend_path() {
    let service = CompressionService::new(ProfileRegistry::bootstrap(), ObservingBackend);
    let mut request = test_request("internal_llm");
    request.input_text = "README.mdの説明を短く整理してください。".to_string();

    let result = service.compress(request).expect("regular compression");

    assert_eq!(result.distilled_prompt, "README.mdを短くする。");
}

#[derive(Debug, Clone)]
struct FallbackBackend;

impl RuntimeBackend for FallbackBackend {
    fn compress(
        &self,
        _request: &CompressionRequest,
        profile: &ProfileDefinition,
    ) -> Result<CompressionDraft, CompressionError> {
        if profile.id == "internal_llm" {
            Ok(CompressionDraft {
                distilled_prompt: "圧縮済み".to_string(),
                removed_content_summary: vec![],
            })
        } else {
            Err(CompressionError::Runtime("primary unavailable".to_string()))
        }
    }
}

#[derive(Debug, Clone)]
struct AlwaysFailBackend;

impl RuntimeBackend for AlwaysFailBackend {
    fn compress(
        &self,
        _request: &CompressionRequest,
        _profile: &ProfileDefinition,
    ) -> Result<CompressionDraft, CompressionError> {
        Err(CompressionError::Runtime("runtime unavailable".to_string()))
    }
}

#[derive(Debug, Clone)]
struct MissingConstraintBackend;

impl RuntimeBackend for MissingConstraintBackend {
    fn compress(
        &self,
        _request: &CompressionRequest,
        _profile: &ProfileDefinition,
    ) -> Result<CompressionDraft, CompressionError> {
        Ok(CompressionDraft {
            distilled_prompt: "HTTP処理を整理する。".to_string(),
            removed_content_summary: vec![],
        })
    }
}

#[derive(Debug, Clone)]
struct ObservingBackend;

impl RuntimeBackend for ObservingBackend {
    fn compress(
        &self,
        _request: &CompressionRequest,
        _profile: &ProfileDefinition,
    ) -> Result<CompressionDraft, CompressionError> {
        Ok(CompressionDraft {
            distilled_prompt: "README.mdを短くする。".to_string(),
            removed_content_summary: vec![],
        })
    }

    fn compress_observed(
        &self,
        _request: &CompressionRequest,
        _profile: &ProfileDefinition,
    ) -> Result<RuntimeCompressionObservation, CompressionError> {
        Ok(RuntimeCompressionObservation {
            raw_model_draft: Some(CompressionDraft {
                distilled_prompt: "出力: README.mdの説明を簡潔にする。".to_string(),
                removed_content_summary: vec![],
            }),
            final_draft: CompressionDraft {
                distilled_prompt: "README.mdの説明を簡潔にする。".to_string(),
                removed_content_summary: vec![],
            },
            transformations: vec![RuntimeTransformation::PolishedModelOutput],
        })
    }
}

fn test_request(profile: &str) -> CompressionRequest {
    CompressionRequest {
        input_text: "テスト用の依頼を短くしてください。".to_string(),
        compression_level: CompressionLevel::from_u8(2).expect("valid level"),
        profile: profile.to_string(),
        constraints: CompressionConstraints::default(),
        target: RequestTarget::codex_default(),
        source: RequestSource::Desktop,
    }
}
