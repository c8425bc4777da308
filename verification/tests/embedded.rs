use std::collections::hash_map::DefaultHasher;
use std::hash::{Hash, Hasher};

use prompt_compressor::config::catalog::{ModelDefinition, RuntimeDefinition, RuntimeLaunchMode};
use prompt_compressor::error::CompressionError;
use prompt_compressor::runtime::draft::RuntimeTransformation;
use prompt_compressor::runtime::embedded::{
    observe_outcome, prepare_purpose, EmbeddedRun, RunOutcome, RunPhase, RunPurpose, RunReply,
};
use prompt_compressor::runtime::prompts::{
    format_embedded_llama_prompt, format_embedded_llama_prompt_prefix,
    format_embedded_llama_prompt_suffix, PromptParts,
};
use prompt_compressor::runtime::sessions::hash_of_prefix;
use prompt_compressor::runtime::thread_tuning::{
    RuntimeBatchSizes, RuntimeInferenceConfig, RuntimeThreadCounts,
};
use prompt_compressor::types::{
    CompressionConstraints, CompressionLevel, CompressionRequest, RequestSource, RequestTarget,
};

fn request(input: &str) -> CompressionRequest {
    CompressionRequest {
        input_text: input.to_string(),
        compression_level: CompressionLevel::from_u8(2).expect("valid level"),
        profile: "internal_llm".to_string(),
        constraints: CompressionConstraints::default(),
        target: RequestTarget::codex_default(),
        source: RequestSource::Desktop,
    }
}

fn model() -> ModelDefinition {
    ModelDefinition {
        id: "m".to_string(),
        label: "M".to_string(),
        adapter: "llama".to_string(),
        runtime_ref: "r".to_string(),
        model_path: Some("m.gguf".to_string()),
        download: None,
        api_model: None,
        quantization: "q4".to_string(),
        context_length: 4096,
        thinking: false,
        default_max_output: 256,
        prompt_template: "t".to_string(),
        prompt_style: "concise".to_string(),
        supports_json_schema: true,
    }
}

fn runtime(launch_mode: RuntimeLaunchMode) -> RuntimeDefinition {
    RuntimeDefinition {
        id: "r".to_string(),
        backend_kind: "llama.cpp".to_string(),
        launch_mode,
        executable_path: None,
        base_url: None,
        api_token_env: None,
        health_path: None,
        startup_timeout_ms: 30000,
        threads: "auto".to_string(),
        timeout_ms: 12000,
    }
}

fn settings() -> RuntimeInferenceConfig {
    RuntimeInferenceConfig {
        threads: RuntimeThreadCounts {
            generation: 6,
            batch: 7,
        },
        batch_sizes: RuntimeBatchSizes {
            logical: 512,
            physical: 256,
        },
    }
}

fn parts(prefix: &str, suffix: &str) -> PromptParts {
    PromptParts {
        prefix: prefix.to_string(),
        suffix: suffix.to_string(),
    }
}

const INPUT: &str = "検索画面のボタンの色を変更してください。既存のAPIは変更しないでください。";

fn step(run: &mut EmbeddedRun, phase: RunPhase, reply: RunReply) {
    assert_eq!(run.phase(), phase);
    assert!(run.expects(&reply));
    run.advance(reply, false);
}

/// A run up to the point where sessions are looked for.
fn up_to_sessions(purpose: RunPurpose, prefix: &str) -> EmbeddedRun {
    let mut run = EmbeddedRun::start(purpose, &request(INPUT), &model(), 12000);
    if purpose != RunPurpose::Complete {
        step(&mut run, RunPhase::Preload, RunReply::Done);
    }
    step(&mut run, RunPhase::Build, RunReply::Prompt(parts(prefix, "own")));
    step(&mut run, RunPhase::Find, RunReply::Path("/m.gguf".to_string()));
    step(&mut run, RunPhase::Load, RunReply::Done);
    step(&mut run, RunPhase::Settings, RunReply::Settings(settings()));
    step(&mut run, RunPhase::CountPrefix, RunReply::Count(100));
    step(&mut run, RunPhase::CountSuffix, RunReply::Count(50));
    run
}

#[test]
fn a_run_reads_both_parts_and_keeps_the_first() {
    let mut run = up_to_sessions(RunPurpose::Complete, "shared");
    assert_eq!(run.prefix(), format_embedded_llama_prompt_prefix("shared"));
    assert_eq!(run.suffix(), format_embedded_llama_prompt_suffix("own"));
    let mut hasher = DefaultHasher::new();
    format_embedded_llama_prompt_prefix("shared").hash(&mut hasher);
    assert_eq!(hash_of_prefix(run.prefix()), hasher.finish());
    assert_eq!(
        run.prompt_key(),
        format!("m:/m.gguf:1024:6:7:512:256:{}", hasher.finish())
    );
    assert_eq!(
        up_to_sessions(RunPurpose::PreparePrefix, "shared").prompt_key(),
        run.prompt_key()
    );
    assert!(run.input_key().starts_with("m:/m.gguf:1024:6:7:512:256:input:"));
    let params = run.session_params();
    assert_eq!(
        (params.n_ctx, params.n_batch, params.n_ubatch, params.n_threads, params.n_threads_batch),
        (1024, 512, 256, 6, 7)
    );
    step(&mut run, RunPhase::FindInput, RunReply::Found(false));
    step(&mut run, RunPhase::FindPrompt, RunReply::Found(false));
    step(&mut run, RunPhase::Create, RunReply::Done);
    step(&mut run, RunPhase::LimitFirst, RunReply::Done);
    step(&mut run, RunPhase::FeedPrefix, RunReply::Done);
    step(&mut run, RunPhase::StoreCopy, RunReply::Done);
    step(&mut run, RunPhase::Limit, RunReply::Done);
    step(&mut run, RunPhase::FeedSuffix, RunReply::Done);
    step(&mut run, RunPhase::Start, RunReply::Done);
    step(&mut run, RunPhase::Token, RunReply::Token("{\"distilled_prompt\":".to_string()));
    step(&mut run, RunPhase::Token, RunReply::Token("\"色を変更\"} さらに".to_string()));
    step(&mut run, RunPhase::Finish, RunReply::Done);
    assert_eq!(run.phase(), RunPhase::Ended);
    assert!(!run.expects(&RunReply::Done));
    match run.into_outcome() {
        Some(RunOutcome::Output(output)) => {
            assert_eq!(output, "{\"distilled_prompt\":\"色を変更\"}")
        }
        other => panic!("unexpected outcome: {other:?}"),
    }
}

#[test]
fn a_prepared_input_is_not_read_again() {
    let mut run = up_to_sessions(RunPurpose::Complete, "shared");
    step(&mut run, RunPhase::FindInput, RunReply::Found(true));
    step(&mut run, RunPhase::Limit, RunReply::Done);
    step(&mut run, RunPhase::Start, RunReply::Done);
    step(&mut run, RunPhase::Token, RunReply::Token("text </s> rest".to_string()));
    step(&mut run, RunPhase::Token, RunReply::End);
    step(&mut run, RunPhase::Finish, RunReply::Done);
    assert!(matches!(run.into_outcome(), Some(RunOutcome::Output(output)) if output == "text"));
}

#[test]
fn a_prompt_without_a_shared_part_is_read_at_once() {
    let mut run = up_to_sessions(RunPurpose::Complete, "");
    assert_eq!(run.prefix(), "");
    assert_eq!(run.suffix(), format_embedded_llama_prompt("own"));
    step(&mut run, RunPhase::FindInput, RunReply::Found(false));
    step(&mut run, RunPhase::Create, RunReply::Done);
    step(&mut run, RunPhase::Limit, RunReply::Done);
    step(&mut run, RunPhase::FeedSuffix, RunReply::Done);
    assert_eq!(run.phase(), RunPhase::Start);
}

#[test]
fn what_is_prepared_is_found_under_the_key_that_a_run_asks_for() {
    let mut prepared = up_to_sessions(RunPurpose::PrepareInput, "shared");
    let run = up_to_sessions(RunPurpose::Complete, "shared");
    assert_eq!(prepared.input_key(), run.input_key());
    step(&mut prepared, RunPhase::FindInput, RunReply::Found(false));
    step(&mut prepared, RunPhase::FindPrompt, RunReply::Found(true));
    step(&mut prepared, RunPhase::Limit, RunReply::Done);
    step(&mut prepared, RunPhase::FeedSuffix, RunReply::Done);
    step(&mut prepared, RunPhase::StoreInput, RunReply::Done);
    assert!(matches!(prepared.into_outcome(), Some(RunOutcome::Prepared(true))));
}

#[test]
fn a_shared_part_is_prepared_with_one_token_written_in_vain() {
    let mut run = up_to_sessions(RunPurpose::PreparePrefix, "shared");
    assert_eq!(run.suffix(), "");
    step(&mut run, RunPhase::FindPrompt, RunReply::Found(false));
    step(&mut run, RunPhase::Create, RunReply::Done);
    step(&mut run, RunPhase::LimitFirst, RunReply::Done);
    step(&mut run, RunPhase::FeedPrefix, RunReply::Done);
    step(&mut run, RunPhase::Copy, RunReply::Done);
    assert_eq!(run.prediction_limit(), 1);
    step(&mut run, RunPhase::Start, RunReply::Done);
    step(&mut run, RunPhase::Token, RunReply::Token("x".to_string()));
    step(&mut run, RunPhase::StorePrompt, RunReply::Done);
    assert!(matches!(run.into_outcome(), Some(RunOutcome::Prepared(true))));
    let mut nothing = EmbeddedRun::start(RunPurpose::PreparePrefix, &request(INPUT), &model(), 1);
    step(&mut nothing, RunPhase::Preload, RunReply::Done);
    step(&mut nothing, RunPhase::Build, RunReply::Prompt(parts(" \n", "own")));
    assert!(matches!(nothing.into_outcome(), Some(RunOutcome::Prepared(false))));
}

#[test]
fn a_late_run_falls_back_on_what_the_request_says() {
    let mut run = EmbeddedRun::start(RunPurpose::Complete, &request(INPUT), &model(), 700);
    step(&mut run, RunPhase::Build, RunReply::Prompt(parts("shared", "own")));
    step(&mut run, RunPhase::Find, RunReply::Path("/m.gguf".to_string()));
    run.advance(RunReply::Done, true);
    match run.into_outcome() {
        Some(RunOutcome::Fallback(draft)) => {
            assert!(draft.distilled_prompt.contains("変更しない"));
            assert!(draft.distilled_prompt.chars().count() < INPUT.chars().count());
        }
        other => panic!("unexpected outcome: {other:?}"),
    }
    let mut preparing = EmbeddedRun::start(RunPurpose::PrepareInput, &request(INPUT), &model(), 700);
    preparing.advance(RunReply::Done, true);
    assert!(matches!(
        preparing.into_outcome(),
        Some(RunOutcome::Failed(CompressionError::RuntimeTimeout(700)))
    ));
    let mut plain = EmbeddedRun::start(RunPurpose::Complete, &request("こんにちは"), &model(), 700);
    step(&mut plain, RunPhase::Build, RunReply::Prompt(parts("shared", "own")));
    step(&mut plain, RunPhase::Find, RunReply::Path("/m.gguf".to_string()));
    plain.advance(RunReply::Failed(CompressionError::EmptyInput), true);
    assert!(matches!(
        plain.into_outcome(),
        Some(RunOutcome::Failed(CompressionError::RuntimeTimeout(700)))
    ));
}

#[test]
fn faults_of_the_engine_name_what_failed() {
    let failure = |run: EmbeddedRun| match run.into_outcome() {
        Some(RunOutcome::Failed(error)) => error.message(),
        other => panic!("unexpected outcome: {other:?}"),
    };
    let mut run = up_to_sessions(RunPurpose::Complete, "shared");
    step(&mut run, RunPhase::FindInput, RunReply::Found(false));
    step(&mut run, RunPhase::FindPrompt, RunReply::Found(false));
    step(&mut run, RunPhase::Create, RunReply::Fault("out of memory".to_string()));
    assert_eq!(
        failure(run),
        "runtime error: failed to create embedded llama.cpp session for 'm': out of memory"
    );
    let mut run = up_to_sessions(RunPurpose::PrepareInput, "shared");
    step(&mut run, RunPhase::FindInput, RunReply::Found(false));
    step(&mut run, RunPhase::FindPrompt, RunReply::Found(false));
    step(&mut run, RunPhase::Create, RunReply::Done);
    step(&mut run, RunPhase::LimitFirst, RunReply::Done);
    step(&mut run, RunPhase::FeedPrefix, RunReply::Fault("bad".to_string()));
    assert_eq!(
        failure(run),
        "runtime error: failed to prepare prompt prefix for embedded llama.cpp model 'm': bad"
    );
    let mut run = EmbeddedRun::start(RunPurpose::Complete, &request(INPUT), &model(), 1);
    step(&mut run, RunPhase::Build, RunReply::Prompt(parts("shared", "own")));
    step(&mut run, RunPhase::Find, RunReply::Path("/m.gguf".to_string()));
    step(&mut run, RunPhase::Load, RunReply::Done);
    step(&mut run, RunPhase::Settings, RunReply::Settings(settings()));
    step(&mut run, RunPhase::CountPrefix, RunReply::Count(4000));
    step(&mut run, RunPhase::CountSuffix, RunReply::Count(100));
    assert_eq!(
        failure(run),
        "runtime error: input exceeds the model context: prompt=4100 tokens, output reserve=64 tokens, context=4096 tokens; shorten the input or split it into smaller requests"
    );
}

#[test]
fn preparing_depends_on_the_request_and_the_runtime() {
    let embedded = runtime(RuntimeLaunchMode::Embedded);
    assert!(matches!(
        prepare_purpose(&request(INPUT), &embedded),
        Some(RunPurpose::PrepareInput)
    ));
    assert!(matches!(
        prepare_purpose(&request(" \n"), &embedded),
        Some(RunPurpose::PreparePrefix)
    ));
    assert!(prepare_purpose(&request(INPUT), &runtime(RuntimeLaunchMode::OneShot)).is_none());
    let mut original = request(INPUT);
    original.compression_level = CompressionLevel::from_u8(0).expect("valid level");
    assert!(prepare_purpose(&original, &embedded).is_none());
}

#[test]
fn outcomes_are_read_and_checked() {
    let written = RunOutcome::Output(
        "{\"distilled_prompt\":\"検索画面のボタン色を変更。既存APIは変更しない。\"}".to_string(),
    );
    let observed = observe_outcome(&request(INPUT), written).expect("answer");
    assert_eq!(
        observed.raw_model_draft.expect("raw draft").distilled_prompt,
        "検索画面のボタン色を変更。既存APIは変更しない。"
    );
    let failed = RunOutcome::Failed(CompressionError::RuntimeTimeout(5));
    assert_eq!(
        observe_outcome(&request(INPUT), failed).err().expect("failure").message(),
        "runtime timed out after 5 ms"
    );
    let mut late = EmbeddedRun::start(RunPurpose::Complete, &request(INPUT), &model(), 700);
    step(&mut late, RunPhase::Build, RunReply::Prompt(parts("shared", "own")));
    step(&mut late, RunPhase::Find, RunReply::Path("/m.gguf".to_string()));
    late.advance(RunReply::Done, true);
    let observed = observe_outcome(&request(INPUT), late.into_outcome().expect("outcome"))
        .expect("fallback");
    assert!(observed.raw_model_draft.is_none());
    assert_eq!(observed.transformations, [RuntimeTransformation::RuntimeFallback]);
}
