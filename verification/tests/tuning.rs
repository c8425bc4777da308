use prompt_compressor::config::catalog::{ModelDefinition, RuntimeDefinition, RuntimeLaunchMode};
use prompt_compressor::runtime::digest::sha256_hex;
use prompt_compressor::runtime::thread_tuning::{
    automatic_runtime_thread_counts, cpu_instruction_profile, manual_runtime_thread_counts_from_values,
    parse_runtime_threads, record_file_name, record_to_write, resolve_configuration, runtime_config_for_threads,
    should_tune, thread_status, thread_tuning_key, tuning_is_required,
    uses_measured_settings, valid_runtime_configuration, CpuInstructionCapabilities,
    PersistedThreadTuning, RuntimeBatchSizes, RuntimeInferenceConfig, RuntimeThreadCounts,
    TuningMemory, TuningSubject,
};

fn runtime(threads: &str) -> RuntimeDefinition {
    RuntimeDefinition {
        id: "r".to_string(),
        backend_kind: "llama.cpp".to_string(),
        launch_mode: RuntimeLaunchMode::Embedded,
        executable_path: None,
        base_url: None,
        api_token_env: None,
        health_path: None,
        startup_timeout_ms: 30000,
        threads: threads.to_string(),
        timeout_ms: 12000,
    }
}

fn model() -> ModelDefinition {
    ModelDefinition {
        id: "m".to_string(),
        label: "M".to_string(),
        adapter: "llama".to_string(),
        runtime_ref: "r".to_string(),
        model_path: None,
        download: None,
        api_model: None,
        quantization: "q4".to_string(),
        context_length: 4096,
        thinking: false,
        default_max_output: 256,
        prompt_template: "t".to_string(),
        prompt_style: "concise".to_string(),
        supports_json_schema: true,
    }
}

fn settings(generation: u32, batch: u32, physical: u32) -> RuntimeInferenceConfig {
    RuntimeInferenceConfig {
        threads: RuntimeThreadCounts { generation, batch },
        batch_sizes: RuntimeBatchSizes {
            logical: 512,
            physical,
        },
    }
}

#[test]
fn records_are_read_back_under_their_own_key() {
    let mut memory = TuningMemory::default();
    let record = record_to_write("key", settings(3, 4, 256), false);
    assert_eq!(record.as_ref().map(|record| record.schema_version), Some(2));
    assert!(memory.get("key").is_none());
    assert_eq!(memory.load("key", &record, 8), Some(settings(3, 4, 256)));
    assert_eq!(memory.get("key"), Some(settings(3, 4, 256)));
    assert_eq!(memory.load("key", &None, 8), Some(settings(3, 4, 256)));
    assert_eq!(memory.load("other", &record, 8), None);
    let old = PersistedThreadTuning {
        schema_version: 1,
        key: "old".to_string(),
        configuration: settings(3, 4, 256),
    };
    assert_eq!(memory.load("old", &Some(old), 8), None);
    let unusable = record_to_write("big", settings(9, 9, 256), false);
    assert_eq!(memory.load("big", &unusable, 8), None);
    memory.forget("key");
    assert!(memory.get("key").is_none());
    memory.mark_pending("key");
    assert!(memory.is_pending_next_launch("key"));
    memory.forget("key");
    assert!(!memory.is_pending_next_launch("key"));
}

#[test]
fn stored_settings_stay_and_are_found_after_a_restart() {
    let configuration = settings(6, 7, 256);
    let mut store = TuningMemory::default();
    let file = record_to_write("machine-a", configuration, false);
    store.mark_pending("machine-a");
    assert!(record_to_write("machine-a", settings(2, 2, 512), file.is_some()).is_none());
    store.mark_pending("machine-a");
    assert!(store.is_pending_next_launch("machine-a"));
    assert_eq!(store.load("machine-a", &file, 8), Some(configuration));
    assert_eq!(store.load("machine-b", &None, 8), None);

    let mut fresh_store = TuningMemory::default();
    assert!(!fresh_store.is_pending_next_launch("machine-a"));
    assert_eq!(fresh_store.load("machine-a", &file, 8), Some(configuration));
}

#[test]
fn a_key_names_all_that_settings_depend_on() {
    let subject = TuningSubject {
        processor: "cpu".to_string(),
        instruction_profile: "sse4.2".to_string(),
        engine: "compatible".to_string(),
        model_bytes: 10,
        modified_nanos: 340282366920938463463374607431768211455,
    };
    let key = thread_tuning_key(&subject, &model(), &runtime("auto"), 8);
    assert_eq!(
        key,
        "contract=11|cpu=cpu|instructions=sse4.2|engine=compatible|available=8|model=m|size=10|modified=340282366920938463463374607431768211455|runtime=r|threads=auto"
    );
    assert_eq!(record_file_name(&key), format!("{}.json", sha256_hex(key.as_bytes())));
}

#[test]
fn threads_are_read_from_the_configuration() {
    let counts = parse_runtime_threads(&runtime("6"), 8).expect("threads");
    assert_eq!((counts.generation, counts.batch), (6, 6));
    let counts = parse_runtime_threads(&runtime("AUTO"), 9).expect("threads");
    assert_eq!((counts.generation, counts.batch), (7, 8));
    assert_eq!(
        parse_runtime_threads(&runtime("0"), 8).expect_err("zero").message(),
        "invalid config: runtime 'r' threads must be greater than zero"
    );
    assert_eq!(
        parse_runtime_threads(&runtime("x"), 8).expect_err("text").message(),
        "invalid config: runtime 'r' has invalid threads value 'x': invalid digit found in string"
    );
    assert_eq!(
        manual_runtime_thread_counts_from_values(Some("manual"), None, Some("1"), 8)
            .expect_err("missing")
            .message(),
        "invalid config: manual generation thread count is missing"
    );
    assert_eq!(
        manual_runtime_thread_counts_from_values(Some("manual"), Some("1"), Some("9"), 8)
            .expect_err("many")
            .message(),
        "invalid config: manual batch thread count must be between 1 and 8"
    );
    assert!(manual_runtime_thread_counts_from_values(Some("auto"), None, None, 8)
        .expect("no override")
        .is_none());
}

#[test]
fn settings_come_from_the_hand_the_file_or_the_measurement() {
    let manual = Some(RuntimeThreadCounts {
        generation: 2,
        batch: 3,
    });
    let stored = Some(settings(4, 4, 128));
    let resolve = |manual, threads: &str, stored| {
        resolve_configuration(manual, &runtime(threads), 8, stored).expect("settings")
    };
    assert_eq!(resolve(manual, "auto", stored), settings(2, 3, 512));
    assert_eq!(resolve(None, "5", stored), settings(5, 5, 512));
    assert_eq!(resolve(None, "auto", stored), settings(4, 4, 128));
    assert_eq!(
        resolve(None, "auto", None),
        runtime_config_for_threads(automatic_runtime_thread_counts(8))
    );
    assert!(uses_measured_settings(None, &runtime("auto")));
    assert!(!uses_measured_settings(manual, &runtime("auto")));
    assert!(should_tune(None, &runtime("auto"), false, None));
    assert!(!should_tune(None, &runtime("auto"), true, None));
    assert!(!should_tune(None, &runtime("auto"), false, stored));
    assert!(tuning_is_required(None, &runtime("auto"), None));
    assert!(!tuning_is_required(None, &runtime("4"), None));
    let status = thread_status(manual, &runtime("auto"), settings(2, 3, 512), 8);
    assert_eq!(status.mode, "manual");
    assert_eq!((status.generation_threads, status.batch_threads), (2, 3));
    assert_eq!(thread_status(None, &runtime("Auto"), settings(2, 3, 512), 0).available_threads, 1);
    assert_eq!(thread_status(None, &runtime("4"), settings(4, 4, 512), 8).mode, "configured");
}

#[test]
fn automatic_settings_are_usable_everywhere() {
    for available in 1..64usize {
        let settings = runtime_config_for_threads(automatic_runtime_thread_counts(available));
        assert!(valid_runtime_configuration(settings, available));
    }
}

#[test]
fn instruction_profiles_are_named_by_what_is_complete() {
    assert_eq!(cpu_instruction_profile(CpuInstructionCapabilities::default()), "unsupported");
    let sse = CpuInstructionCapabilities {
        sse42: true,
        ..CpuInstructionCapabilities::default()
    };
    assert_eq!(cpu_instruction_profile(sse), "sse4.2");
}
