use prompt_compressor::config::catalog::{
    resolve_model_and_runtime, validate_catalog_id, HuggingFaceModelEntry, ModelEntry,
    ModelRegistry, PromptProfileEntry, PromptProfileRegistry, RuntimeEntry, RuntimeLaunchMode,
    RuntimeRegistry, RuntimeRoute,
};
use prompt_compressor::config::profile::{ProfileEntry, ProfileRegistry};
use prompt_compressor::error::CompressionError;
use prompt_compressor::text_map::TextMap;

fn model_entry(runtime: &str) -> ModelEntry {
    ModelEntry {
        label: "Example".to_string(),
        adapter: "llama".to_string(),
        runtime_ref: runtime.to_string(),
        model_path: Some("models/model.gguf".to_string()),
        hugging_face: None,
        api_model: None,
        quantization: "q4".to_string(),
        context_length: 4096,
        thinking: false,
        default_max_output: 256,
        prompt_template: "codex".to_string(),
        prompt_style: "concise".to_string(),
        supports_json_schema: true,
    }
}

fn runtime_entry(backend: &str, launch_mode: Option<RuntimeLaunchMode>) -> RuntimeEntry {
    RuntimeEntry {
        backend_kind: backend.to_string(),
        launch_mode,
        executable_path: None,
        base_url: None,
        api_token_env: None,
        health_path: None,
        startup_timeout_ms: 30000,
        threads: "auto".to_string(),
        timeout_ms: 12000,
    }
}

fn profile_entry(fallback: &str) -> ProfileEntry {
    ProfileEntry {
        label: "Internal".to_string(),
        selectable: true,
        model_ref: "model".to_string(),
        policy_ref: "policy".to_string(),
        runtime_ref: "runtime".to_string(),
        fallback_profile: fallback.to_string(),
        target_tokenizer_profile: "codex_default".to_string(),
    }
}

fn wording(level: u8) -> PromptProfileEntry {
    PromptProfileEntry {
        level,
        target_ratio: format!("{}割", 10 - level),
        instruction: format!("段階{level}"),
        format_instruction: "一文".to_string(),
        allow_semantic_shortening: level > 1,
    }
}

fn one<T>(key: &str, value: T) -> TextMap<T> {
    let mut map = TextMap::new();
    map.insert(key.to_string(), value);
    map
}

fn reason(error: CompressionError) -> String {
    match error {
        CompressionError::InvalidConfig(reason) => reason,
        other => panic!("unexpected error: {}", other.message()),
    }
}

#[test]
fn identifiers_are_neither_blank_nor_controlled() {
    assert!(validate_catalog_id("model", "m1").is_ok());
    for id in ["", "  ", "a\u{7}b"] {
        assert_eq!(
            reason(validate_catalog_id("model", id).expect_err("unusable")),
            "model id cannot be empty or contain control characters"
        );
    }
}

#[test]
fn model_catalogues_are_read_or_refused() {
    let registry = ModelRegistry::from_entries(1, &one("m", model_entry("r"))).expect("catalogue");
    let model = registry.resolve("m").expect("model");
    assert_eq!(model.id, "m");
    assert_eq!(model.model_path.as_deref(), Some("models/model.gguf"));
    assert!(model.download.is_none());
    assert!(matches!(
        registry.resolve("n"),
        Err(CompressionError::UnknownModel(id)) if id == "n"
    ));
    assert_eq!(
        reason(ModelRegistry::from_entries(2, &one("m", model_entry("r"))).err().expect("version")),
        "unsupported models schema_version: 2"
    );
    assert_eq!(
        reason(ModelRegistry::from_entries(1, &TextMap::new()).err().expect("empty")),
        "model catalog must define at least one model"
    );
    let mut pinned = model_entry("r");
    pinned.hugging_face = Some(HuggingFaceModelEntry {
        repository: "owner/name".to_string(),
        revision: "a".repeat(40),
        filename: "model.gguf".to_string(),
        sha256: "0".repeat(64),
        size_bytes: 10,
    });
    let registry = ModelRegistry::from_entries(1, &one("m", pinned)).expect("catalogue");
    let download = registry.resolve("m").expect("model").download.as_ref().expect("download");
    assert_eq!(download.repository(), "owner/name");
    assert_eq!(download.size_bytes(), 10);
    let mut loose = model_entry("r");
    loose.hugging_face = Some(HuggingFaceModelEntry {
        repository: "owner".to_string(),
        revision: "a".repeat(40),
        filename: "model.gguf".to_string(),
        sha256: "0".repeat(64),
        size_bytes: 10,
    });
    assert_eq!(
        reason(ModelRegistry::from_entries(1, &one("m", loose)).err().expect("repository")),
        "invalid Hugging Face repository: owner"
    );
}

#[test]
fn runtimes_are_launched_by_their_kind_unless_told_otherwise() {
    let registry = RuntimeRegistry::from_entries(1, &{
        let mut entries = one("local", runtime_entry("llama.cpp", None));
        entries.insert("studio".to_string(), runtime_entry("lmstudio", None));
        entries.insert(
            "inside".to_string(),
            runtime_entry("llama.cpp", Some(RuntimeLaunchMode::Embedded)),
        );
        entries.insert(
            "kept".to_string(),
            runtime_entry("llama.cpp", Some(RuntimeLaunchMode::ManagedSidecar)),
        );
        entries.insert("odd".to_string(), runtime_entry("other", None));
        entries
    })
    .expect("catalogue");
    let route = |id: &str| registry.resolve(id).expect("runtime").route();
    assert!(matches!(route("local"), Some(RuntimeRoute::OneShot)));
    assert!(matches!(route("studio"), Some(RuntimeRoute::LmStudio)));
    assert!(matches!(route("inside"), Some(RuntimeRoute::Embedded)));
    assert!(matches!(route("kept"), Some(RuntimeRoute::ManagedServer)));
    assert!(route("odd").is_none());
    assert!(registry.resolve("inside").expect("runtime").is_embedded());
    assert!(!registry.resolve("local").expect("runtime").is_embedded());
    let error = registry
        .resolve("odd")
        .expect("runtime")
        .require_route()
        .expect_err("no route");
    assert_eq!(
        error.message(),
        "runtime error: unsupported runtime backend 'other' with launch_mode 'External' for runtime 'odd'"
    );
    assert!(matches!(
        registry.resolve("x"),
        Err(CompressionError::UnknownRuntime(id)) if id == "x"
    ));
    assert_eq!(
        reason(RuntimeRegistry::from_entries(1, &TextMap::new()).err().expect("empty")),
        "runtime catalog must define at least one runtime"
    );
    assert_eq!(
        reason(
            RuntimeRegistry::from_entries(0, &one("r", runtime_entry("llama.cpp", None)))
                .err()
                .expect("version")
        ),
        "unsupported runtimes schema_version: 0"
    );
}

#[test]
fn a_profile_points_to_a_model_that_uses_its_runtime() {
    let models = ModelRegistry::from_entries(1, &one("model", model_entry("runtime"))).expect("models");
    let runtimes = RuntimeRegistry::from_entries(1, &{
        let mut entries = one("runtime", runtime_entry("llama.cpp", None));
        entries.insert("second".to_string(), runtime_entry("llama.cpp", None));
        entries
    })
    .expect("runtimes");
    let profiles = ProfileRegistry::from_entries(1, None, &{
        let mut entries = one("p", profile_entry("p"));
        let mut wrong = profile_entry("p");
        wrong.runtime_ref = "second".to_string();
        entries.insert("q".to_string(), wrong);
        entries
    })
    .expect("profiles");
    let (model, runtime) =
        resolve_model_and_runtime(&models, &runtimes, profiles.resolve("p").expect("profile"))
            .expect("pair");
    assert_eq!((model.id.as_str(), runtime.id.as_str()), ("model", "runtime"));
    assert_eq!(
        reason(
            resolve_model_and_runtime(&models, &runtimes, profiles.resolve("q").expect("profile"))
                .err()
                .expect("mismatch")
        ),
        "model 'model' uses runtime 'runtime', but profile 'q' points to 'second'"
    );
}

#[test]
fn profile_catalogues_are_closed_under_fallback() {
    let registry =
        ProfileRegistry::from_entries(1, Some("p".to_string()), &one("p", profile_entry("p")))
            .expect("catalogue");
    assert_eq!(registry.default_profile_id(), Some("p"));
    assert_eq!(registry.list().len(), 1);
    assert_eq!(registry.list_selectable().len(), 1);
    assert!(matches!(
        registry.resolve("x"),
        Err(CompressionError::UnknownProfile(id)) if id == "x"
    ));
    assert_eq!(
        reason(
            ProfileRegistry::from_entries(1, None, &one("p", profile_entry("gone")))
                .err()
                .expect("fallback")
        ),
        "profile 'p' references unknown fallback profile 'gone'"
    );
    assert_eq!(
        reason(
            ProfileRegistry::from_entries(1, Some("d".to_string()), &one("p", profile_entry("p")))
                .err()
                .expect("default")
        ),
        "default profile 'd' is not defined"
    );
    assert_eq!(
        reason(ProfileRegistry::from_entries(3, None, &one("p", profile_entry("p"))).err().expect("version")),
        "unsupported profiles schema_version: 3"
    );
    assert_eq!(
        reason(ProfileRegistry::from_entries(1, None, &TextMap::new()).err().expect("empty")),
        "profile catalog must define at least one profile"
    );
    assert_eq!(
        reason(ProfileRegistry::from_entries(1, None, &one(" ", profile_entry(" "))).err().expect("blank")),
        "profile id cannot be empty or contain control characters"
    );
    let mut hidden = profile_entry("a");
    hidden.selectable = false;
    let mut entries = one("a", hidden);
    entries.insert("b".to_string(), profile_entry("a"));
    let registry =
        ProfileRegistry::from_entries(1, Some("a".to_string()), &entries).expect("catalogue");
    assert_eq!(registry.default_profile_id(), Some("b"));
    assert_eq!(registry.list().len(), 2);
    assert_eq!(registry.list_selectable()[0].id, "b");
}

#[test]
fn the_built_in_profiles_are_closed() {
    let registry = ProfileRegistry::bootstrap();
    let ids: Vec<&str> = registry.list().iter().map(|p| p.id.as_str()).collect();
    assert_eq!(ids, ["internal_llm", "lmstudio_local"]);
    assert_eq!(registry.default_profile_id(), Some("internal_llm"));
    for profile in registry.list() {
        assert!(registry.resolve(&profile.fallback_profile).is_ok());
    }
}

#[test]
fn each_level_is_worded_once() {
    let three = || {
        let mut entries = one("a", wording(1));
        entries.insert("b".to_string(), wording(2));
        entries.insert("c".to_string(), wording(3));
        entries
    };
    let registry =
        PromptProfileRegistry::from_entries(1, "v1", "共通".to_string(), &three()).expect("wordings");
    assert_eq!(registry.shared_instruction(), "共通");
    for level in 1..=3u8 {
        let found = registry.resolve(level).expect("wording");
        assert_eq!(found.instruction, format!("段階{level}"));
        assert_eq!(found.allow_semantic_shortening, level > 1);
    }
    assert_eq!(
        reason(registry.resolve(0).err().expect("none")),
        "level prompt profiles do not define compression level 0"
    );
    let refuse = |version: u32, id: &str, entries: &TextMap<PromptProfileEntry>| {
        reason(
            PromptProfileRegistry::from_entries(version, id, String::new(), entries)
                .err()
                .expect("refused"),
        )
    };
    assert_eq!(
        refuse(2, "v1", &three()),
        "unsupported level prompt profiles schema_version: 2"
    );
    assert_eq!(refuse(1, " ", &three()), "level prompt profile id cannot be empty");
    let mut odd = three();
    odd.insert("d".to_string(), wording(4));
    assert_eq!(refuse(1, "v1", &odd), "prompt profile 'd' has unsupported level 4");
    let mut twice = three();
    twice.insert("d".to_string(), wording(2));
    assert_eq!(
        refuse(1, "v1", &twice),
        "multiple prompt profiles target compression level 2"
    );
    let mut short = three();
    short.remove("b");
    assert_eq!(
        refuse(1, "v1", &short),
        "level prompt profiles do not define compression level 2"
    );
}
