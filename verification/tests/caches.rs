use prompt_compressor::config::profile::{ProfileDefinition, ProfileRegistry};
use prompt_compressor::runtime::compression_cache::{
    CompressionCacheKey, CompressionDraftCache, MAX_COMPRESSION_CACHE_ENTRIES,
};
use prompt_compressor::runtime::draft::CompressionDraft;
use prompt_compressor::runtime::sessions::{PreparedSessions, MAX_PREPARED_PROMPT_SESSIONS};
use prompt_compressor::types::{
    CompressionConstraints, CompressionLevel, CompressionRequest, RequestSource, RequestTarget,
};

fn request(input: &str) -> CompressionRequest {
    CompressionRequest {
        input_text: input.to_string(),
        compression_level: CompressionLevel::from_u8(2).expect("valid level"),
        profile: "internal_llm".to_string(),
        constraints: CompressionConstraints::default(),
        target: RequestTarget::codex_default(),
        source: RequestSource::Desktop,
    }
}

fn draft(prompt: &str) -> CompressionDraft {
    CompressionDraft {
        distilled_prompt: prompt.to_string(),
        removed_content_summary: Vec::new(),
    }
}

fn key(input: &str, profile: &ProfileDefinition) -> CompressionCacheKey {
    CompressionCacheKey::new(&request(input), profile)
}

#[test]
fn an_inserted_draft_is_found_under_its_own_key_only() {
    let registry = ProfileRegistry::bootstrap();
    let profile = registry.resolve("internal_llm").expect("profile");
    let other = registry.resolve("lmstudio_local").expect("profile");
    let mut cache = CompressionDraftCache::default();
    assert_eq!(cache.len(), 0);
    cache.insert(key("入力", profile), draft("短縮"));
    assert_eq!(cache.get(&key("入力", profile)), Some(draft("短縮")));
    assert_eq!(cache.get(&key("別の入力", profile)), None);
    assert_eq!(cache.get(&key("入力", other)), None);
    let mut stronger = request("入力");
    stronger.compression_level = CompressionLevel::from_u8(3).expect("valid level");
    assert_eq!(cache.get(&CompressionCacheKey::new(&stronger, profile)), None);
    cache.insert(key("入力", profile), draft("更新"));
    assert_eq!(cache.len(), 1);
    assert_eq!(cache.get(&key("入力", profile)), Some(draft("更新")));
}

#[test]
fn the_least_recently_used_draft_gives_way() {
    let registry = ProfileRegistry::bootstrap();
    let profile = registry.resolve("internal_llm").expect("profile");
    let mut cache = CompressionDraftCache::default();
    for i in 0..MAX_COMPRESSION_CACHE_ENTRIES {
        cache.insert(key(&format!("{i}"), profile), draft(&format!("d{i}")));
    }
    assert_eq!(cache.get(&key("0", profile)), Some(draft("d0")));
    cache.insert(key("new", profile), draft("fresh"));
    assert_eq!(cache.len(), MAX_COMPRESSION_CACHE_ENTRIES);
    assert_eq!(cache.get(&key("1", profile)), None);
    assert_eq!(cache.get(&key("0", profile)), Some(draft("d0")));
    assert_eq!(cache.get(&key("2", profile)), Some(draft("d2")));
    assert_eq!(cache.get(&key("new", profile)), Some(draft("fresh")));
}

#[test]
fn prepared_sessions_are_few_and_the_first_name_gives_way() {
    let mut sessions: PreparedSessions<u32> = PreparedSessions::default();
    for (name, value) in [("c", 3), ("a", 1), ("b", 2)] {
        sessions.store(name.to_string(), value);
    }
    assert_eq!(sessions.len(), MAX_PREPARED_PROMPT_SESSIONS);
    sessions.store("b".to_string(), 20);
    assert_eq!(sessions.len(), 3);
    assert_eq!(sessions.get("b"), Some(&20));
    sessions.store("d".to_string(), 4);
    assert_eq!(sessions.len(), 3);
    assert!(!sessions.contains("a"));
    assert!(sessions.contains("b") && sessions.contains("c") && sessions.contains("d"));
    assert_eq!(sessions.get("d"), Some(&4));
    assert_eq!(sessions.get("a"), None);
}
