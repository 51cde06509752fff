use bit::config::{
    get_key, get_settings, key_path, key_to_store, load_agent_config, load_settings, set_key,
    settings_path, AgentConfig, Settings,
};

#[test]
fn unreadable_settings_mean_the_defaults() {
    let s = load_settings(None);
    assert_eq!(s.base_url, "https://api.z.ai/api/anthropic");
    assert_eq!(s.model, "glm-5.2");
    assert_eq!(s.stt_model, "parakeet-v2");
    assert_eq!(s.provider, "");
    assert!(!s.developer_mode);
    assert_eq!(load_settings(Some(s.clone())), s);
}

#[test]
fn keys_come_back_without_whitespace() {
    let stored = set_key("  SECRET \n");
    assert_eq!(stored, "SECRET");
    assert_eq!(get_key(Some(stored)), Some("SECRET".to_string()));
    assert_eq!(get_key(Some(" \n".to_string())), None);
    assert_eq!(get_key(None), None);
}

#[test]
fn an_empty_key_field_stores_nothing() {
    assert_eq!(key_to_store(Some(String::new())), None);
    assert_eq!(key_to_store(Some(" ".to_string())), Some(" ".to_string()));
    assert_eq!(key_to_store(None), None);
}

#[test]
fn the_agent_needs_a_key() {
    let s = Settings::default();
    assert_eq!(load_agent_config(s.clone(), None), None);
    assert_eq!(
        load_agent_config(s.clone(), Some("k".to_string())),
        Some(AgentConfig {
            provider: s.provider,
            base_url: s.base_url,
            model: s.model,
            api_key: "k".to_string(),
        })
    );
}

#[test]
fn shown_settings_say_whether_there_is_a_key() {
    assert!(get_settings(Settings::default(), Some(" k ".to_string())).has_key);
    assert!(!get_settings(Settings::default(), Some("  ".to_string())).has_key);
    let v = get_settings(Settings::default(), None);
    assert!(!v.has_key && !v.developer_mode);
    assert_eq!(v.model, "glm-5.2");
}

#[test]
fn files_lie_in_the_settings_directory() {
    assert_eq!(settings_path("/c"), "/c/settings.json");
    assert_eq!(key_path("/c"), "/c/api_key");
}
