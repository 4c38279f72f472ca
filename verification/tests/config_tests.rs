use cardgen::config::AiConfigStore;
use cardgen::config::AiGenerationConfig;
use cardgen::config::ProviderApiKey;
use cardgen::config::merge_api_keys;
use cardgen::types::ProviderKind;

fn provider_names(config: &AiGenerationConfig) -> Vec<String> {
    config
        .api_keys
        .iter()
        .map(|k| k.provider.as_str().to_string())
        .collect()
}

#[test]
fn load_without_stored_data_yields_defaults() {
    let store = AiConfigStore::new(None);
    let config = store.load();
    assert!(config.selected_provider.is_none());
    assert!(config.preferred_model.is_none());
    assert_eq!(
        provider_names(&config),
        vec!["gemini".to_string(), "openrouter".to_string(), "perplexity".to_string()]
    );
    for entry in &config.api_keys {
        assert!(entry.api_key.is_none());
        assert!(!entry.masked);
    }
}

#[test]
fn ensure_defaults_keeps_stored_entries_and_sorts() {
    let mut config = AiGenerationConfig::default();
    config.api_keys = vec![
        ProviderApiKey::new(ProviderKind::Perplexity, Some("p-key".to_string())),
        ProviderApiKey::new(ProviderKind::Custom("zeta".to_string()), None),
    ];
    config.ensure_defaults();
    assert_eq!(
        provider_names(&config),
        vec![
            "gemini".to_string(),
            "openrouter".to_string(),
            "perplexity".to_string(),
            "zeta".to_string(),
        ]
    );
    let perplexity = &config.api_keys[2];
    assert_eq!(perplexity.api_key.as_deref(), Some("p-key"));
    assert!(perplexity.masked);
}

#[test]
fn save_preserves_secret_for_masked_entry_without_plaintext() {
    let mut stored = AiGenerationConfig::default();
    stored.api_keys = vec![ProviderApiKey::new(
        ProviderKind::Gemini,
        Some("alpha-secret-key".to_string()),
    )];
    stored.ensure_defaults();
    let mut store = AiConfigStore::new(Some(stored));

    let mut incoming = AiGenerationConfig::default();
    incoming.api_keys = vec![ProviderApiKey {
        provider: ProviderKind::Gemini,
        api_key: None,
        masked: true,
    }];
    store.save(&incoming);

    let loaded = store.load();
    let gemini = loaded
        .api_keys
        .iter()
        .find(|k| k.provider.as_str() == "gemini")
        .unwrap();
    assert_eq!(gemini.api_key.as_deref(), Some("alpha-secret-key"));
    assert!(gemini.masked);
}

#[test]
fn save_overwrites_with_unmasked_entry_and_read_masks_it() {
    let mut stored = AiGenerationConfig::default();
    stored.api_keys = vec![ProviderApiKey::new(
        ProviderKind::Gemini,
        Some("old-key".to_string()),
    )];
    stored.ensure_defaults();
    let mut store = AiConfigStore::new(Some(stored));

    let mut incoming = AiGenerationConfig::default();
    incoming.api_keys = vec![ProviderApiKey {
        provider: ProviderKind::Gemini,
        api_key: Some("new-key".to_string()),
        masked: false,
    }];
    store.save(&incoming);

    let loaded = store.load();
    let gemini = loaded
        .api_keys
        .iter()
        .find(|k| k.provider.as_str() == "gemini")
        .unwrap();
    assert_eq!(gemini.api_key.as_deref(), Some("new-key"));

    let public = loaded.public_config();
    let public_gemini = public
        .api_keys
        .iter()
        .find(|k| k.provider.as_str() == "gemini")
        .unwrap();
    assert!(public_gemini.masked);

    let remasked = ProviderApiKey::new(ProviderKind::Gemini, Some("new-key".to_string()));
    assert!(remasked.masked);
    assert!(remasked.public_entry().api_key.is_none());
}

#[test]
fn public_config_blanks_masked_keys_only() {
    let mut config = AiGenerationConfig::default();
    config.api_keys = vec![
        ProviderApiKey {
            provider: ProviderKind::Gemini,
            api_key: Some("visible".to_string()),
            masked: false,
        },
        ProviderApiKey {
            provider: ProviderKind::Perplexity,
            api_key: Some("hidden".to_string()),
            masked: true,
        },
    ];
    let public = config.public_config();
    assert_eq!(public.api_keys[0].api_key.as_deref(), Some("visible"));
    assert!(public.api_keys[0].masked);
    assert!(public.api_keys[1].api_key.is_none());
    assert!(public.api_keys[1].masked);
}

#[test]
fn merge_api_keys_skips_masked_and_trims_unmasked() {
    let mut existing = vec![ProviderApiKey::new(
        ProviderKind::Gemini,
        Some("keep-me".to_string()),
    )];
    let incoming = vec![
        ProviderApiKey {
            provider: ProviderKind::Gemini,
            api_key: None,
            masked: true,
        },
        ProviderApiKey {
            provider: ProviderKind::OpenRouter,
            api_key: Some("  spaced  ".to_string()),
            masked: false,
        },
        ProviderApiKey {
            provider: ProviderKind::Perplexity,
            api_key: Some("   ".to_string()),
            masked: false,
        },
    ];
    merge_api_keys(&mut existing, incoming);
    let names: Vec<String> = existing
        .iter()
        .map(|k| k.provider.as_str().to_string())
        .collect();
    assert_eq!(
        names,
        vec!["gemini".to_string(), "openrouter".to_string(), "perplexity".to_string()]
    );
    assert_eq!(existing[0].api_key.as_deref(), Some("keep-me"));
    assert_eq!(existing[1].api_key.as_deref(), Some("spaced"));
    assert!(existing[1].masked);
    assert!(existing[2].api_key.is_none());
    assert!(!existing[2].masked);
}

#[test]
fn set_ai_config_without_persist_leaves_stored_keys() {
    let mut stored = AiGenerationConfig::default();
    stored.api_keys = vec![ProviderApiKey::new(
        ProviderKind::Gemini,
        Some("stay".to_string()),
    )];
    stored.ensure_defaults();
    let mut store = AiConfigStore::new(Some(stored));

    let mut incoming = AiGenerationConfig::default();
    incoming.preferred_model = Some("other-model".to_string());
    incoming.api_keys = vec![ProviderApiKey {
        provider: ProviderKind::Gemini,
        api_key: Some("ignored".to_string()),
        masked: false,
    }];
    store.set_ai_config(&incoming, false);

    let loaded = store.load();
    assert_eq!(loaded.preferred_model.as_deref(), Some("other-model"));
    let gemini = loaded
        .api_keys
        .iter()
        .find(|k| k.provider.as_str() == "gemini")
        .unwrap();
    assert_eq!(gemini.api_key.as_deref(), Some("stay"));
}

#[test]
fn api_key_for_finds_entry_by_provider() {
    let mut config = AiGenerationConfig::default();
    config.api_keys = vec![ProviderApiKey::new(
        ProviderKind::OpenRouter,
        Some("router-key".to_string()),
    )];
    assert_eq!(
        config.api_key_for(&ProviderKind::OpenRouter).as_deref(),
        Some("router-key")
    );
    assert!(config.api_key_for(&ProviderKind::Gemini).is_none());
}

#[test]
fn provider_selected_falls_back_to_gemini() {
    let config = AiGenerationConfig::default();
    assert_eq!(config.provider_selected().as_str(), "gemini");
    let mut chosen = AiGenerationConfig::default();
    chosen.selected_provider = Some(ProviderKind::Perplexity);
    assert_eq!(chosen.provider_selected().as_str(), "perplexity");
}

#[test]
fn set_ai_config_with_persist_merges_keys() {
    let mut stored = AiGenerationConfig::default();
    stored.api_keys = vec![ProviderApiKey::new(
        ProviderKind::Gemini,
        Some("original".to_string()),
    )];
    stored.ensure_defaults();
    let mut store = AiConfigStore::new(Some(stored));

    let mut incoming = AiGenerationConfig::default();
    incoming.api_keys = vec![
        ProviderApiKey {
            provider: ProviderKind::Gemini,
            api_key: None,
            masked: true,
        },
        ProviderApiKey {
            provider: ProviderKind::OpenRouter,
            api_key: Some("fresh".to_string()),
            masked: false,
        },
    ];
    store.set_ai_config(&incoming, true);

    let loaded = store.load();
    let gemini = loaded
        .api_keys
        .iter()
        .find(|k| k.provider.as_str() == "gemini")
        .unwrap();
    assert_eq!(gemini.api_key.as_deref(), Some("original"));
    let router = loaded
        .api_keys
        .iter()
        .find(|k| k.provider.as_str() == "openrouter")
        .unwrap();
    assert_eq!(router.api_key.as_deref(), Some("fresh"));
}

#[test]
fn configured_default_max_cards_truncates_when_request_has_none() {
    let raw = r#"[
        {"front": "1", "back": "a"},
        {"front": "2", "back": "b"},
        {"front": "3", "back": "c"}
    ]"#;
    let mut config = AiGenerationConfig::default();
    config.default_max_cards = Some(1);
    let constraints = cardgen::types::GenerationConstraints::default();
    let outcome = cardgen::controller::AiGenerationController::complete_generation(
        &config,
        &constraints,
        raw.to_string(),
    )
    .unwrap();
    assert_eq!(outcome.notes.len(), 1);
    assert_eq!(outcome.notes[0].fields[0].value, "1");
}
