use nlsh::provider::ensure_api_key;
use nlsh::provider::current_provider;
use nlsh::provider::Provider;
use nlsh::store::ConfigStore;

#[test]
fn from_str_recognizes_gemini_spellings() {
    assert_eq!(Provider::from_str("gemini"), Some(Provider::Gemini));
    assert_eq!(Provider::from_str("GEMINI"), Some(Provider::Gemini));
    assert_eq!(Provider::from_str("google"), Some(Provider::Gemini));
    assert_eq!(Provider::from_str("Google"), Some(Provider::Gemini));
}

#[test]
fn from_str_recognizes_zai_spellings() {
    assert_eq!(Provider::from_str("zai"), Some(Provider::Zai));
    assert_eq!(Provider::from_str("z.ai"), Some(Provider::Zai));
    assert_eq!(Provider::from_str("z-ai"), Some(Provider::Zai));
    assert_eq!(Provider::from_str("ZAI"), Some(Provider::Zai));
    assert_eq!(Provider::from_str("Z.AI"), Some(Provider::Zai));
    assert_eq!(Provider::from_str("Z-Ai"), Some(Provider::Zai));
}

#[test]
fn from_str_rejects_everything_else() {
    assert_eq!(Provider::from_str(""), None);
    assert_eq!(Provider::from_str("openai"), None);
    assert_eq!(Provider::from_str("gemini "), None);
    assert_eq!(Provider::from_str("zaii"), None);
}

#[test]
fn names_and_keys() {
    assert_eq!(Provider::Gemini.name(), "gemini");
    assert_eq!(Provider::Zai.name(), "zai");
    assert_eq!(Provider::Gemini.env_key(), "GEMINI_API_KEY");
    assert_eq!(Provider::Zai.env_key(), "ZAI_API_KEY");
}

#[test]
fn unset_provider_resolves_to_default() {
    let store = ConfigStore::new();
    assert_eq!(current_provider(&store), Provider::Gemini);
}

#[test]
fn unrecognized_provider_resolves_to_default() {
    let mut store = ConfigStore::new();
    store.set_str("NLSH_PROVIDER", "frontier");
    assert_eq!(current_provider(&store), Provider::Gemini);
}

#[test]
fn persisted_zai_selection_resolves() {
    let mut store = ConfigStore::new();
    store.set_str("NLSH_PROVIDER", "z.ai");
    assert_eq!(current_provider(&store), Provider::Zai);
}

#[test]
fn missing_credential_reports_the_exact_key() {
    let store = ConfigStore::new();
    let e = ensure_api_key(&store, Provider::Gemini).unwrap_err();
    assert_eq!(e, "Missing GEMINI_API_KEY. Set one via `nlsh --set-api-key`.");
    let e2 = ensure_api_key(&store, Provider::Zai).unwrap_err();
    assert!(e2.contains("ZAI_API_KEY"));
}

#[test]
fn blank_credential_counts_as_missing() {
    let mut store = ConfigStore::new();
    store.set_str("GEMINI_API_KEY", "   ");
    let e = ensure_api_key(&store, Provider::Gemini).unwrap_err();
    assert!(e.contains("GEMINI_API_KEY"));
}

#[test]
fn present_credential_is_returned_trimmed() {
    let mut store = ConfigStore::new();
    store.set_str("GEMINI_API_KEY", "  abc123  ");
    let v = ensure_api_key(&store, Provider::Gemini).unwrap();
    assert_eq!(v, "abc123");
}

#[test]
fn endpoints_are_fixed_per_provider() {
    assert!(Provider::Gemini
        .endpoint_url()
        .contains("generativelanguage.googleapis.com"));
    assert!(Provider::Zai.endpoint_url().contains("api.z.ai"));
}
