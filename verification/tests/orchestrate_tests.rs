use nlsh::confirm::ConfirmState;
use nlsh::confirm::Key;
use nlsh::json::parse_provider_response;
use nlsh::orchestrate::plan_invocation;
use nlsh::orchestrate::Action;
use nlsh::prompt::build_prompt;
use nlsh::provider::current_provider;
use nlsh::provider::ensure_api_key;
use nlsh::provider::Provider;
use nlsh::store::ConfigStore;

#[test]
fn set_provider_flag_wins() {
    let a = plan_invocation(&Some("zai".to_string()), &None, &vec![]);
    assert!(matches!(a, Action::SetProvider(Provider::Zai)));
}

#[test]
fn bad_provider_name_is_rejected() {
    let a = plan_invocation(&Some("frontier".to_string()), &None, &vec![]);
    assert!(matches!(a, Action::InvalidProvider));
}

#[test]
fn set_api_key_flag_carries_the_key() {
    let a = plan_invocation(&None, &Some("k-123".to_string()), &vec![]);
    match a {
        Action::SetApiKey(k) => assert_eq!(k, "k-123"),
        _ => panic!("expected the set-api-key action"),
    }
}

#[test]
fn no_input_prints_usage() {
    let a = plan_invocation(&None, &None, &vec![]);
    assert!(matches!(a, Action::Usage));
}

#[test]
fn prompt_words_are_joined_with_spaces() {
    let words = vec!["list".to_string(), "files".to_string()];
    let a = plan_invocation(&None, &None, &words);
    match a {
        Action::Generate(p) => assert_eq!(p, "list files"),
        _ => panic!("expected the generate action"),
    }
}

#[test]
fn end_to_end_generation_scenario() {
    // configuration: a credential for the default provider
    let mut store = ConfigStore::new();
    store.load("GEMINI_API_KEY=k-123\n");
    let provider = current_provider(&store);
    assert_eq!(provider, Provider::Gemini);
    let key = ensure_api_key(&store, provider).unwrap();
    assert_eq!(key, "k-123");

    // the invocation: free words, joined
    let words = vec!["list".to_string(), "files".to_string()];
    let a = plan_invocation(&None, &None, &words);
    let user_input = match a {
        Action::Generate(p) => p,
        _ => panic!("expected the generate action"),
    };

    // the prompt embeds the request and the working directory
    let prompt = build_prompt(&user_input, "/tmp");
    assert!(prompt.contains("list files"));
    assert!(prompt.contains("/tmp"));

    // the provider answers with a command, which parsing trims
    let body = "{\"candidates\":[{\"content\":{\"parts\":[{\"text\":\"ls\"}]}}]}";
    let command = parse_provider_response(provider, body, 200).unwrap();
    assert_eq!(command, "ls");

    // the operator accepts; the command is what the executor would run
    let decision = run_confirmation(&[Key::Other, Key::Accept]);
    assert_eq!(decision, ConfirmState::Confirmed);
}

fn run_confirmation(keys: &[Key]) -> ConfirmState {
    let mut s = ConfirmState::Prompting;
    for k in keys {
        s = s.step(*k);
        if s.decided() {
            break;
        }
    }
    s
}
