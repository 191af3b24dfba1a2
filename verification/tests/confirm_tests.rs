use nlsh::confirm::run_keys;
use nlsh::confirm::ConfirmState;
use nlsh::confirm::Key;

#[test]
fn accept_key_confirms() {
    let s = ConfirmState::Prompting.step(Key::Accept);
    assert_eq!(s, ConfirmState::Confirmed);
    assert!(s.decided());
}

#[test]
fn cancel_key_cancels() {
    let s = ConfirmState::Prompting.step(Key::Cancel);
    assert_eq!(s, ConfirmState::Cancelled);
    assert!(s.decided());
}

#[test]
fn other_keys_keep_prompting() {
    let s = ConfirmState::Prompting.step(Key::Other);
    assert_eq!(s, ConfirmState::Prompting);
    assert!(!s.decided());
}

#[test]
fn five_ignored_keys_then_accept_confirms() {
    let keys = vec![
        Key::Other,
        Key::Other,
        Key::Other,
        Key::Other,
        Key::Other,
        Key::Accept,
    ];
    assert_eq!(run_keys(ConfirmState::Prompting, &keys), ConfirmState::Confirmed);
}

#[test]
fn ignored_keys_then_cancel_cancels() {
    let keys = vec![Key::Other, Key::Other, Key::Cancel];
    assert_eq!(run_keys(ConfirmState::Prompting, &keys), ConfirmState::Cancelled);
}

#[test]
fn decided_states_absorb_further_keys() {
    let keys = vec![Key::Accept, Key::Cancel, Key::Other];
    assert_eq!(run_keys(ConfirmState::Prompting, &keys), ConfirmState::Confirmed);
}
