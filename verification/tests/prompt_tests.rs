use nlsh::prompt::build_prompt;

#[test]
fn build_prompt_is_pure() {
    let a = build_prompt("list files", "/tmp");
    let b = build_prompt("list files", "/tmp");
    assert_eq!(a, b);
}

#[test]
fn build_prompt_contains_inputs_verbatim() {
    let p = build_prompt("show me the biggest file", "/home/someone/work");
    assert!(p.contains("show me the biggest file"));
    assert!(p.contains("/home/someone/work"));
}

#[test]
fn build_prompt_has_no_markdown_fence() {
    let p = build_prompt("list files", "/tmp");
    assert!(!p.contains("```"));
    assert!(!p.contains('`'));
}

#[test]
fn build_prompt_exact_shape() {
    let p = build_prompt("x", "/d");
    assert!(p.starts_with(
        "You are a shell command translator. Convert the user's request into a shell command for Linux/zsh.\nCurrent directory: /d\n\nRules:\n"
    ));
    assert!(p.ends_with("User request: x"));
}
