use nlsh::profile::mirror_profile_content;

#[test]
fn mirror_creates_the_export_line() {
    let out = mirror_profile_content("", "K", "V");
    assert_eq!(out, "export K=\"V\"\n");
}

#[test]
fn mirror_preserves_other_lines_verbatim() {
    let out = mirror_profile_content("alias ll='ls -l'\nexport PATH=\"$PATH:/x\"\n", "K", "V");
    assert_eq!(out, "alias ll='ls -l'\nexport PATH=\"$PATH:/x\"\nexport K=\"V\"\n");
}

#[test]
fn mirror_twice_is_idempotent() {
    let once = mirror_profile_content("alias a=b\n", "K", "V");
    let twice = mirror_profile_content(&once, "K", "V");
    assert_eq!(once, twice);
    let k_lines: Vec<&str> = twice.lines().filter(|l| l.contains("export K=")).collect();
    assert_eq!(k_lines, vec!["export K=\"V\""]);
}

#[test]
fn mirror_with_new_value_replaces_not_duplicates() {
    let once = mirror_profile_content("alias a=b\n", "K", "V");
    let again = mirror_profile_content(&once, "K", "V2");
    assert_eq!(again, mirror_profile_content("alias a=b\n", "K", "V2"));
    let k_lines: Vec<&str> = again.lines().filter(|l| l.starts_with("export K=")).collect();
    assert_eq!(k_lines, vec!["export K=\"V2\""]);
}

#[test]
fn mirror_drops_indented_export_lines_too() {
    let out = mirror_profile_content("  export K=\"old\"\nkeep=me\n", "K", "new");
    assert_eq!(out, "keep=me\nexport K=\"new\"\n");
}

#[test]
fn mirror_keeps_exports_of_other_keys() {
    let out = mirror_profile_content("export KLONG=\"x\"\n", "K", "V");
    assert_eq!(out, "export KLONG=\"x\"\nexport K=\"V\"\n");
}

#[test]
fn mirror_handles_file_without_trailing_newline() {
    let out = mirror_profile_content("alias a=b", "K", "V");
    assert_eq!(out, "alias a=b\nexport K=\"V\"\n");
}
