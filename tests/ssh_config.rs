use repo_task_run::ssh_config::{contains_str, strip_marked_block, BEGIN_MARKER, END_MARKER};

fn lines(v: &[&str]) -> Vec<String> {
    v.iter().map(|s| s.to_string()).collect()
}

#[test]
fn contains_str_finds_substrings() {
    assert!(contains_str("abc", ""));
    assert!(contains_str("xx# BEGIN RepoTaskRun", BEGIN_MARKER));
    assert!(contains_str("abc", "bc"));
    assert!(!contains_str("abc", "abcd"));
    assert!(!contains_str("abc", "ac"));
}

#[test]
fn marked_block_is_removed() {
    let input = lines(&[
        "Host a",
        BEGIN_MARKER,
        "Host github.com",
        "  IdentityFile x",
        END_MARKER,
        "Host b",
    ]);
    assert_eq!(strip_marked_block(&input), lines(&["Host a", "Host b"]));
}

#[test]
fn unterminated_block_drops_the_rest() {
    let input = lines(&["keep", BEGIN_MARKER, "gone", "gone too"]);
    assert_eq!(strip_marked_block(&input), lines(&["keep"]));
}

#[test]
fn config_without_markers_is_unchanged() {
    let input = lines(&["a", "b", ""]);
    assert_eq!(strip_marked_block(&input), input);
}
