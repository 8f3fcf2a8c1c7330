use honu::path::history_path;

#[test]
fn history_path_prefers_the_path_given() {
    assert_eq!(
        history_path(Some(b"/tmp/history".to_vec()), Some(b"/home/me".to_vec()), b".zsh_history"),
        Some(b"/tmp/history".to_vec()),
    );
}

#[test]
fn history_path_falls_back_to_the_home_directory() {
    assert_eq!(
        history_path(None, Some(b"/home/me".to_vec()), b".zsh_history"),
        Some(b"/home/me/.zsh_history".to_vec()),
    );
    assert_eq!(
        history_path(None, Some(b"/home/me/".to_vec()), b".zsh_history"),
        Some(b"/home/me/.zsh_history".to_vec()),
    );
}

#[test]
fn history_path_needs_a_home_directory() {
    assert_eq!(history_path(None, Some(Vec::new()), b".zsh_history"), None);
    assert_eq!(history_path(None, None, b".zsh_history"), None);
}
