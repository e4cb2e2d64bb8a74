use repo_task_run::common::{
    get_state_file_path, get_system_install_path, get_system_repository_path,
    get_user_install_path, get_user_repository_path, push_path,
};

#[test]
fn install_paths_append_app_name() {
    assert_eq!(get_user_install_path("C:\\Users\\u\\AppData\\Local"), "C:\\Users\\u\\AppData\\Local\\RepoTaskRun");
    assert_eq!(get_system_install_path("C:\\ProgramData"), "C:\\ProgramData\\RepoTaskRun");
}

#[test]
fn repository_paths_append_repo() {
    assert_eq!(get_system_repository_path("C:\\ProgramData"), "C:\\ProgramData\\RepoTaskRun\\repo");
    assert_eq!(get_user_repository_path("D:\\L\\"), "D:\\L\\RepoTaskRun\\repo");
}

#[test]
fn state_file_path() {
    assert_eq!(get_state_file_path("C:\\ProgramData"), "C:\\ProgramData\\RepoTaskRun\\state.bin");
}

#[test]
fn push_path_edge_cases() {
    assert_eq!(push_path("", "x"), "x");
    assert_eq!(push_path("a/", "x"), "a/x");
    assert_eq!(push_path("a", "x"), "a\\x");
}
