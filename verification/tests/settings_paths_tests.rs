use job_mailer::paths::{
    app_data_dir, app_settings_path, context_infra_tmp_debug_log_path, history_path, join_path,
    job_mailer_package_debug_log_path, repo_root_cursor_debug_log_path,
};
use job_mailer::settings::{
    default_gemini_web_search_context_size, settings_from_file, StoredSettings,
};

#[test]
fn missing_settings_file_gives_defaults() {
    let s = settings_from_file(None);
    assert_eq!(s.smtp_port, 587);
    assert_eq!(s.gemini_web_search_context_size, "medium");
    assert!(!s.enable_gemini_google_search);
    assert_eq!(s.llm_base_url, "");
    assert_eq!(s.email_user_suffix_prompt, "");
}

#[test]
fn port_zero_becomes_default_port() {
    let mut stored = StoredSettings::default();
    stored.llm_model = "doubao-chat".to_string();
    let s = settings_from_file(Some(stored));
    assert_eq!(s.smtp_port, 587);
    assert_eq!(s.llm_model, "doubao-chat");
    assert_eq!(s.gemini_web_search_context_size, "");
    let mut stored = StoredSettings::default();
    stored.smtp_port = 465;
    assert_eq!(settings_from_file(Some(stored)).smtp_port, 465);
}

#[test]
fn default_context_size() {
    assert_eq!(default_gemini_web_search_context_size(), "medium");
}

#[test]
fn joins_like_pathbuf() {
    for (base, name) in [("/a/b", "c"), ("/a/b/", "c"), ("", "c"), ("a", "/abs"), ("/", "x")] {
        let expected = std::path::Path::new(base).join(name);
        assert_eq!(join_path(base, name), expected.to_str().unwrap(), "{:?} {:?}", base, name);
    }
}

#[test]
fn application_files() {
    assert_eq!(app_data_dir(None).unwrap_err(), "无法解析本机配置目录");
    let dir = app_data_dir(Some("/Users/u/Library/Application Support".to_string())).unwrap();
    assert_eq!(dir, "/Users/u/Library/Application Support/job-mailer");
    assert_eq!(app_settings_path(&dir), format!("{}/settings.json", dir));
    assert_eq!(history_path(&dir), format!("{}/generation_history.json", dir));
}

#[test]
fn diagnostic_log_paths() {
    let manifest = "/repo/job-mailer/src-tauri";
    assert_eq!(
        job_mailer_package_debug_log_path(manifest).as_deref(),
        Some("/repo/job-mailer/debug-9dc719.log")
    );
    assert_eq!(
        repo_root_cursor_debug_log_path(manifest).as_deref(),
        Some("/repo/.cursor/debug-9dc719.log")
    );
    assert_eq!(
        context_infra_tmp_debug_log_path(manifest).as_deref(),
        Some("/repo/context-infrastructure/tmp/debug-9dc719.log")
    );
    assert_eq!(job_mailer_package_debug_log_path("/"), None);
    assert_eq!(repo_root_cursor_debug_log_path("/top"), None);
    assert_eq!(
        job_mailer_package_debug_log_path("src-tauri").as_deref(),
        Some("debug-9dc719.log")
    );
}
