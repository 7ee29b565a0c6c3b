use fpm::settings::{default_git_command, Setting, Settings};

#[test]
fn verify_default_git() {
    assert_eq!(default_git_command(), "git clone {FPM_GIT_URL}".to_string())
}

#[test]
fn verify_default_settings() {
    assert_eq!(
        Settings::default(),
        Settings {
            base_dir: None,
            template_dir: None,
            database_dir: None,
            git_command: "git clone {fpm_git_url} --recursive {fpm_project_dir}".to_string(),
            config_dir: "".to_string(),
        }
    )
}

#[test]
fn setting_names_are_recognised() {
    assert_eq!(Setting::parse("base_dir"), Some(Setting::BaseDir));
    assert_eq!(Setting::parse("template_dir"), Some(Setting::TemplateDir));
    assert_eq!(Setting::parse("git_command"), Some(Setting::GitCommand));
    assert_eq!(Setting::parse("database_dir"), None);
    assert_eq!(Setting::parse(""), None);
}

#[test]
fn set_changes_one_setting() {
    let mut settings = Settings::default();
    settings.set(Setting::BaseDir, "/home/me/dev".to_string());
    assert_eq!(settings.base_dir, Some("/home/me/dev".to_string()));
    assert_eq!(settings.template_dir, None);
    settings.set(Setting::TemplateDir, "/home/me/templates".to_string());
    assert_eq!(settings.template_dir, Some("/home/me/templates".to_string()));
    settings.set(Setting::GitCommand, "git clone {fpm_git_url}".to_string());
    assert_eq!(settings.git_command, "git clone {fpm_git_url}".to_string());
    assert_eq!(settings.base_dir, Some("/home/me/dev".to_string()));
    assert_eq!(settings.database_dir, None);
    assert_eq!(settings.config_dir, "".to_string());
}

#[test]
fn base_dir_prefers_the_given_directory() {
    let mut settings = Settings::default();
    assert_eq!(settings.resolve_base_dir(None), None);
    assert_eq!(settings.resolve_base_dir(Some("/tmp/x".to_string())), Some("/tmp/x".to_string()));
    settings.base_dir = Some("/home/me/dev".to_string());
    assert_eq!(settings.resolve_base_dir(None), Some("/home/me/dev".to_string()));
    assert_eq!(settings.resolve_base_dir(Some("/tmp/x".to_string())), Some("/tmp/x".to_string()));
}

#[test]
fn template_dir_defaults_below_the_base() {
    let mut settings = Settings::default();
    settings.ensure_template_dir("/home/me/dev");
    assert_eq!(settings.template_dir, Some("/home/me/dev/templates".to_string()));
    settings.ensure_template_dir("/elsewhere");
    assert_eq!(settings.template_dir, Some("/home/me/dev/templates".to_string()));
}

#[test]
fn clone_command_of_the_default_settings() {
    let settings = Settings::default();
    assert_eq!(
        settings.git_clone_command("https://example.org/r.git", "/home/me/dev/r"),
        vec![
            "git".to_string(),
            "clone".to_string(),
            "https://example.org/r.git".to_string(),
            "--recursive".to_string(),
            "/home/me/dev/r".to_string(),
        ]
    );
}

#[test]
fn clone_command_with_the_old_placeholder() {
    let mut settings = Settings::default();
    settings.git_command = default_git_command();
    assert_eq!(
        settings.git_clone_command("URL", "/p"),
        vec!["git".to_string(), "clone".to_string(), "URL".to_string()]
    );
}
