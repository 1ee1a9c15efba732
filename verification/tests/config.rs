use jira_sync::config::Config;
use jira_sync::config::ConfigError;
use jira_sync::config::config_from_env_values;

fn some(s: &str) -> Option<String> {
    Some(String::from(s))
}

fn full() -> Result<Config, ConfigError> {
    config_from_env_values(
        some("jira.example.com"),
        some("me"),
        some("tok"),
        some("/vault"),
        some("project = AB"),
    )
}

#[test]
fn config_accepts_full_environment() {
    let c = full().unwrap();
    assert_eq!(c.jira_host, "jira.example.com");
    assert_eq!(c.jira_user.as_deref(), Some("me"));
    assert_eq!(c.jira_token, "tok");
    assert_eq!(c.obsidian_vault_path, "/vault");
    assert_eq!(c.jira_jql, "project = AB");
}

#[test]
fn config_missing_host_is_reported_first() {
    let r = config_from_env_values(None, some("me"), None, None, None);
    assert_eq!(r.unwrap_err(), ConfigError::MissingHost);
}

#[test]
fn config_missing_token_is_reported() {
    let r = config_from_env_values(some("h"), None, None, some("/v"), None);
    assert_eq!(r.unwrap_err(), ConfigError::MissingToken);
}

#[test]
fn config_missing_vault_path_is_reported() {
    let r = config_from_env_values(some("h"), None, some("t"), None, None);
    assert_eq!(r.unwrap_err(), ConfigError::MissingVaultPath);
}

#[test]
fn config_empty_user_counts_as_absent() {
    let c = config_from_env_values(some("h"), some(""), some("t"), some("/v"), some("q")).unwrap();
    assert_eq!(c.jira_user, None);
}

#[test]
fn config_absent_query_falls_back_to_default() {
    let c = config_from_env_values(some("h"), None, some("t"), some("/v"), None).unwrap();
    assert_eq!(
        c.jira_jql,
        "assignee = currentUser() AND statusCategory != Done ORDER BY updated DESC"
    );
}
