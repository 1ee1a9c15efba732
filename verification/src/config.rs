//! The run configuration, built from raw environment values handed in by
//! the caller.

use vstd::prelude::*;

verus! {

/// Why configuration loading failed: a required setting is absent.
#[derive(Clone, Copy, Debug, PartialEq, Eq, Structural)]
pub enum ConfigError {
    MissingHost,
    MissingToken,
    MissingVaultPath,
}

/// The settings of one sync run.
#[derive(Debug)]
pub struct Config {
    pub jira_host: String,
    pub jira_user: Option<String>,
    pub jira_token: String,
    pub obsidian_vault_path: String,
    pub jira_jql: String,
}

/// Builds the run configuration. Host, token and vault path are required,
/// in that order of complaint; an empty user name counts as absent; a
/// missing query falls back to the default.
pub fn config_from_env_values(
    host: Option<String>,
    user: Option<String>,
    token: Option<String>,
    vault: Option<String>,
    jql: Option<String>,
) -> (r: Result<Config, ConfigError>)
    ensures
        r is Ok <==> (host is Some && token is Some && vault is Some),
        match r {
            Ok(c) => {
                &&& c.jira_host == host->0
                &&& c.jira_token == token->0
                &&& c.obsidian_vault_path == vault->0
                &&& c.jira_user == (match user {
                    Some(u) => if u@.len() > 0 {
                        Some(u)
                    } else {
                        None
                    },
                    None => None::<String>,
                })
                &&& c.jira_jql@ == (match jql {
                    Some(q) => q@,
                    None => "assignee = currentUser() AND statusCategory != Done ORDER BY updated DESC"@,
                })
            },
            Err(e) => e == (if host is None {
                ConfigError::MissingHost
            } else if token is None {
                ConfigError::MissingToken
            } else {
                ConfigError::MissingVaultPath
            }),
        },
{
    let jira_host = match host {
        Some(h) => h,
        None => {
            return Err(ConfigError::MissingHost);
        },
    };
    let jira_token = match token {
        Some(t) => t,
        None => {
            return Err(ConfigError::MissingToken);
        },
    };
    let obsidian_vault_path = match vault {
        Some(v) => v,
        None => {
            return Err(ConfigError::MissingVaultPath);
        },
    };
    let jira_user = match user {
        Some(u) => {
            if !u.as_str().is_empty() {
                Some(u)
            } else {
                None
            }
        },
        None => None,
    };
    let jira_jql = match jql {
        Some(q) => q,
        None => String::from_str(
            "assignee = currentUser() AND statusCategory != Done ORDER BY updated DESC",
        ),
    };
    Ok(Config { jira_host, jira_user, jira_token, obsidian_vault_path, jira_jql })
}

} // verus!
