use jira_sync::client::auth_header_value;
use jira_sync::client::search_fields;
use jira_sync::client::search_url;

#[test]
fn auth_with_user_is_basic_base64() {
    let user = Some(String::from("user"));
    let header = auth_header_value(&user, "token");
    assert_eq!(header, "Basic dXNlcjp0b2tlbg==");
}

#[test]
fn auth_without_user_is_bearer() {
    let header = auth_header_value(&None, "token");
    assert_eq!(header, "Bearer token");
}

#[test]
fn search_url_names_the_endpoint() {
    assert_eq!(
        search_url("jira.example.com"),
        "https://jira.example.com/rest/api/3/search"
    );
}

#[test]
fn search_fields_lists_requested_fields() {
    assert_eq!(
        search_fields(),
        "key,summary,description,status,created,priority,issuetype"
    );
}
