use jira_sync::issue::JiraIssue;
use jira_sync::notes::board_file_name;
use jira_sync::notes::default_user_notes;
use jira_sync::notes::merge_note;
use jira_sync::notes::note_file_name;
use jira_sync::notes::tickets_dir_name;
use jira_sync::notes::update_issue_content;
use jira_sync::notes::user_notes_sentinel;

fn sample_issue() -> JiraIssue {
    JiraIssue {
        key: String::from("AB-1"),
        summary: String::from("Fix the widget"),
        status: String::from("To Do"),
        status_category: Some(String::from("new")),
        priority: None,
        issue_type: String::from("Bug"),
        created: String::from("2024-01-01T00:00:00.000+0000"),
        description: None,
    }
}

#[test]
fn first_write_renders_machine_region_sentinel_and_default() {
    let content = update_issue_content(&sample_issue(), "example.com", None);
    let expected = "---\njira_key: AB-1\njira_status: \"To Do\"\njira_url: https://example.com/browse/AB-1\ncreated_at: 2024-01-01T00:00:00.000+0000\n---\n# AB-1 Fix the widget\n\n**Type**: Bug\n**Priority**: None\n**Status**: To Do\n\n## Description\nNo description provided.\n\n%% USER_NOTES_START %%\n- [ ] ";
    assert_eq!(content, expected);
}

#[test]
fn merge_is_idempotent() {
    let issue = sample_issue();
    let first = update_issue_content(&issue, "example.com", None);
    let second = update_issue_content(&issue, "example.com", Some(&first));
    assert_eq!(first, second);
    let third = update_issue_content(&issue, "example.com", Some(&second));
    assert_eq!(second, third);
}

#[test]
fn merge_preserves_edited_user_region() {
    let sentinel = user_notes_sentinel();
    let prior = format!("old machine stuff{}\n- [x] my own note\nmore", sentinel);
    let merged = merge_note(Some(&prior), "M2", default_user_notes(), sentinel);
    let expected = format!("M2{}\n- [x] my own note\nmore", sentinel);
    assert_eq!(merged, expected);
}

#[test]
fn merge_splits_on_first_sentinel_only() {
    let sentinel = "@@";
    let prior = String::from("machine@@tail with @@ inside");
    let merged = merge_note(Some(&prior), "M", "\n- [ ] ", sentinel);
    assert_eq!(merged, "M@@tail with @@ inside");
}

#[test]
fn merge_overwrites_prior_file_without_sentinel() {
    let prior = String::from("a hand-written file with no marker");
    let merged = merge_note(Some(&prior), "M", default_user_notes(), user_notes_sentinel());
    let expected = format!("M{}\n- [ ] ", user_notes_sentinel());
    assert_eq!(merged, expected);
}

#[test]
fn merge_without_prior_file_seeds_default() {
    let merged = merge_note(None, "M", default_user_notes(), user_notes_sentinel());
    let expected = format!("M{}\n- [ ] ", user_notes_sentinel());
    assert_eq!(merged, expected);
}

#[test]
fn note_file_name_appends_extension() {
    assert_eq!(note_file_name("AB-1"), "AB-1.md");
}

#[test]
fn fixed_names_are_stable() {
    assert_eq!(user_notes_sentinel(), "%% USER_NOTES_START %%");
    assert_eq!(tickets_dir_name(), "Jira Tickets");
    assert_eq!(board_file_name(), "My Jira Board.md");
}
