use jira_sync::board::generate_kanban_board;
use jira_sync::issue::JiraIssue;

fn issue(key: &str, status: &str, category: Option<&str>) -> JiraIssue {
    JiraIssue {
        key: String::from(key),
        summary: String::from("s"),
        status: String::from(status),
        status_category: category.map(String::from),
        priority: None,
        issue_type: String::from("Task"),
        created: String::from("2024-01-01"),
        description: None,
    }
}

#[test]
fn board_groups_by_status_and_orders_by_category_rank() {
    let issues = vec![
        issue("AB-2", "Done", Some("done")),
        issue("AB-1", "To Do", Some("new")),
        issue("AB-3", "To Do", Some("new")),
    ];
    let board = generate_kanban_board(&issues);
    let expected = "---\nkanban-plugin: basic\n---\n\n## To Do\n\n- [ ] [[Jira Tickets/AB-1]]\n- [ ] [[Jira Tickets/AB-3]]\n\n## Done\n\n- [ ] [[Jira Tickets/AB-2]]\n\n%% kanban:settings\n{\"kanban-plugin\":\"basic\",\"list-collapse\":[false,false]}\n%%\n";
    assert_eq!(board, expected);
}

#[test]
fn board_is_deterministic_across_runs() {
    let issues = vec![
        issue("K-1", "Review", None),
        issue("K-2", "Done", Some("done")),
        issue("K-3", "Review", None),
        issue("K-4", "New", Some("new")),
    ];
    let once = generate_kanban_board(&issues);
    let twice = generate_kanban_board(&issues);
    assert_eq!(once, twice);
}

#[test]
fn board_breaks_rank_ties_lexicographically() {
    let issues = vec![issue("K-1", "Beta", None), issue("K-2", "Alpha", None)];
    let board = generate_kanban_board(&issues);
    let alpha = board.find("## Alpha").unwrap();
    let beta = board.find("## Beta").unwrap();
    assert!(alpha < beta);
}

#[test]
fn board_rank_comes_from_first_issue_of_a_status() {
    // The first "Mixed" issue carries the done category, so the whole
    // column ranks after the new-category column despite the second issue.
    let issues = vec![
        issue("K-1", "Mixed", Some("done")),
        issue("K-2", "Fresh", Some("new")),
        issue("K-3", "Mixed", Some("new")),
    ];
    let board = generate_kanban_board(&issues);
    let fresh = board.find("## Fresh").unwrap();
    let mixed = board.find("## Mixed").unwrap();
    assert!(fresh < mixed);
}

#[test]
fn board_unrecognized_category_ranks_last() {
    let issues = vec![
        issue("K-1", "Odd", Some("someday")),
        issue("K-2", "Done", Some("done")),
        issue("K-3", "Bare", None),
    ];
    let board = generate_kanban_board(&issues);
    let done = board.find("## Done").unwrap();
    let bare = board.find("## Bare").unwrap();
    let odd = board.find("## Odd").unwrap();
    assert!(done < bare);
    assert!(bare < odd);
}

#[test]
fn board_of_no_issues_has_no_sections() {
    let issues: Vec<JiraIssue> = Vec::new();
    let board = generate_kanban_board(&issues);
    let expected = "---\nkanban-plugin: basic\n---\n\n%% kanban:settings\n{\"kanban-plugin\":\"basic\",\"list-collapse\":[]}\n%%\n";
    assert_eq!(board, expected);
}

#[test]
fn board_in_progress_category_ranks_between() {
    let issues = vec![
        issue("K-1", "Done", Some("done")),
        issue("K-2", "Doing", Some("indeterminate")),
        issue("K-3", "Todo", Some("new")),
    ];
    let board = generate_kanban_board(&issues);
    let todo = board.find("## Todo").unwrap();
    let doing = board.find("## Doing").unwrap();
    let done = board.find("## Done").unwrap();
    assert!(todo < doing);
    assert!(doing < done);
}
