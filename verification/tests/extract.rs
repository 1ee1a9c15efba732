use jira_sync::richtext::AdfNodeKind;
use jira_sync::richtext::JiraADF;
use jira_sync::richtext::JiraADFNode;
use jira_sync::richtext::extract_description;
use jira_sync::richtext::extract_text_from_adf;
use jira_sync::richtext::extract_text_from_node;

fn text_leaf(s: &str) -> JiraADFNode {
    JiraADFNode { node_type: AdfNodeKind::Text, text: Some(String::from(s)), content: Vec::new() }
}

fn paragraph(children: Vec<JiraADFNode>) -> JiraADFNode {
    JiraADFNode { node_type: AdfNodeKind::Paragraph, text: None, content: children }
}

#[test]
fn test_extract_text_from_adf() {
    let adf = JiraADF { content: vec![paragraph(vec![text_leaf("Hello "), text_leaf("World")])] };
    let text = extract_text_from_adf(&adf);
    assert_eq!(text, "Hello World");
}

#[test]
fn test_extract_text_empty() {
    let adf = JiraADF { content: vec![] };
    let text = extract_text_from_adf(&adf);
    assert_eq!(text, "No description provided.");
}

#[test]
fn extract_two_paragraphs_make_two_blocks() {
    let adf = JiraADF {
        content: vec![
            paragraph(vec![text_leaf("Hello ")]),
            paragraph(vec![text_leaf("World")]),
        ],
    };
    let text = extract_text_from_adf(&adf);
    assert_eq!(text, "Hello \n\nWorld");
}

#[test]
fn extract_absent_description_gives_placeholder() {
    let text = extract_description(None);
    assert_eq!(text, "No description provided.");
    assert!(!text.is_empty());
}

#[test]
fn extract_whitespace_only_gives_placeholder() {
    let adf = JiraADF { content: vec![paragraph(vec![text_leaf("   \n\t")])] };
    let text = extract_text_from_adf(&adf);
    assert_eq!(text, "No description provided.");
}

#[test]
fn extract_bullet_list_marks_items() {
    let list = JiraADFNode {
        node_type: AdfNodeKind::BulletList,
        text: None,
        content: vec![
            JiraADFNode {
                node_type: AdfNodeKind::ListItem,
                text: None,
                content: vec![text_leaf("alpha")],
            },
            JiraADFNode {
                node_type: AdfNodeKind::ListItem,
                text: None,
                content: vec![text_leaf("beta")],
            },
        ],
    };
    let adf = JiraADF { content: vec![list] };
    let text = extract_text_from_adf(&adf);
    assert_eq!(text, "alpha\n- beta\n-");
}

#[test]
fn extract_unknown_kind_contributes_text_but_no_suffix() {
    let unknown = JiraADFNode {
        node_type: AdfNodeKind::Unknown,
        text: Some(String::from("inline ")),
        content: vec![text_leaf("tail")],
    };
    let adf = JiraADF { content: vec![unknown] };
    let text = extract_text_from_adf(&adf);
    assert_eq!(text, "inline tail");
}

#[test]
fn extract_node_appends_to_accumulator() {
    let mut out = String::from("before|");
    extract_text_from_node(&text_leaf("x"), &mut out);
    assert_eq!(out, "before|x");
    let mut out2 = String::new();
    extract_text_from_node(&paragraph(vec![text_leaf("p")]), &mut out2);
    assert_eq!(out2, "p\n\n");
}
