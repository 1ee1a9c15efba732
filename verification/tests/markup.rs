use jira_sync::markup::translate;

#[test]
fn translate_h1_heading() {
    assert_eq!(translate("h1. Title"), "# Title");
}

#[test]
fn translate_h2_and_h3_headings() {
    assert_eq!(translate("h2. Sub"), "## Sub");
    assert_eq!(translate("h3. Deep"), "### Deep");
}

#[test]
fn translate_heading_only_at_line_start() {
    assert_eq!(translate("say h1. not here"), "say h1. not here");
    assert_eq!(translate("h1. A\nh2. B"), "# A\n## B");
}

#[test]
fn translate_heading_needs_space() {
    assert_eq!(translate("h1.Tight"), "h1.Tight");
}

#[test]
fn translate_bold() {
    assert_eq!(translate("*bold*"), "**bold**");
    assert_eq!(translate("say *bold* twice *more*"), "say **bold** twice **more**");
}

#[test]
fn translate_bold_does_not_cross_lines() {
    assert_eq!(translate("*a\nb*"), "*a\nb*");
    assert_eq!(translate("dangling * star"), "dangling * star");
    assert_eq!(translate("**"), "**");
}

#[test]
fn translate_code_fences() {
    assert_eq!(translate("{code}"), "```");
    assert_eq!(translate("{noformat}"), "```");
}

#[test]
fn translate_code_fence_with_language() {
    let fenced = translate("{code:rust}");
    assert_eq!(fenced, "```rust");
    assert!(fenced.contains("rust"));
}

#[test]
fn translate_code_fence_empty_language_stays_literal() {
    assert_eq!(translate("{code:}"), "{code:}");
}

#[test]
fn translate_piped_link() {
    assert_eq!(translate("[Label|http://x]"), "[Label](http://x)");
}

#[test]
fn translate_partial_link_stays_literal() {
    assert_eq!(translate("[only label]"), "[only label]");
    assert_eq!(translate("[open|no close"), "[open|no close");
}

#[test]
fn translate_plain_text_is_unchanged() {
    assert_eq!(translate("nothing to do here."), "nothing to do here.");
    assert_eq!(translate(""), "");
}

#[test]
fn translate_applies_all_rules_in_order() {
    assert_eq!(
        translate("h1. T\n*b* [L|u] {code:py}"),
        "# T\n**b** [L](u) ```py"
    );
}
