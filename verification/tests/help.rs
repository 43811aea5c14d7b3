use web_sw_cor24_forth::help::{render_markdown, HelpInner};

#[test]
fn markdown_renders_tables_and_strikethrough() {
    let html = render_markdown("# Title\n\n~~old~~\n\n| a | b |\n|---|---|\n| 1 | 2 |\n");
    assert!(html.contains("<h1>Title</h1>"));
    assert!(html.contains("<del>old</del>"));
    assert!(html.contains("<table>"));
    assert_ne!(html, "# Title\n\n~~old~~\n\n| a | b |\n|---|---|\n| 1 | 2 |\n");
}

#[test]
fn help_tabs() {
    assert_eq!(HelpInner::Reference.document("g", "r", "t"), "r");
    assert_eq!(HelpInner::Tutorial.document("g", "r", "t"), "t");
    assert_eq!(HelpInner::UserGuide.tab_class(HelpInner::UserGuide), "help-tab active");
    assert_eq!(HelpInner::UserGuide.tab_class(HelpInner::Tutorial), "help-tab");
}
