use sampo_core::markdown::format_markdown_list_item;

#[test]
fn list_item_single_line() {
    assert_eq!(format_markdown_list_item("feat: x"), "- feat: x\n");
}

#[test]
fn list_item_indents_continuation_lines() {
    assert_eq!(
        format_markdown_list_item("feat: x\n- nested\r\nmore\n"),
        "- feat: x\n  - nested\n  more\n"
    );
}

#[test]
fn list_item_of_empty_message_is_a_bare_bullet() {
    assert_eq!(format_markdown_list_item(""), "- \n");
    assert_eq!(format_markdown_list_item("\n"), "- \n");
}
