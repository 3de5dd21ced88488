use srch::remove_whitespace::remove_whitespace;

#[test]
fn test_remove_whitespace() {
    let text = "  Hello  World!  ";
    let result = remove_whitespace(text);
    assert_eq!(result, "HelloWorld!");

    let text_with_tabs_and_newlines = "Hello\tWorld\n!";
    let result = remove_whitespace(text_with_tabs_and_newlines);
    assert_eq!(result, "HelloWorld!");

    let text_no_whitespace = "HelloWorld!";
    let result = remove_whitespace(text_no_whitespace);
    assert_eq!(result, "HelloWorld!");

    let empty_text = "";
    let result = remove_whitespace(empty_text);
    assert_eq!(result, "");
}
