use sitegen::dom::parse;

const DEFAULT_DOC: &str = "<html>\n<head>\n<title>Generated with sitegen!</title>\n</head>\n<body>\n</body>\n</html>";

#[test]
fn empty_input_gives_default_document() {
    let out = parse(String::new()).unwrap();
    assert_eq!(out, DEFAULT_DOC);
}

#[test]
fn input_without_directives_gives_default_document() {
    let out = parse("hello\nworld\n\nplain text, no brackets\n".to_string()).unwrap();
    assert_eq!(out, DEFAULT_DOC);
}

#[test]
fn title_directive_sets_the_title_once() {
    let out = parse("[title = \"My Page\"]\n".to_string()).unwrap();
    assert_eq!(
        out,
        "<html>\n<head>\n<title>My Page</title>\n</head>\n<body>\n</body>\n</html>"
    );
    assert_eq!(out.matches("<title>").count(), 1);
    assert!(!out.contains("Generated with sitegen!"));
}

#[test]
fn second_title_directive_wins() {
    let out = parse("[title = \"First\"]\n[title = \"Second\"]\n".to_string()).unwrap();
    assert!(out.contains("<title>Second</title>"));
    assert!(!out.contains("First"));
}

#[test]
fn other_keys_become_meta_lines() {
    let out = parse("[author = \"Jane Doe\"]\n".to_string()).unwrap();
    assert_eq!(
        out,
        "<html>\n<head>\n<title>Generated with sitegen!</title>\n<meta name=\"author\" content=\"Jane Doe\">\n</head>\n<body>\n</body>\n</html>"
    );
}

#[test]
fn second_value_for_a_key_overwrites_the_first() {
    let out = parse("[author = \"First\"]\n[author = \"Second\"]\n".to_string()).unwrap();
    assert!(out.contains("<meta name=\"author\" content=\"Second\">"));
    assert!(!out.contains("First"));
    assert_eq!(out.matches("<meta").count(), 1);
}

#[test]
fn metadata_keeps_insertion_order() {
    let out = parse("[alpha = \"1\"]\n[beta = \"2\"]\n".to_string()).unwrap();
    let a = out.find("<meta name=\"alpha\" content=\"1\">").unwrap();
    let b = out.find("<meta name=\"beta\" content=\"2\">").unwrap();
    assert!(a < b);
    assert_eq!(out.matches("<meta").count(), 2);
}

#[test]
fn style_directive_emits_a_stylesheet_reference() {
    let out = parse("[style = \"maincss\"]\n".to_string()).unwrap();
    assert!(out.contains("\n<link rel=\"styleshet\" type=\"text/css\" href=\"maincss\" />\n"));
    assert!(!out.contains("<meta"));
}

#[test]
fn script_directive_emits_a_script_reference() {
    let out = parse("[script = \"app\"]\n".to_string()).unwrap();
    assert!(out.contains("\n<script src=\"app\" type=\"text/javascript\"><script>\n"));
    assert!(!out.contains("<meta"));
}

#[test]
fn continuation_joins_two_physical_lines() {
    // The directive is split over two physical lines by a trailing backslash;
    // the scanner sees the single logical line `[author = "Jane Doe"]`.
    let out = parse("[author = \"Jane \\\nDoe\"]\n".to_string()).unwrap();
    assert!(out.contains("<meta name=\"author\" content=\"Jane Doe\">"));
}

#[test]
fn continuation_outside_directives_is_harmless() {
    // `foo\` + `bar` make the single logical line `foobar`, which is skipped.
    let out = parse("foo\\\nbar\n".to_string()).unwrap();
    assert_eq!(out, DEFAULT_DOC);
}

#[test]
fn continuation_handles_crlf_and_cr_terminators() {
    let out = parse("[title = \"My \\\r\nPage\"]\n".to_string()).unwrap();
    assert!(out.contains("<title>My Page</title>"));
    let out2 = parse("[title = \"My \\\rPage\"]\n".to_string()).unwrap();
    assert!(out2.contains("<title>My Page</title>"));
}

#[test]
fn crlf_terminated_directive_lines_parse() {
    let out = parse("[title = \"My Page\"]\r\n[author = \"Jane\"]\r\n".to_string()).unwrap();
    assert!(out.contains("<title>My Page</title>"));
    assert!(out.contains("<meta name=\"author\" content=\"Jane\">"));
}

#[test]
fn disallowed_value_character_fails_with_the_line_in_the_message() {
    let err = parse("[bad = \"no$symbols\"]\n".to_string()).unwrap_err();
    assert_eq!(err.description, "Invalid line:\n[bad = \"no$symbols\"]");
    assert!(err.description.contains("[bad = \"no$symbols\"]"));
}

#[test]
fn bracket_line_without_directive_shape_fails() {
    let err = parse("[not a directive\n".to_string()).unwrap_err();
    assert_eq!(err.description, "Invalid line:\n[not a directive");
}

#[test]
fn unterminated_quote_fails() {
    let err = parse("[key = \"abc]\n".to_string()).unwrap_err();
    assert_eq!(err.description, "Invalid line:\n[key = \"abc]");
}

#[test]
fn trailing_text_after_the_bracket_fails() {
    let err = parse("[key = \"abc\"] extra\n".to_string()).unwrap_err();
    assert_eq!(err.description, "Invalid line:\n[key = \"abc\"] extra");
}

#[test]
fn empty_value_fails() {
    let err = parse("[key = \"\"]\n".to_string()).unwrap_err();
    assert_eq!(err.description, "Invalid line:\n[key = \"\"]");
}

#[test]
fn missing_equals_fails() {
    let err = parse("[key \"value\"]\n".to_string()).unwrap_err();
    assert_eq!(err.description, "Invalid line:\n[key \"value\"]");
}

#[test]
fn whitespace_around_equals_is_tolerated() {
    let out = parse("[author=\"Jane\"]\n".to_string()).unwrap();
    assert!(out.contains("<meta name=\"author\" content=\"Jane\">"));
    let out2 = parse("[author   =   \"Jane\"]\n".to_string()).unwrap();
    assert!(out2.contains("<meta name=\"author\" content=\"Jane\">"));
}

#[test]
fn tabs_around_equals_are_tolerated() {
    let out = parse("[author\t=\t\"Jane\"]\n".to_string()).unwrap();
    assert!(out.contains("<meta name=\"author\" content=\"Jane\">"));
}

#[test]
fn a_single_space_is_a_valid_value() {
    let out = parse("[gap = \" \"]\n".to_string()).unwrap();
    assert!(out.contains("<meta name=\"gap\" content=\" \">"));
}

#[test]
fn first_invalid_line_aborts_the_whole_parse() {
    let err = parse("[title = \"ok\"]\n[bad!]\n[author = \"x\"]\n".to_string()).unwrap_err();
    assert_eq!(err.description, "Invalid line:\n[bad!]");
}

#[test]
fn parsing_the_same_input_twice_is_deterministic() {
    let input = "[title = \"My Page\"]\n[a = \"1\"]\n[b = \"2\"]\nnoise\n";
    let first = parse(input.to_string()).unwrap();
    let second = parse(input.to_string()).unwrap();
    assert_eq!(first, second);
}

#[test]
fn unterminated_last_line_is_scanned_too() {
    let out = parse("[title = \"End\"]".to_string()).unwrap();
    assert!(out.contains("<title>End</title>"));
}
