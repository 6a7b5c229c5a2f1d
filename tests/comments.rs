use tomlfuse::extract_comments;

#[test]
fn test_preceding_and_inline_comments() {
    let toml = r#"
# header comment
[package]
# version doc
version = "0.1.0" # inline comment
"#;
    let comments = extract_comments(toml);
    assert_eq!(
        comments.get("package.version"),
        Some(&"version doc\ninline comment".to_string())
    );
}

#[test]
fn test_blank_line_resets_preceding_comments() {
    let toml = r#"
# first comment

# second comment
key = true
"#;
    let comments = extract_comments(toml);
    assert_eq!(comments.get("key"), Some(&"second comment".to_string()));
}

#[test]
fn test_ignore_hash_in_multiline_string() {
    let toml = r#"
value = """
line1 # not a comment
line2
"""
# real comment
other = 123
"#;
    let comments = extract_comments(toml);
    assert_eq!(comments.get("other"), Some(&"real comment".to_string()));
    assert!(!comments.contains_key("value"));
}

#[test]
fn test_dotted_keys_and_section_headers() {
    let toml = r#"
[section.sub]
# doc for item
item.subkey = "x"
"#;
    let comments = extract_comments(toml);
    assert_eq!(
        comments.get("section.sub.item.subkey"),
        Some(&"doc for item".to_string())
    );
}

#[test]
fn test_inline_only_comment() {
    let toml = r#"
key = 10 # just inline
"#;
    let comments = extract_comments(toml);
    assert_eq!(comments.get("key"), Some(&"just inline".to_string()));
}

#[test]
fn test_empty_comment_lines() {
    let toml = r#"
    # first line
    #
    # third line
    key = true
    "#;
    let comments = extract_comments(toml);
    assert_eq!(
        comments.get("key"),
        Some(&"first line\n\nthird line".to_string())
    );
}

#[test]
fn test_empty_input() {
    let comments = extract_comments("");
    assert!(comments.is_empty());
}

#[test]
fn test_orphaned_comments() {
    let toml = r#"
    # orphaned comment at top
    [section]
    key = "value"
    # trailing comment with no key
    "#;
    let comments = extract_comments(toml);
    assert_eq!(comments.len(), 1);
    assert_eq!(
        comments.get("section"),
        Some(&"orphaned comment at top".to_string())
    );
}

#[test]
fn test_multiple_consecutive_comments() {
    let toml = r#"
    # first line
    # second line
    # third line
    key = true
    "#;
    let comments = extract_comments(toml);
    assert_eq!(
        comments.get("key"),
        Some(&"first line\nsecond line\nthird line".to_string())
    );
}

#[test]
fn test_single_quote_multiline() {
    let toml = r#"
    value = '''
    # not a comment
    '''
    # real comment
    key = true
    "#;
    let comments = extract_comments(toml);
    assert_eq!(comments.get("key"), Some(&"real comment".to_string()));
}

#[test]
fn test_no_multiline_inline_comments() {
    let toml = r#"
    key = true # first inline comment
    # this is an orphaned comment
    # that spans multiple lines
    next_key = false
    "#;
    let comments = extract_comments(toml);
    assert_eq!(
        comments.get("key"),
        Some(&"first inline comment".to_string())
    );
    assert_eq!(
        comments.get("next_key"),
        Some(&"this is an orphaned comment\nthat spans multiple lines".to_string())
    );
}

#[test]
fn test_deeply_nested_paths_and_tables() {
    let toml = r#"
        # top level comment for section1
        [section1] # inline comment for section1
        key1 = "value1"

        # comment for nested section
        [section1.subsection] # inline comment for subsection
        key2 = "value2"

        # deeply nested section comment
        [section1.subsection.deep.nesting]
        # comment for nested key
        nested.key = "nested value" # inline nested key comment
        
        # another section
        [section2]
        
        # subsection with no inline comment
        [section2.config]
        setting = true
        "#;
    let comments = extract_comments(toml);
    assert_eq!(
        comments.get("section1"),
        Some(&"top level comment for section1\ninline comment for section1".to_string())
    );
    assert_eq!(
        comments.get("section1.subsection"),
        Some(&"comment for nested section\ninline comment for subsection".to_string())
    );
    assert_eq!(
        comments.get("section1.subsection.deep.nesting"),
        Some(&"deeply nested section comment".to_string())
    );
    assert_eq!(
        comments.get("section1.subsection.deep.nesting.nested.key"),
        Some(&"comment for nested key\ninline nested key comment".to_string())
    );
    assert_eq!(
        comments.get("section2.config"),
        Some(&"subsection with no inline comment".to_string())
    );
}

#[test]
fn test_extract_comments() {
    let toml_content = r#"
# Header comment
[package]
# Version comment
version = "0.1.0" # inline comment

# Name comment
# Second line
name = "test-crate"
        "#;
    let comments = extract_comments(toml_content);
    assert_eq!(
        comments.get("package.version"),
        Some(&"Version comment\ninline comment".to_string())
    );
    assert_eq!(
        comments.get("package.name"),
        Some(&"Name comment\nSecond line".to_string())
    );
}

#[test]
fn harvesting_twice_gives_equal_maps() {
    let toml = "# a\n[s] # b\n# c\nk = 1 # d\n\n# e\nx.y = 2\n";
    let first = extract_comments(toml);
    let second = extract_comments(toml);
    assert_eq!(first.len(), second.len());
    for key in ["s", "s.k", "s.x.y"] {
        assert_eq!(first.get(key), second.get(key));
    }
    assert_eq!(first.get("s.x.y"), Some(&"e".to_string()));
}

#[test]
fn blank_line_separates_comment_from_key() {
    let comments = extract_comments("# detached\n\nkey = 1\n");
    assert!(comments.get("key").is_none());
    assert!(comments.is_empty());
}

#[test]
fn comment_marker_strips_one_space_only() {
    let comments = extract_comments("#  indented\nkey = 1\n");
    assert_eq!(comments.get("key"), Some(&" indented".to_string()));
}

#[test]
fn hash_before_equals_is_not_inline() {
    let comments = extract_comments("a#b = 1\n");
    assert!(comments.get("a#b").is_none());
}

#[test]
fn later_key_replaces_earlier_comment() {
    let comments = extract_comments("# one\nk = 1\n# two\nk = 2\n");
    assert_eq!(comments.len(), 1);
    assert_eq!(comments.get("k"), Some(&"two".to_string()));
}

#[test]
fn six_quotes_do_not_open_a_string() {
    let comments = extract_comments("a = \"\"\"\"\"\"\n# doc\nb = 1\n");
    assert_eq!(comments.get("b"), Some(&"doc".to_string()));
}

#[test]
fn opening_a_string_drops_pending_comments() {
    let comments = extract_comments("# a\nv = \"\"\"\nx\n\"\"\"\nk = 1");
    assert!(comments.get("k").is_none());
    assert!(comments.get("v").is_none());
    assert!(comments.is_empty());
}

#[test]
fn leading_comments_and_blank_line_leave_no_trace() {
    let rest = "[s]\n# doc\nk = 1 # tail\n";
    let with_prefix = format!("# one\n  # two\n\n{}", rest);
    let a = extract_comments(&with_prefix);
    let b = extract_comments(rest);
    assert_eq!(a.len(), b.len());
    assert_eq!(a.get("s.k"), b.get("s.k"));
    assert_eq!(a.get("s.k"), Some(&"doc\ntail".to_string()));
}
