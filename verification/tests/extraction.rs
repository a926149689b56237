use tmbook::extract::process_term;
use tmbook::extract::strip_markers;
use tmbook::token::extract_token;
use tmbook::token::get_tag;
use tmbook::token::Token;

fn lines(text: &str) -> Vec<String> {
    text.split('\n').map(|l| l.to_string()).collect()
}

#[test]
fn tokenize_begin_marker() {
    let tok = extract_token(&"#code_snippet_begin(a)".to_string());
    assert!(matches!(tok, Some(Token::CodeSnippetBegin(Some(t))) if t == "a"));
}

#[test]
fn tokenize_end_marker() {
    let tok = extract_token(&"  some code #code_snippet_end(tag_one)".to_string());
    assert!(matches!(tok, Some(Token::CodeSnippetEnd(Some(t))) if t == "tag_one"));
}

#[test]
fn tokenize_untagged_exclusions_first() {
    let tok = extract_token(&"// #code_snippet_exclude_begin()".to_string());
    assert!(matches!(tok, Some(Token::CodeSnippetExcludeBegin(None))));
    let tok = extract_token(&"// #code_snippet_exclude_end()".to_string());
    assert!(matches!(tok, Some(Token::CodeSnippetExcludeEnd(None))));
}

#[test]
fn tokenize_tagged_exclusions() {
    let tok = extract_token(&"#code_snippet_exclude_begin(a)".to_string());
    assert!(matches!(tok, Some(Token::CodeSnippetExcludeBegin(Some(t))) if t == "a"));
    let tok = extract_token(&"#code_snippet_exclude_end(a)".to_string());
    assert!(matches!(tok, Some(Token::CodeSnippetExcludeEnd(Some(t))) if t == "a"));
}

#[test]
fn tokenize_plain_content() {
    assert!(extract_token(&"let x = 1;".to_string()).is_none());
    assert!(extract_token(&"".to_string()).is_none());
}

#[test]
fn tokenize_empty_parens_begin_has_no_tag() {
    let tok = extract_token(&"#code_snippet_begin()".to_string());
    assert!(matches!(tok, Some(Token::CodeSnippetBegin(None))));
}

#[test]
fn tag_capture_stops_at_first_close_paren() {
    let tag = get_tag(&"#code_snippet_begin(a) more (text)".to_string(), "code_snippet_begin");
    assert_eq!(tag.as_deref(), Some("a"));
}

#[test]
fn tag_capture_absent_without_close_paren() {
    let tag = get_tag(&"#code_snippet_begin(a".to_string(), "code_snippet_begin");
    assert_eq!(tag, None);
}

#[test]
fn extract_simple_region() {
    let src = lines("#code_snippet_begin(a)\nfoo\nbar\n#code_snippet_end(a)");
    let out = process_term(&src, &"a".to_string(), false);
    assert_eq!(out, vec!["foo".to_string(), "bar".to_string()]);
}

#[test]
fn extract_unopened_tag_is_empty() {
    let src = lines("#code_snippet_begin(a)\nfoo\n#code_snippet_end(a)");
    let out = process_term(&src, &"missing".to_string(), false);
    assert!(out.is_empty());
    let out = process_term(&src, &"missing".to_string(), true);
    assert!(out.is_empty());
}

#[test]
fn extract_honors_exclusion() {
    let src = lines(
        "#code_snippet_begin(a)\nfoo\n#code_snippet_exclude_begin()\nsecret\n#code_snippet_exclude_end()\nbar\n#code_snippet_end(a)",
    );
    let out = process_term(&src, &"a".to_string(), false);
    assert_eq!(out, vec!["foo".to_string(), "bar".to_string()]);
}

#[test]
fn extract_ignores_exclusion_on_flag() {
    let src = lines(
        "#code_snippet_begin(a)\nfoo\n#code_snippet_exclude_begin()\nsecret\n#code_snippet_exclude_end()\nbar\n#code_snippet_end(a)",
    );
    let out = process_term(&src, &"a".to_string(), true);
    assert_eq!(out, vec!["foo".to_string(), "secret".to_string(), "bar".to_string()]);
}

#[test]
fn extract_tagged_exclusion_applies_to_requested_tag() {
    let src = lines(
        "#code_snippet_begin(a)\nfoo\n#code_snippet_exclude_begin(a)\nsecret\n#code_snippet_exclude_end(a)\nbar\n#code_snippet_end(a)",
    );
    let out = process_term(&src, &"a".to_string(), false);
    assert_eq!(out, vec!["foo".to_string(), "bar".to_string()]);
}

#[test]
fn extract_foreign_exclusion_is_inert() {
    let src = lines(
        "#code_snippet_begin(a)\nfoo\n#code_snippet_exclude_begin(b)\nstill here\n#code_snippet_exclude_end(b)\nbar\n#code_snippet_end(a)",
    );
    let out = process_term(&src, &"a".to_string(), false);
    assert_eq!(
        out,
        vec!["foo".to_string(), "still here".to_string(), "bar".to_string()]
    );
}

#[test]
fn extract_never_emits_marker_lines() {
    let src = lines(
        "#code_snippet_begin(a)\nfoo\n#code_snippet_begin(b)\ninner\n#code_snippet_end(b)\nbar\n#code_snippet_end(a)",
    );
    let out = process_term(&src, &"a".to_string(), false);
    assert_eq!(
        out,
        vec!["foo".to_string(), "inner".to_string(), "bar".to_string()]
    );
    for line in &out {
        assert!(extract_token(line).is_none());
    }
}

#[test]
fn extract_region_reopens() {
    let src = lines(
        "#code_snippet_begin(a)\nfirst\n#code_snippet_end(a)\nskipped\n#code_snippet_begin(a)\nsecond\n#code_snippet_end(a)",
    );
    let out = process_term(&src, &"a".to_string(), false);
    assert_eq!(out, vec!["first".to_string(), "second".to_string()]);
}

#[test]
fn strip_markers_keeps_only_content() {
    let src = lines(
        "before\n#code_snippet_begin(a)\nfoo\n#code_snippet_exclude_begin()\nsecret\n#code_snippet_exclude_end()\n#code_snippet_end(a)\nafter",
    );
    let out = strip_markers(&src);
    assert_eq!(
        out,
        vec![
            "before".to_string(),
            "foo".to_string(),
            "secret".to_string(),
            "after".to_string()
        ]
    );
}

#[test]
fn begin_marker_resets_exclusion() {
    let src = lines(
        "#code_snippet_exclude_begin()\n#code_snippet_begin(a)\nx\n#code_snippet_end(a)",
    );
    let out = process_term(&src, &"a".to_string(), false);
    assert_eq!(out, vec!["x".to_string()]);
}

#[test]
fn exclusion_markers_win_over_begin_on_one_line() {
    let tok = extract_token(&"#code_snippet_begin(a) #code_snippet_exclude_begin()".to_string());
    assert!(matches!(tok, Some(Token::CodeSnippetExcludeBegin(None))));
}

#[test]
fn extract_from_empty_file() {
    let src: Vec<String> = Vec::new();
    assert!(process_term(&src, &"a".to_string(), false).is_empty());
    assert!(strip_markers(&src).is_empty());
}
