use tmbook::authors::process;
use tmbook::authors::Authors;
use tmbook::authors::CommitInfo;
use tmbook::auto_doc::build_doc_link;
use tmbook::auto_doc::find_doc_term;
use tmbook::auto_doc::normalize_key;
use tmbook::auto_doc::AutoDoc;
use tmbook::auto_doc::Term;
use tmbook::auto_include::code_block_texts;
use tmbook::auto_include::rebuild_chapter;
use tmbook::auto_include::scan_chapter;
use tmbook::auto_include::AutoInclude;
use tmbook::replace_path::find_keys;
use tmbook::replace_path::find_term;
use tmbook::replace_path::ReplacePaths;

fn commit(touches: bool, email: &str, name: &str) -> CommitInfo {
    CommitInfo { touches_file: touches, email: email.to_string(), name: name.to_string() }
}

#[test]
fn preprocessor_names() {
    assert_eq!(Authors.name(), "authors");
    assert_eq!(AutoDoc.name(), "auto_doc");
    assert_eq!(AutoInclude.name(), "auto_include");
    assert_eq!(ReplacePaths.name(), "replace_paths");
    assert!(Authors.supports_renderer("html"));
    assert!(AutoDoc.supports_renderer("html"));
    assert!(AutoInclude.supports_renderer("anything"));
    assert!(ReplacePaths.supports_renderer("anything"));
}

#[test]
fn authors_footer_counts_and_sorts() {
    let commits = vec![
        commit(true, "a@x.org", "Ada"),
        commit(true, "b@x.org", "Bob"),
        commit(true, "b@x.org", "Bob"),
        commit(false, "c@x.org", "Cid"),
    ];
    let out = process(&commits, &"page".to_string()).unwrap();
    assert_eq!(
        out,
        "page\n# Contributors\n\
         \n[![Bob](https://www.gravatar.com/avatar/b@x.org?s=32) b@x.org](mailto:b@x.org)\
         \n[![Ada](https://www.gravatar.com/avatar/a@x.org?s=32) a@x.org](mailto:a@x.org)"
    );
}

#[test]
fn authors_drops_noreply_addresses() {
    let commits = vec![
        commit(true, "12345+bot@users.noreply.github.com", "Bot"),
        commit(true, "a@x.org", "Ada"),
    ];
    let out = process(&commits, &"page".to_string()).unwrap();
    assert!(!out.contains("noreply"));
    assert!(out.contains("Ada"));
}

#[test]
fn authors_without_contributors_is_absent() {
    let commits = vec![commit(false, "a@x.org", "Ada")];
    assert!(process(&commits, &"page".to_string()).is_none());
    assert!(process(&Vec::new(), &"page".to_string()).is_none());
}

#[test]
fn authors_equal_counts_keep_first_seen_order() {
    let commits = vec![commit(true, "a@x.org", "Ada"), commit(true, "b@x.org", "Bob")];
    let out = process(&commits, &"p".to_string()).unwrap();
    let ada = out.find("Ada").unwrap();
    let bob = out.find("Bob").unwrap();
    assert!(ada < bob);
}

#[test]
fn normalize_key_strips_quotes_and_arguments() {
    assert_eq!(normalize_key("\"tm_foo(a, b)\""), "tm_foo()");
    assert_eq!(normalize_key("tm_bar"), "tm_bar");
    assert_eq!(normalize_key("call(x)(y)"), "call()");
    assert_eq!(normalize_key("no_close("), "no_close(");
}

#[test]
fn doc_term_lookup_uses_alt_key() {
    let config = vec![Term {
        term: "tm_foo()".to_string(),
        path: "apis/foo".to_string(),
        file: "foo.h".to_string(),
        name: "tm_foo".to_string(),
        id: 7,
    }];
    let found = find_doc_term(&config, &"tm_foo(1, 2)".to_string()).unwrap();
    assert_eq!(found.name, "tm_foo");
    let direct = find_doc_term(&config, &"tm_foo()".to_string()).unwrap();
    assert_eq!(direct.path, "apis/foo");
    assert!(find_doc_term(&config, &"unknown".to_string()).is_none());
}

#[test]
fn doc_link_shape() {
    let term = Term {
        term: "tm_foo()".to_string(),
        path: "apis/foo".to_string(),
        file: "foo.h".to_string(),
        name: "tm_foo".to_string(),
        id: 1,
    };
    assert_eq!(build_doc_link(&term), "{{docs}}apis/foo.html#tm_foo");
}

#[test]
fn replace_path_keys_found_in_order() {
    let keys = find_keys("{{docs}} and {{the_machinery_book}} but not {{BAD}} or {{a b}}");
    assert_eq!(keys, vec!["docs".to_string(), "the_machinery_book".to_string()]);
}

#[test]
fn replace_path_replaces_known_keys() {
    let config = vec![
        ("docs".to_string(), "https://example.org/docs/".to_string()),
        ("unused".to_string(), "x".to_string()),
    ];
    let out = find_term("see {{docs}}index and {{docs}}other".to_string(), &config).unwrap();
    assert_eq!(
        out,
        "see https://example.org/docs/index and https://example.org/docs/other"
    );
}

#[test]
fn replace_path_leaves_unknown_keys() {
    let config = vec![("docs".to_string(), "D".to_string())];
    let out = find_term("{{docs}} {{mystery}}".to_string(), &config).unwrap();
    assert_eq!(out, "D {{mystery}}");
}

#[test]
fn chapter_walk_rewrites_only_code_blocks() {
    let chapter = "plain {{insert_code(a.c,t)}} text\n\n```c\n{{insert_code(a.c,t)}}\n```\n";
    let (events, classes) = scan_chapter(chapter);
    let (indices, texts) = code_block_texts(&classes);
    assert_eq!(indices.len(), 1);
    assert_eq!(texts[0], "{{insert_code(a.c,t)}}\n");
    let new_texts = vec!["int x;\n".to_string()];
    let out = rebuild_chapter(events, &indices, &new_texts).unwrap();
    assert!(out.contains("int x;"));
    assert!(out.contains("plain {{insert_code(a.c,t)}} text"));
    assert!(!out.contains("```c\n{{insert_code"));
}

#[test]
fn chapter_rebuild_is_always_present() {
    let chapter = "# Title\n\nsome text\n\n```c\nint x;\n```\n";
    let (events, classes) = scan_chapter(chapter);
    let (indices, texts) = code_block_texts(&classes);
    let out = rebuild_chapter(events, &indices, &texts).unwrap();
    assert!(out.contains("some text"));
    assert!(out.contains("int x;"));
    let (events, _classes) = scan_chapter("plain paragraph");
    let no_indices: Vec<usize> = Vec::new();
    let no_texts: Vec<String> = Vec::new();
    let out = rebuild_chapter(events, &no_indices, &no_texts).unwrap();
    assert!(out.contains("plain paragraph"));
}

#[test]
fn chapter_walk_without_code_blocks_finds_nothing() {
    let chapter = "just a paragraph with {{insert_code(a.c,t)}} inline";
    let (_events, classes) = scan_chapter(chapter);
    let (indices, texts) = code_block_texts(&classes);
    assert!(indices.is_empty());
    assert!(texts.is_empty());
}
