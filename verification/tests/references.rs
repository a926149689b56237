use tmbook::reference::find_references;
use tmbook::resolve::env_placeholder;
use tmbook::resolve::resolve_references;
use tmbook::strings::contains_pat;
use tmbook::strings::find_from;
use tmbook::strings::replace_all;

#[test]
fn find_two_argument_reference() {
    let refs = find_references("```\n{{insert_code(src/file.c,tag_a)}}\n```");
    assert_eq!(refs.len(), 1);
    assert_eq!(refs[0].full, "{{insert_code(src/file.c,tag_a)}}");
    assert_eq!(refs[0].path, "src/file.c");
    assert_eq!(refs[0].tag.as_deref(), Some("tag_a"));
    assert!(!refs[0].ignore_exclude);
}

#[test]
fn find_three_argument_reference() {
    let refs = find_references("{{insert_code(src/file.c,tag_a,on)}}");
    assert_eq!(refs.len(), 1);
    assert_eq!(refs[0].path, "src/file.c");
    assert_eq!(refs[0].tag.as_deref(), Some("tag_a"));
    assert!(refs[0].ignore_exclude);
}

#[test]
fn find_one_argument_reference() {
    let refs = find_references("{{insert_code(examples/demo.c)}}");
    assert_eq!(refs.len(), 1);
    assert_eq!(refs[0].path, "examples/demo.c");
    assert_eq!(refs[0].tag, None);
    assert!(!refs[0].ignore_exclude);
}

#[test]
fn three_arguments_never_parse_as_two() {
    let refs = find_references("{{insert_code(p.c,t,flag)}}");
    assert_eq!(refs.len(), 1);
    assert!(refs[0].ignore_exclude);
    assert_eq!(refs[0].full, "{{insert_code(p.c,t,flag)}}");
}

#[test]
fn find_several_references_in_order() {
    let refs = find_references(
        "{{insert_code(a.c,one)}} text {{insert_code(b.c)}} more {{insert_code(c.c,two,x)}}",
    );
    assert_eq!(refs.len(), 3);
    assert_eq!(refs[0].path, "a.c");
    assert_eq!(refs[1].path, "b.c");
    assert_eq!(refs[2].path, "c.c");
}

#[test]
fn malformed_references_are_ignored() {
    assert!(find_references("{{insert_code()}}").is_empty());
    assert!(find_references("{{insert_code(a.c,}}").is_empty());
    assert!(find_references("{{insert_code(a.c,t)}").is_empty());
    assert!(find_references("insert_code(a.c,t)").is_empty());
    assert!(find_references("no references at all").is_empty());
}

#[test]
fn env_placeholder_found() {
    let r = env_placeholder("env.MYPATH/examples/demo.c");
    let (token, name) = r.unwrap();
    assert_eq!(token, "env.MYPATH");
    assert_eq!(name, "MYPATH");
}

#[test]
fn env_placeholder_needs_uppercase_name() {
    assert!(env_placeholder("plain/path.c").is_none());
    assert!(env_placeholder("env.lower/path.c").is_none());
    assert!(env_placeholder("ends with env.").is_none());
}

#[test]
fn env_placeholder_substitution() {
    let path = "env.ROOT/examples/demo.c";
    let (token, name) = env_placeholder(path).unwrap();
    assert_eq!(name, "ROOT");
    let resolved = replace_all(path, &token, "/opt/book");
    assert_eq!(resolved, "/opt/book/examples/demo.c");
}

#[test]
fn resolve_replaces_reference_with_output() {
    let text = "```c\n{{insert_code(env.MYPATH,a)}}\n```";
    let refs = find_references(text);
    assert_eq!(refs.len(), 1);
    let outputs = vec![Some("x\n".to_string())];
    let resolved = resolve_references(text, &refs, &outputs);
    assert_eq!(resolved, "```c\nx\n\n```");
}

#[test]
fn resolve_skipped_reference_stays_in_place() {
    let text = "before {{insert_code(missing.c,a)}} after";
    let refs = find_references(text);
    assert_eq!(refs.len(), 1);
    let outputs = vec![None];
    let resolved = resolve_references(text, &refs, &outputs);
    assert_eq!(resolved, text);
}

#[test]
fn resolve_without_references_is_identity() {
    let text = "a page whose references were already replaced: int x = 1;";
    let refs = find_references(text);
    assert!(refs.is_empty());
    let outputs: Vec<Option<String>> = Vec::new();
    let resolved = resolve_references(text, &refs, &outputs);
    assert_eq!(resolved, text);
}

#[test]
fn resolve_each_reference_independently() {
    let text = "{{insert_code(a.c,one)}} {{insert_code(b.c,two)}}";
    let refs = find_references(text);
    let outputs = vec![None, Some("OK".to_string())];
    let resolved = resolve_references(text, &refs, &outputs);
    assert_eq!(resolved, "{{insert_code(a.c,one)}} OK");
}

#[test]
fn replace_all_replaces_every_occurrence() {
    assert_eq!(replace_all("xAxAx", "A", "-"), "x-x-x");
    assert_eq!(replace_all("aaaa", "aa", "b"), "bb");
    assert_eq!(replace_all("nothing here", "zz", "y"), "nothing here");
}

#[test]
fn string_search_finds_first_occurrence() {
    assert_eq!(find_from("abcabc", "bc", 0), Some(1));
    assert_eq!(find_from("abcabc", "bc", 2), Some(4));
    assert_eq!(find_from("abcabc", "zz", 0), None);
    assert!(contains_pat("hello world", "o w"));
    assert!(!contains_pat("hello world", "ow"));
}
