use feembox::options::{maildir_display_name, parse_alternatives_transformations, parse_mime_override, split_transformation,
                       transformation_from_parsed, mime_override_from_parsed};
use feembox::model::MimeType;


fn plain() -> MimeType {
    MimeType { type_: "text".to_string(), subtype: "plain".to_string(), suffix: None, params: vec![] }
}

#[test]
fn transformation_parses() {
    let (from, to, how) = parse_alternatives_transformations("text/html:text/plain;charset=utf-8:turndown").unwrap();
    assert_eq!(from.type_, "text");
    assert_eq!(from.subtype, "html");
    assert_eq!(to.subtype, "plain");
    assert_eq!(to.params, vec![("charset".to_string(), "utf-8".to_string())]);
    assert_eq!(how, "turndown");
}

#[test]
fn transformation_component_counts() {
    assert_eq!(parse_alternatives_transformations("a:b:c:d").unwrap_err(), "Transformation triple \"a:b:c:d\" has four components");
    assert_eq!(parse_alternatives_transformations("a:b:c:d:e").unwrap_err(), "Transformation triple \"a:b:c:d:e\" has four components");
    assert_eq!(parse_alternatives_transformations("a:b").unwrap_err(), "Transformation triple \"a:b\" has two components");
    assert_eq!(parse_alternatives_transformations("ab").unwrap_err(), "Transformation triple \"ab\" has one component");
    assert_eq!(parse_alternatives_transformations("").unwrap_err(), "Transformation triple \"\" has one component");
    assert_eq!(split_transformation("::").unwrap(), (String::new(), String::new(), String::new()));
}

#[test]
fn transformation_bad_mime_types() {
    let e = parse_alternatives_transformations("nope:text/plain:cat").unwrap_err();
    assert!(e.starts_with("Transformation triple \"nope:text/plain:cat\"'s FROM not a mime-type: "), "{}", e);
    let e = parse_alternatives_transformations("text/plain:nope:cat").unwrap_err();
    assert!(e.starts_with("Transformation triple \"text/plain:nope:cat\"'s to not a mime-type: "), "{}", e);
}

#[test]
fn transformation_from_parsed_results() {
    assert_eq!(transformation_from_parsed("s", Err("bad".to_string()), Err("worse".to_string()), "h".to_string()).unwrap_err(),
               "Transformation triple \"s\"'s FROM not a mime-type: bad");
    assert_eq!(transformation_from_parsed("s", Ok(plain()), Err("worse".to_string()), "h".to_string()).unwrap_err(),
               "Transformation triple \"s\"'s to not a mime-type: worse");
    assert_eq!(transformation_from_parsed("s", Ok(plain()), Ok(plain()), "h".to_string()).unwrap(), (plain(), plain(), "h".to_string()));
}

#[test]
fn mime_override() {
    assert_eq!(parse_mime_override("text/html").unwrap().subtype, "html");
    let e = parse_mime_override("html").unwrap_err();
    assert!(e.starts_with("Type override \"html\" not a mime-type: "), "{}", e);
    assert_eq!(mime_override_from_parsed("x", Err("why".to_string())).unwrap_err(), "Type override \"x\" not a mime-type: why");
    assert_eq!(mime_override_from_parsed("x", Ok(plain())).unwrap(), plain());
}

#[test]
fn maildir_display() {
    assert_eq!(maildir_display_name("feedir"), "feedir/");
    assert_eq!(maildir_display_name("feedir/"), "feedir/");
    assert_eq!(maildir_display_name(""), "/");
    assert_eq!(maildir_display_name(&maildir_display_name("a/b")), "a/b/");
}

#[test]
fn path_decisions_and_messages() {
    assert!(feembox::options::feed_path_is_stdin("-"));
    assert!(!feembox::options::feed_path_is_stdin("--"));
    assert!(!feembox::options::feed_path_is_stdin(""));
    assert_eq!(feembox::options::maildir_path_empty_message(""), "Path to maildir \"\" empty");
    assert_eq!(feembox::options::maildir_parent_missing_message("a/b"), "Parent to maildir \"a/b\" doesn't exist");
    assert_eq!(feembox::options::feed_missing_message("f.xml"), "Feed file \"f.xml\" doesn't exist");
    assert_eq!(feembox::options::feed_not_a_file_message("d", "/tmp/d"), "Feed file \"d\" (/tmp/d) not a file");
}
