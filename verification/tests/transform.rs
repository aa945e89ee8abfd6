use feembox::model::MimeType;
use feembox::ops::make_part;
use feembox::transform::{add_alternative, force_content_type, matching_parts, single_alternatives};


fn mime(type_: &str, subtype: &str, suffix: Option<&str>, params: &[(&str, &str)]) -> MimeType {
    MimeType {
        type_: type_.to_string(),
        subtype: subtype.to_string(),
        suffix: suffix.map(|s| s.to_string()),
        params: params.iter().map(|(n, v)| (n.to_string(), v.to_string())).collect(),
    }
}


#[test]
fn forced_type_replaces_every_part_type() {
    let parts = vec![make_part("a".to_string(), &mime("text", "plain", None, &[])), make_part("b".to_string(), &mime("application", "atom", Some("xml"), &[]))];
    let forced = force_content_type(parts, Some(&mime("text", "html", None, &[("charset", "utf-8")])));
    assert_eq!(forced.len(), 2);
    assert_eq!(forced[1].body, "b");
    assert!(forced.iter().all(|p| p.type_ == "text" && p.subtype == "html" && p.params == vec![("charset".to_string(), "utf-8".to_string())]));
    let kept = force_content_type(vec![make_part("c".to_string(), &mime("text", "plain", None, &[]))], None);
    assert_eq!(kept[0].subtype, "plain");
}

#[test]
fn transformations_add_alternatives() {
    let html = mime("text", "html", None, &[]);
    let parts = vec![make_part("<b>1</b>".to_string(), &mime("text", "html", None, &[("charset", "utf-8")])),
                     make_part("2".to_string(), &mime("text", "plain", None, &[]))];
    let mut groups = single_alternatives(parts);
    assert_eq!(groups.len(), 2);
    assert_eq!(groups[0][0].body, "<b>1</b>");
    assert_eq!(groups[1][0].body, "2");
    assert_eq!(matching_parts(&groups[0], &html), vec![0]);
    assert!(matching_parts(&groups[1], &html).is_empty());
    add_alternative(&mut groups[0], "1".to_string(), &mime("text", "plain", None, &[]));
    assert_eq!(groups[0].len(), 2);
    assert_eq!(groups[0][1].subtype, "plain");
    assert_eq!(matching_parts(&groups[0], &mime("text", "plain", None, &[])), vec![1]);
    assert!(matching_parts(&groups[0], &mime("application", "html", None, &[])).is_empty());
}
