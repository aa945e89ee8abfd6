use feembox::model::{Content, Entry, Feed, Link, MimeType, Person, Text, Timestamp};
use feembox::ops::{assemble_mail, dates_line_from, entry_dates_writable, is_rfc2822_representable, make_part, select_links, shown_dates};
use feembox::authors::collect_authors;


fn mime(type_: &str, subtype: &str, suffix: Option<&str>, params: &[(&str, &str)]) -> MimeType {
    MimeType {
        type_: type_.to_string(),
        subtype: subtype.to_string(),
        suffix: suffix.map(|s| s.to_string()),
        params: params.iter().map(|(n, v)| (n.to_string(), v.to_string())).collect(),
    }
}

fn text(content: &str) -> Text {
    Text { content_type: mime("text", "plain", None, &[]), content: content.to_string() }
}

fn person(name: &str, email: Option<&str>) -> Person {
    Person { name: name.to_string(), uri: None, email: email.map(|e| e.to_string()) }
}

fn link(href: &str, rel: Option<&str>, title: Option<&str>) -> Link {
    Link { href: href.to_string(), rel: rel.map(|r| r.to_string()), title: title.map(|t| t.to_string()) }
}

fn bare_entry(id: &str) -> Entry {
    Entry { id: id.to_string(), title: None, updated: None, authors: vec![], content: None, links: vec![], summary: None, published: None }
}

fn bare_feed(id: &str) -> Feed {
    Feed { id: id.to_string(), title: None, updated: None, authors: vec![], description: None, links: vec![], published: None, entries: vec![] }
}

const PUBLISHED: Timestamp = Timestamp { secs: 1589701838, nanos: 0 };
const UPDATED: Timestamp = Timestamp { secs: 1589802080, nanos: 0 };


#[test]
fn assembles_full_entry() {
    let mut feed = bare_feed("urn:feed");
    feed.title = Some(text("Feed title"));
    feed.authors = vec![person("A", Some("a@x"))];
    feed.links = vec![link("https://example.org/", Some("self"), None), link("https://example.org", Some("alternate"), None)];

    let mut entry = bare_entry("urn:e1");
    entry.title = Some(text("Entry"));
    entry.authors = vec![person("B", None), person("A", Some("a@x"))];
    entry.published = Some(PUBLISHED);
    entry.updated = Some(UPDATED);
    entry.links = vec![link("https://example.org/post", None, Some("Post")), link("https://example.org/post/", None, None)];
    entry.summary = Some(Text { content_type: mime("text", "html", None, &[]), content: "<b>sum</b>".to_string() });
    entry.content = Some(Content { body: Some("<p>hi</p>".to_string()), content_type: mime("text", "html", None, &[("charset", "utf-8")]), src: None });

    let mail = assemble_mail(&feed, &entry, "urn:e1@urn:feed".to_string());
    assert_eq!(mail.context,
               "By B, A <a@x>\n\
                Published on Sun, 17 May 2020 07:50:38 +0000, updated on Mon, 18 May 2020 11:41:20 +0000\n\
                Links to Post <https://example.org/post>, https://example.org\n");
    assert_eq!(mail.related.len(), 2);
    assert_eq!(mail.related[0].body, "<b>sum</b>");
    assert_eq!(mail.related[0].type_, "text");
    assert_eq!(mail.related[0].subtype, "html");
    assert!(mail.related[0].params.is_empty());
    assert_eq!(mail.related[1].body, "<p>hi</p>");
    assert_eq!(mail.related[1].params, vec![("charset".to_string(), "utf-8".to_string())]);
    assert_eq!(mail.message_id, "urn:e1@urn:feed");
    assert_eq!(mail.subject, "Entry");
    assert_eq!(mail.date, Some(UPDATED));
    assert_eq!(mail.from, "B, A <a@x>");
}

#[test]
fn bare_entry_of_bare_feed() {
    let feed = bare_feed("urn:feed");
    let entry = bare_entry("urn:e2");
    let mail = assemble_mail(&feed, &entry, "id".to_string());
    assert_eq!(mail.context, "No publication date\n");
    assert!(mail.related.is_empty());
    assert_eq!(mail.subject, "urn:e2");
    assert_eq!(mail.date, None);
    assert_eq!(mail.from, "urn:feed");
}

#[test]
fn from_falls_back_to_title_then_description() {
    let mut feed = bare_feed("urn:feed");
    feed.description = Some(text("Desc"));
    let entry = bare_entry("e");
    assert_eq!(assemble_mail(&feed, &entry, "id".to_string()).from, "Desc <>");
    feed.title = Some(text("Title"));
    assert_eq!(assemble_mail(&feed, &entry, "id".to_string()).from, "Title <>");
}

#[test]
fn date_prefers_entry_update_then_publication_then_feed() {
    let mut feed = bare_feed("f");
    let mut entry = bare_entry("e");
    feed.published = Some(Timestamp { secs: 1, nanos: 0 });
    assert_eq!(assemble_mail(&feed, &entry, "id".to_string()).date, Some(Timestamp { secs: 1, nanos: 0 }));
    feed.updated = Some(Timestamp { secs: 2, nanos: 0 });
    assert_eq!(assemble_mail(&feed, &entry, "id".to_string()).date, Some(Timestamp { secs: 2, nanos: 0 }));
    entry.published = Some(Timestamp { secs: 3, nanos: 0 });
    assert_eq!(assemble_mail(&feed, &entry, "id".to_string()).date, Some(Timestamp { secs: 3, nanos: 0 }));
    entry.updated = Some(Timestamp { secs: 4, nanos: 0 });
    assert_eq!(assemble_mail(&feed, &entry, "id".to_string()).date, Some(Timestamp { secs: 4, nanos: 0 }));
}

#[test]
fn dates_line_variants() {
    let feed = bare_feed("f");
    let mut entry = bare_entry("e");
    entry.updated = Some(Timestamp { secs: 0, nanos: 0 });
    assert_eq!(assemble_mail(&feed, &entry, "id".to_string()).context, "Published on Thu, 1 Jan 1970 00:00:00 +0000\n");
    entry.published = Some(Timestamp { secs: 0, nanos: 0 });
    assert_eq!(assemble_mail(&feed, &entry, "id".to_string()).context, "Published on Thu, 1 Jan 1970 00:00:00 +0000\n");
    entry.updated = Some(Timestamp { secs: 1431648000, nanos: 0 });
    assert_eq!(assemble_mail(&feed, &entry, "id".to_string()).context,
               "Published on Thu, 1 Jan 1970 00:00:00 +0000, updated on Fri, 15 May 2015 00:00:00 +0000\n");
}

#[test]
fn authors_are_ordered_by_last_occurrence() {
    let mut feed = bare_feed("f");
    feed.authors = vec![person("A", None), person("C", None)];
    let mut entry = bare_entry("e");
    entry.authors = vec![person("A", None), person("B", None), person("A", Some("other"))];
    let names: Vec<String> = collect_authors(&feed, &entry).into_iter().map(|p| feembox::util::DisplayFeedPerson(&p).to_string()).collect();
    assert_eq!(names, vec!["B", "A <other>", "A", "C"]);
    assert_eq!(assemble_mail(&feed, &entry, "id".to_string()).context, "By B, A <other>, A, C\nNo publication date\n");
}

#[test]
fn links_filtered_and_deduplicated() {
    let mut feed = bare_feed("f");
    feed.links = vec![link("https://k.org", Some("SELF"), None), link("https://k.org/", None, None), link("https://k.org", None, None)];
    let mut entry = bare_entry("e");
    entry.links = vec![link("https://a", None, None), link("https://a", Some("alternate"), Some("dup")), link("https://b/", None, None)];
    let hrefs: Vec<String> = select_links(&feed, &entry).into_iter().map(|l| l.href).collect();
    assert_eq!(hrefs, vec!["https://a", "https://b/", "https://k.org/"]);
    assert_eq!(assemble_mail(&feed, &entry, "id".to_string()).context,
               "No publication date\nLinks to https://a, https://b/, https://k.org/\n");
}

#[test]
fn content_by_link_and_suffixed_type() {
    let feed = bare_feed("f");
    let mut entry = bare_entry("e");
    entry.content = Some(Content {
        body: None,
        content_type: mime("application", "atom", Some("xml"), &[]),
        src: Some(link("https://x/y", None, Some("Y"))),
    });
    let mail = assemble_mail(&feed, &entry, "id".to_string());
    assert_eq!(mail.related.len(), 1);
    assert_eq!(mail.related[0].body, "Links: Y <https://x/y>");
    assert_eq!(mail.related[0].type_, "application");
    assert_eq!(mail.related[0].subtype, "atom+xml");

    entry.content = Some(Content { body: None, content_type: mime("text", "plain", None, &[]), src: None });
    assert!(assemble_mail(&feed, &entry, "id".to_string()).related.is_empty());
}

#[test]
fn part_keeps_parameters_in_order() {
    let m = mime("text", "plain", None, &[("charset", "utf-8"), ("format", "flowed")]);
    let p = make_part("body".to_string(), &m);
    assert_eq!(p.body, "body");
    assert_eq!(p.subtype, "plain");
    assert_eq!(p.params, vec![("charset".to_string(), "utf-8".to_string()), ("format".to_string(), "flowed".to_string())]);
}

#[test]
fn rfc2822_range() {
    assert!(is_rfc2822_representable(Timestamp { secs: 0, nanos: 0 }));
    assert!(is_rfc2822_representable(Timestamp { secs: -62167219200, nanos: 0 }));
    assert!(!is_rfc2822_representable(Timestamp { secs: -62167219201, nanos: 0 }));
    assert!(is_rfc2822_representable(Timestamp { secs: 253402300799, nanos: 999_999_999 }));
    assert!(!is_rfc2822_representable(Timestamp { secs: 253402300800, nanos: 0 }));
    assert!(is_rfc2822_representable(Timestamp { secs: 59, nanos: 1_500_000_000 }));
    assert!(is_rfc2822_representable(Timestamp { secs: -1, nanos: 1_500_000_000 }));
    assert!(!is_rfc2822_representable(Timestamp { secs: 58, nanos: 1_500_000_000 }));
    assert!(!is_rfc2822_representable(Timestamp { secs: 59, nanos: 2_000_000_000 }));
    let mut entry = bare_entry("e");
    assert!(entry_dates_writable(&entry));
    entry.updated = Some(Timestamp { secs: 253402300800, nanos: 0 });
    assert!(!entry_dates_writable(&entry));
}

#[test]
fn dates_line_pieces() {
    let a = Timestamp { secs: 1, nanos: 0 };
    let b = Timestamp { secs: 2, nanos: 0 };
    assert_eq!(shown_dates(None, None), (None, None));
    assert_eq!(shown_dates(Some(a), None), (Some(a), None));
    assert_eq!(shown_dates(None, Some(b)), (Some(b), None));
    assert_eq!(shown_dates(Some(a), Some(a)), (Some(a), None));
    assert_eq!(shown_dates(Some(a), Some(b)), (Some(a), Some(b)));
    assert_eq!(dates_line_from(None, None), "No publication date\n");
    assert_eq!(dates_line_from(Some("x".to_string()), None), "Published on x\n");
    assert_eq!(dates_line_from(Some("x".to_string()), Some("y".to_string())), "Published on x, updated on y\n");
}
