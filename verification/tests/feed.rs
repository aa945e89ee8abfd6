use feembox::feed::{is_safe_for_parser, parse_feed, parse_feed_checked, parse_feed_from};
use feembox::model::Timestamp;
use feembox::util::{self, DisplayParseFeedError, ParseErrorKind, ParseFeedError};


static KDIST_ID: &str = "8439afcc8c180d1e80b76c39f3beb253";
static KDIST_ENTRY_IDS: &[&str] = &["kernel.org,mainline,5.7-rc4,2020-05-03",
                                    "kernel.org,stable,5.6.11,2020-05-06",
                                    "kernel.org,stable,5.5.19,2020-04-21",
                                    "kernel.org,longterm,5.4.39,2020-05-06",
                                    "kernel.org,longterm,4.19.121,2020-05-06",
                                    "kernel.org,longterm,4.14.179,2020-05-05",
                                    "kernel.org,longterm,4.9.222,2020-05-05",
                                    "kernel.org,longterm,4.4.222,2020-05-05",
                                    "kernel.org,longterm,3.16.83,2020-04-28",
                                    "kernel.org,linux-next,next-20200508,2020-05-08"];

fn kdist_atom() -> String {
    let mut xml = format!("<?xml version=\"1.0\"?><feed xmlns=\"http://www.w3.org/2005/Atom\"><id>{}</id><title>kernel.org</title>", KDIST_ID);
    for id in KDIST_ENTRY_IDS {
        xml.push_str(&format!("<entry><id>{}</id><title>{}</title></entry>", id, id));
    }
    xml.push_str("</feed>");
    xml
}


#[test]
fn parsed_feed_message_ids() {
    let feed = parse_feed(kdist_atom().as_bytes()).unwrap();
    assert_eq!(feed.id, KDIST_ID);
    assert_eq!(feed.entries.len(), KDIST_ENTRY_IDS.len());
    for (entry, entry_id) in feed.entries.iter().zip(KDIST_ENTRY_IDS.iter()) {
        assert_eq!(util::message_id_for_feed_entry(&feed, entry), format!("{}@{}", entry_id, KDIST_ID));
    }
}

#[test]
fn parsed_entry_parts() {
    let xml = r#"<?xml version="1.0"?>
<feed xmlns="http://www.w3.org/2005/Atom">
  <id>urn:feed</id>
  <title>Feed title</title>
  <updated>2020-05-18T11:41:20Z</updated>
  <author><name>A</name><email>a@x</email></author>
  <link rel="self" href="https://example.org/feed"/>
  <entry>
    <id>urn:e1</id>
    <title>Entry</title>
    <updated>2020-05-18T11:41:20Z</updated>
    <published>2020-05-17T07:50:38Z</published>
    <author><name>B</name><uri>https://b</uri></author>
    <link href="https://example.org/post" title="Post"/>
    <summary type="html">&lt;b&gt;sum&lt;/b&gt;</summary>
    <content type="html">&lt;p&gt;hi&lt;/p&gt;</content>
  </entry>
</feed>"#;
    let feed = parse_feed(xml.as_bytes()).unwrap();
    assert_eq!(feed.id, "urn:feed");
    assert_eq!(feed.title.as_ref().unwrap().content, "Feed title");
    assert_eq!(feed.updated, Some(Timestamp { secs: 1589802080, nanos: 0 }));
    assert_eq!(feed.authors[0].name, "A");
    assert_eq!(feed.authors[0].email.as_deref(), Some("a@x"));
    assert_eq!(feed.links[0].rel.as_deref(), Some("self"));
    let entry = &feed.entries[0];
    assert_eq!(entry.id, "urn:e1");
    assert_eq!(entry.title.as_ref().unwrap().content, "Entry");
    assert_eq!(entry.published, Some(Timestamp { secs: 1589701838, nanos: 0 }));
    assert_eq!(entry.authors[0].uri.as_deref(), Some("https://b"));
    assert_eq!(entry.links[0].href, "https://example.org/post");
    assert_eq!(entry.links[0].title.as_deref(), Some("Post"));
    let summary = entry.summary.as_ref().unwrap();
    assert_eq!(summary.content, "<b>sum</b>");
    assert_eq!((summary.content_type.type_.as_str(), summary.content_type.subtype.as_str()), ("text", "html"));
    let content = entry.content.as_ref().unwrap();
    assert_eq!(content.body.as_deref(), Some("<p>hi</p>"));
    assert_eq!(content.content_type.subtype, "html");
}

#[test]
fn missing_ids_are_made_up() {
    let xml = r#"<?xml version="1.0"?><rss version="2.0"><channel><title>t</title><description>d</description>
<item><title>with link</title><link>https://x/1</link></item><item><title>without</title></item></channel></rss>"#;
    let feed = parse_feed(xml.as_bytes()).unwrap();
    assert!(!feed.id.is_empty());
    assert_eq!(feed.entries.len(), 2);
    assert!(feed.entries.iter().all(|e| !e.id.is_empty()));
    assert_ne!(feed.entries[0].id, feed.entries[1].id);
}

#[test]
fn not_a_feed() {
    let e = parse_feed(b"plain words").unwrap_err();
    assert_eq!(e, ParseFeedError::ParseError(ParseErrorKind::NoFeedRoot));
    assert_eq!(DisplayParseFeedError(e).to_string(), "couldn't parse feed: no root element");
}

#[test]
fn malformed_feeds() {
    match parse_feed(b"{ not json").unwrap_err() {
        ParseFeedError::JsonSerde(message) => assert!(!message.is_empty()),
        other => panic!("{:?}", other),
    }
}

fn media_rss(time: &str) -> String {
    format!("<?xml version=\"1.0\"?><rss version=\"2.0\" xmlns:media=\"http://search.yahoo.com/mrss/\"><channel><title>t</title>\
<item><guid>g1</guid><title>clip</title><media:thumbnail url=\"https://x/t.png\" time=\"{}\"/></item></channel></rss>", time)
}

#[test]
fn overlong_play_time_is_refused() {
    assert!(parse_feed_checked(media_rss("99999999999999999999999").as_bytes()).is_none());
    assert!(parse_feed_checked(media_rss("1234567890123456:00:00").as_bytes()).is_none());
}

#[test]
fn media_feed_with_short_play_time_parses() {
    let feed = parse_feed_checked(media_rss("12:05:35.123").as_bytes()).unwrap().unwrap();
    assert_eq!(feed.entries.len(), 1);
    assert_eq!(feed.entries[0].id, "g1");
    let feed = parse_feed_checked(media_rss("123456789012345").as_bytes()).unwrap().unwrap();
    assert_eq!(feed.entries[0].id, "g1");
}

#[test]
fn parser_safety_check() {
    assert!(is_safe_for_parser("<feed><title>caf\u{e9} 12345678901234567890 &#233;</title></feed>".as_bytes()));
    assert!(!is_safe_for_parser(b"<feed>\0</feed>"));
    assert!(!is_safe_for_parser(b"<feed>\x1b(B</feed>"));
    assert!(is_safe_for_parser(media_rss("123456789012345").as_bytes()));
    assert!(!is_safe_for_parser(media_rss("1234567890123456").as_bytes()));
    assert!(!is_safe_for_parser(media_rss("&#1633;").as_bytes()));
    assert!(!is_safe_for_parser(media_rss("\u{661}").as_bytes()));
    let itunes = "<rss xmlns:itunes=\"http://www.itunes.com/dtds/podcast-1.0.dtd\"><channel><title>\u{e9}</title></channel></rss>";
    assert!(!is_safe_for_parser(itunes.as_bytes()));
}

#[test]
fn checked_parse_agrees_with_parse() {
    let xml = kdist_atom();
    let checked = parse_feed_checked(xml.as_bytes()).unwrap().unwrap();
    let plain = parse_feed(xml.as_bytes()).unwrap();
    assert_eq!(checked.id, plain.id);
    assert_eq!(checked.entries.len(), plain.entries.len());
    assert_eq!(parse_feed_checked(b"plain words").unwrap().unwrap_err(), ParseFeedError::ParseError(ParseErrorKind::NoFeedRoot));
}

#[test]
fn feed_from_parsed_parts() {
    let e = parse_feed_from(Err(ParseFeedError::IoError("gone".to_string()))).unwrap_err();
    assert_eq!(e, ParseFeedError::IoError("gone".to_string()));
    let mut raw = feed_rs::parser::parse(kdist_atom().as_bytes()).unwrap();
    let given: Vec<(String, feed_rs::model::Entry)> =
        raw.entries.drain(..).enumerate().map(|(i, e)| (format!("e{}", i), e)).collect();
    let feed = parse_feed_from(Ok(("f".to_string(), raw, given))).unwrap();
    assert_eq!(feed.id, "f");
    assert_eq!(feed.entries.len(), KDIST_ENTRY_IDS.len());
    assert_eq!(feed.entries[3].id, "e3");
    assert_eq!(feed.entries[3].title.as_ref().unwrap().content, KDIST_ENTRY_IDS[3]);
}
