use feembox::model::{Entry, Feed};
use feembox::util::{self, MESSAGE_ID_HEADER, LINK_REL_FILTER};


static KDIST_ID: &str = "8439afcc8c180d1e80b76c39f3beb253";
static KDIST_ENTRY_IDS: &[&str] = &["kernel.org,mainline,5.7-rc4,2020-05-03",
                                    "kernel.org,stable,5.6.11,2020-05-06",
                                    "kernel.org,stable,5.5.19,2020-04-21",
                                    "kernel.org,longterm,5.4.39,2020-05-06",
                                    "kernel.org,longterm,4.19.121,2020-05-06",
                                    "kernel.org,longterm,4.14.179,2020-05-05",
                                    "kernel.org,longterm,4.9.222,2020-05-05",
                                    "kernel.org,longterm,4.4.222,2020-05-05",
                                    "kernel.org,longterm,3.16.83,2020-04-28",
                                    "kernel.org,linux-next,next-20200508,2020-05-08"];

fn entry(id: &str) -> Entry {
    Entry {
        id: id.to_string(),
        title: None,
        updated: None,
        authors: vec![],
        content: None,
        links: vec![],
        summary: None,
        published: None,
    }
}

fn kdist_feed() -> Feed {
    Feed {
        id: KDIST_ID.to_string(),
        title: None,
        updated: None,
        authors: vec![],
        description: None,
        links: vec![],
        published: None,
        entries: KDIST_ENTRY_IDS.iter().map(|id| entry(id)).collect(),
    }
}


#[test]
fn message_id_header() {
    assert_eq!("Message-ID", MESSAGE_ID_HEADER);
    assert!(util::is_message_id_header("Message-ID"));
    assert!(util::is_message_id_header("message-id"));
    assert!(util::is_message_id_header("MESSAGE-ID"));
    assert!(!util::is_message_id_header("Message-IDs"));
    assert!(!util::is_message_id_header("In-Reply-To"));
}

#[test]
fn link_rel_filter() {
    assert!(LINK_REL_FILTER.iter().find(|f| **f == "self").is_some());
    assert!(util::is_filtered_link_rel("self"));
    assert!(util::is_filtered_link_rel("Self"));
    assert!(util::is_filtered_link_rel("SELF"));
    assert!(!util::is_filtered_link_rel("alternate"));
    assert!(!util::is_filtered_link_rel("selfie"));
}

#[test]
fn message_id_for_feed_entry() {
    let kdist_feed = kdist_feed();

    for (entry, entry_id) in kdist_feed.entries.iter().zip(KDIST_ENTRY_IDS.iter()) {
        assert_eq!(util::message_id_for_feed_entry(&kdist_feed, entry), format!("{}@{}", entry_id, KDIST_ID));
    }
}

#[test]
fn message_ids_of_distinct_entries_differ() {
    let feed = kdist_feed();
    let a = util::message_id_for_feed_entry(&feed, &entry("a@b"));
    let b = util::message_id_for_feed_entry(&feed, &entry("a"));
    assert_eq!(a, format!("a@b@{}", KDIST_ID));
    assert_ne!(a, b);
}
