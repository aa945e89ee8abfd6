use feembox::model::Person as FeedPerson;
use feembox::util::DisplayFeedPerson;
use std::collections::HashSet;


#[test]
fn name_no_uri_no_email() {
    assert_eq!(DisplayFeedPerson(&FeedPerson {
                       name: "name".to_string(),
                       uri: None,
                       email: None,
                   })
                   .to_string(),
               "name");
}

#[test]
fn name_no_uri_email() {
    assert_eq!(DisplayFeedPerson(&FeedPerson {
                       name: "name".to_string(),
                       uri: None,
                       email: Some("mail@e".to_string()),
                   })
                   .to_string(),
               "name <mail@e>");
}

#[test]
fn name_uri_no_email() {
    assert_eq!(DisplayFeedPerson(&FeedPerson {
                       name: "name".to_string(),
                       uri: Some("https://nabijaczleweli.xyz".to_string()),
                       email: None,
                   })
                   .to_string(),
               "name (https://nabijaczleweli.xyz)");
}

#[test]
fn name_uri_email() {
    assert_eq!(DisplayFeedPerson(&FeedPerson {
                       name: "name".to_string(),
                       uri: Some("https://nabijaczleweli.xyz".to_string()),
                       email: Some("mail@e".to_string()),
                   })
                   .to_string(),
               "name <mail@e> (https://nabijaczleweli.xyz)");
}

#[test]
fn display_feed_person_equality_and_hash() {
    let a = FeedPerson { name: "a".to_string(), uri: None, email: Some("x@y".to_string()) };
    let b = FeedPerson { name: "a".to_string(), uri: None, email: Some("x@y".to_string()) };
    let c = FeedPerson { name: "a".to_string(), uri: Some("x@y".to_string()), email: None };
    assert_eq!(DisplayFeedPerson(&a), DisplayFeedPerson(&b));
    assert_ne!(DisplayFeedPerson(&a), DisplayFeedPerson(&c));
    let set: HashSet<_> = vec![DisplayFeedPerson(&a), DisplayFeedPerson(&b), DisplayFeedPerson(&c)].into_iter().collect();
    assert_eq!(set.len(), 2);
}
