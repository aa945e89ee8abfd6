use feembox::maildir::{context_domain, escape_hostname, maildir_file_name, message_id_lists_in_mail, PendingDeliveries};
use feembox::model::{Entry, Feed};


fn entry(id: &str) -> Entry {
    Entry { id: id.to_string(), title: None, updated: None, authors: vec![], content: None, links: vec![], summary: None, published: None }
}

fn feed(id: &str, entries: &[&str]) -> Feed {
    Feed {
        id: id.to_string(),
        title: None,
        updated: None,
        authors: vec![],
        description: None,
        links: vec![],
        published: None,
        entries: entries.iter().map(|e| entry(e)).collect(),
    }
}


#[test]
fn message_ids_of_a_mail() {
    let mail = b"From: x\nMessage-ID: <a@f>\nmessage-id: <b@f>  <c@f>\nMessage-ID: garbage\nSubject: s\n\nbody\nMESSAGE-ID: <d@f>\n";
    let lists = message_id_lists_in_mail(mail);
    assert_eq!(lists, vec![vec!["a@f".to_string()], vec!["b@f".to_string(), "c@f".to_string()], vec!["d@f".to_string()]]);
}

#[test]
fn message_ids_stop_where_no_header_parses() {
    let mail = b"Message-ID: <a@f>\n\n continued\nMessage-ID: <b@f>\n";
    assert_eq!(message_id_lists_in_mail(mail), vec![vec!["a@f".to_string()]]);
    assert!(message_id_lists_in_mail(b"").is_empty());
}

#[test]
fn pending_deliveries_in_message_id_order() {
    let f = feed("f", &["b", "a", "c", "a"]);
    let pending = PendingDeliveries::new(&f);
    assert_eq!(pending.deliveries(), vec![("a@f".to_string(), 3), ("b@f".to_string(), 0), ("c@f".to_string(), 2)]);
}

#[test]
fn delivered_entries_are_forgotten() {
    let f = feed("f", &["b", "a", "c"]);
    let mut pending = PendingDeliveries::new(&f);
    assert!(pending.remove("b@f"));
    assert!(!pending.remove("b@f"));
    assert!(!pending.remove("zzz"));
    assert_eq!(pending.deliveries(), vec![("a@f".to_string(), 1), ("c@f".to_string(), 2)]);
    assert!(pending.remove("a@f"));
    assert!(pending.remove("c@f"));
    assert!(pending.deliveries().is_empty());
}

#[test]
fn hostname_escaping() {
    assert_eq!(escape_hostname("nabuter"), "nabuter");
    assert_eq!(escape_hostname("host/a:b"), "host\\057a\\072b");
    assert_eq!(escape_hostname("::"), "\\072\\072");
}

#[test]
fn mail_names() {
    assert_eq!(maildir_file_name(1591610344, 981513, 12500, 1, "nabuter"), "1591610344.M981513P12500Q1.nabuter");
    assert_eq!(maildir_file_name(0, 0, 0, 0, ""), "0.M0P0Q0.");
    assert_ne!(maildir_file_name(5, 6, 7, 1, "1"), maildir_file_name(5, 6, 7, 11, ""));
    assert_eq!(context_domain(12500, "nabuter"), "P12500.nabuter");
}
