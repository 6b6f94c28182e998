use private_server::link::PrivateLink;
use private_server::rotation::Instant;
use private_server::store::{Entry, LinkStore};
use private_server::token::Token;

fn link(id: u128) -> PrivateLink {
    PrivateLink::issued(Token { bits: id }, Instant { secs: 0, nanos: 0 })
}

#[test]
fn new_store_is_empty() {
    let store = LinkStore::new();
    assert_eq!(store.len(), 0);
    assert!(store.get("a").is_none());
    assert!(!store.contains("a"));
}

#[test]
fn insert_then_get() {
    let mut store = LinkStore::new();
    store.insert("a", link(1));
    store.insert("b", link(2));
    assert_eq!(store.len(), 2);
    assert_eq!(store.get("a").unwrap().id, Token { bits: 1 });
    assert_eq!(store.get("b").unwrap().id, Token { bits: 2 });
    assert!(store.get("c").is_none());
    assert_eq!(store.find("b"), Some(1));
    assert_eq!(store.find("c"), None);
}

#[test]
fn insert_replaces_the_link_of_a_name() {
    let mut store = LinkStore::new();
    store.insert("a", link(1));
    store.insert("b", link(2));
    store.insert("a", link(3));
    assert_eq!(store.len(), 2);
    assert_eq!(store.get("a").unwrap().id, Token { bits: 3 });
    assert_eq!(store.name_at(0), "a");
    assert_eq!(store.name_at(1), "b");
    assert_eq!(store.link_at(0).id, Token { bits: 3 });
}

#[test]
fn prune_keeps_the_marked_entries_in_order() {
    let mut store = LinkStore::new();
    store.insert("a", link(1));
    store.insert("b", link(2));
    store.insert("c", link(3));
    store.prune(&vec![true, false, true]);
    assert_eq!(store.len(), 2);
    assert_eq!(store.name_at(0), "a");
    assert_eq!(store.name_at(1), "c");
    assert!(store.get("b").is_none());
    assert_eq!(store.get("c").unwrap().id, Token { bits: 3 });
    store.prune(&vec![false, false]);
    assert_eq!(store.len(), 0);
}

#[test]
fn records_round_trip() {
    let mut store = LinkStore::new();
    let mut exempt = link(1);
    exempt.skip_sms = true;
    exempt.expiry = None;
    exempt.rotation.weeks = Some(2);
    exempt.rotation.remove_on_expiry = true;
    store.insert("a", exempt);
    store.insert("b", link(2));
    let records = store.records();
    assert_eq!(records.len(), 2);
    assert_eq!(records[0].name, "a");
    assert_eq!(records[1].name, "b");
    let back = LinkStore::from_records(&records);
    assert_eq!(back.len(), 2);
    let a = back.get("a").unwrap();
    assert_eq!(a.id, Token { bits: 1 });
    assert_eq!(a.expiry, None);
    assert_eq!(a.rotation.weeks, Some(2));
    assert_eq!(a.rotation.days, Some(1));
    assert!(a.rotation.remove_on_expiry);
    assert!(a.skip_sms);
    let b = back.get("b").unwrap();
    assert_eq!(b.id, Token { bits: 2 });
    assert_eq!(b.expiry, Some(Instant { secs: 86400, nanos: 0 }));
    assert!(!b.skip_sms);
}

#[test]
fn from_records_lets_the_last_record_of_a_name_count() {
    let records = vec![
        Entry { name: String::from("a"), link: link(1) },
        Entry { name: String::from("b"), link: link(2) },
        Entry { name: String::from("a"), link: link(3) },
    ];
    let store = LinkStore::from_records(&records);
    assert_eq!(store.len(), 2);
    assert_eq!(store.get("a").unwrap().id, Token { bits: 3 });
    assert_eq!(store.get("b").unwrap().id, Token { bits: 2 });
    assert_eq!(LinkStore::from_records(&Vec::new()).len(), 0);
}
