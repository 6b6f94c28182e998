use private_server::audit::{compose, digest_due, entry_line, rank, Access, AccessWindow, SMS_LIMIT};
use private_server::link::PrivateLink;
use private_server::rotation::Instant;
use private_server::store::LinkStore;
use private_server::token::Token;

const A: Token = Token { bits: 0x936da01f9abd4d9d80c702af85c822a8 };
const STALE: Token = Token { bits: 0x0123456789abcdef0123456789abcdef };

fn store_with(name: &str, token: Token, skip_sms: bool) -> LinkStore {
    let mut store = LinkStore::new();
    let mut link = PrivateLink::issued(token, Instant { secs: 0, nanos: 0 });
    link.skip_sms = skip_sms;
    store.insert(name, link);
    store
}

fn access(name: &str, count: u64) -> Access {
    Access { token: A, name: String::from(name), count }
}

fn names(entries: &Vec<Access>) -> Vec<String> {
    entries.iter().map(|a| a.name.clone()).collect()
}

#[test]
fn three_hits_and_a_stale_one_count_three() {
    let store = store_with("report.pdf", A, false);
    let mut window = AccessWindow::new();
    assert!(window.record(&store, A, "report.pdf"));
    assert!(window.record(&store, A, "report.pdf"));
    assert!(!window.record(&store, STALE, "report.pdf"));
    assert!(window.record(&store, A, "report.pdf"));
    assert_eq!(window.count(A, "report.pdf"), 3);
    assert_eq!(window.count(STALE, "report.pdf"), 0);
    assert_eq!(window.entries.len(), 1);
}

#[test]
fn hits_on_unknown_or_exempt_resources_are_discarded() {
    let store = store_with("report.pdf", A, true);
    let mut window = AccessWindow::new();
    assert!(!window.record(&store, A, "report.pdf"));
    assert!(!window.record(&store, A, "other.pdf"));
    assert!(!window.record(&LinkStore::new(), A, "report.pdf"));
    assert!(window.is_empty());
    assert_eq!(window.count(A, "report.pdf"), 0);
}

#[test]
fn pairs_are_counted_apart_in_order_of_first_hit() {
    let mut store = store_with("a", A, false);
    store.insert("b", PrivateLink::issued(STALE, Instant { secs: 0, nanos: 0 }));
    let mut window = AccessWindow::new();
    assert!(window.record(&store, STALE, "b"));
    assert!(window.record(&store, A, "a"));
    assert!(window.record(&store, STALE, "b"));
    assert_eq!(window.count(A, "a"), 1);
    assert_eq!(window.count(STALE, "b"), 2);
    assert_eq!(names(&window.entries), vec!["b", "a"]);
    assert_eq!(window.find(A, "a"), Some(1));
    assert_eq!(window.find(A, "b"), None);
}

#[test]
fn line_holds_name_and_count() {
    let l: String = entry_line(&access("report.pdf", 12)).iter().collect();
    assert_eq!(l, "\nreport.pdf: 12");
}

#[test]
fn rank_sorts_by_hits_and_keeps_ties_in_order() {
    let entries = vec![access("a", 1), access("b", 5), access("c", 1), access("d", 5), access("e", 9)];
    let ranked = rank(&entries);
    assert_eq!(names(&ranked), vec!["e", "b", "d", "a", "c"]);
    assert!(rank(&Vec::new()).is_empty());
}

#[test]
fn digest_lists_the_entries_most_hits_first() {
    let mut store = store_with("notes.txt", A, false);
    store.insert("report.pdf", PrivateLink::issued(A, Instant { secs: 0, nanos: 0 }));
    let mut window = AccessWindow::new();
    window.record(&store, A, "notes.txt");
    window.record(&store, A, "report.pdf");
    window.record(&store, A, "report.pdf");
    assert_eq!(window.digest(), "Caution!\nreport.pdf: 2\nnotes.txt: 1");
}

#[test]
fn digest_of_many_entries_ends_in_the_marker() {
    let mut entries: Vec<Access> = Vec::new();
    for i in 0..20u64 {
        entries.push(access(&format!("resource-number-{:02}.bin", i), 100 - i));
    }
    let message = compose(&rank(&entries));
    assert!(message.chars().count() <= SMS_LIMIT);
    assert!(message.ends_with("\n..."));
    assert_eq!(
        message,
        "Caution!\nresource-number-00.bin: 100\nresource-number-01.bin: 99\
         \nresource-number-02.bin: 98\nresource-number-03.bin: 97\n..."
    );
}

#[test]
fn digest_fills_the_budget_exactly() {
    let fits = vec![access(&"x".repeat(124), 1)];
    let message = compose(&fits);
    assert_eq!(message.chars().count(), 136);
    assert!(!message.ends_with("\n..."));
    let too_long = vec![access(&"x".repeat(125), 1)];
    assert_eq!(compose(&too_long), "Caution!\n...");
}

#[test]
fn digest_stops_at_the_first_line_that_does_not_fit() {
    let entries = vec![access(&"y".repeat(200), 9), access("short", 1)];
    assert_eq!(compose(&entries), "Caution!\n...");
}

#[test]
fn digest_counts_characters() {
    let entries = vec![access(&"é".repeat(124), 1)];
    let message = compose(&entries);
    assert_eq!(message.chars().count(), 136);
    assert!(!message.ends_with("\n..."));
}

#[test]
fn digest_of_nothing_is_the_preamble() {
    assert_eq!(compose(&Vec::new()), "Caution!");
}

#[test]
fn take_digest_clears_the_window() {
    let store = store_with("report.pdf", A, false);
    let mut window = AccessWindow::new();
    assert_eq!(window.take_digest(), None);
    window.record(&store, A, "report.pdf");
    assert_eq!(window.take_digest(), Some(String::from("Caution!\nreport.pdf: 1")));
    assert!(window.is_empty());
    assert_eq!(window.take_digest(), None);
}

#[test]
fn digest_is_due_after_five_minutes() {
    assert!(!digest_due(0));
    assert!(!digest_due(300_000_000_000));
    assert!(digest_due(300_000_000_001));
}
