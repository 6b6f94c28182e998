use private_server::consistency::Verdict;
use private_server::link::PrivateLink;
use private_server::mirror::MirrorEntry;
use private_server::rotation::{Instant, TokenRotation};
use private_server::store::LinkStore;
use private_server::token::Token;
use private_server::watcher::{
    components_of, push_segment, relative, MirrorTask, PathState, PrivateWatcher, WatchEvent,
};

const A: u128 = 0x936da01f9abd4d9d80c702af85c822a8;
const A_TEXT: &str = "936da01f-9abd-4d9d-80c7-02af85c822a8";

fn at(secs: i64) -> Instant {
    Instant { secs, nanos: 0 }
}

fn watcher() -> PrivateWatcher {
    PrivateWatcher::new("config.json", "/data/private", "/data/source/private")
}

fn show(task: &MirrorTask) -> String {
    match task {
        MirrorTask::Reset { dir } => format!("reset {}", dir),
        MirrorTask::EnsureDir { dir } => format!("dir {}", dir),
        MirrorTask::CopyTree { from, to } => format!("tree {} -> {}", from, to),
        MirrorTask::CopyFile { from, to } => format!("file {} -> {}", from, to),
        MirrorTask::Remove { path } => format!("remove {}", path),
    }
}

fn shown(tasks: &Vec<MirrorTask>) -> Vec<String> {
    tasks.iter().map(show).collect()
}

fn texts(parts: &Vec<Vec<char>>) -> Vec<String> {
    parts.iter().map(|p| p.iter().collect()).collect()
}

#[test]
fn new_watcher_has_the_paths_and_an_empty_store() {
    let w = watcher();
    assert_eq!(w.config_path, "config.json");
    assert_eq!(w.root_path, "/data/private");
    assert_eq!(w.reflect_path, "/data/source/private");
    assert_eq!(w.config.len(), 0);
}

#[test]
fn load_config_takes_the_store_or_an_empty_one() {
    let mut w = watcher();
    let mut store = LinkStore::new();
    store.insert("a", PrivateLink::issued(Token { bits: A }, at(0)));
    w.load_config(Some(store));
    assert_eq!(w.config.len(), 1);
    assert_eq!(w.config.get("a").unwrap().id, Token { bits: A });
    w.load_config(None);
    assert_eq!(w.config.len(), 0);
    assert_eq!(w.root_path, "/data/private");
}

#[test]
fn find_head_is_the_first_named_segment() {
    assert_eq!(PrivateWatcher::find_head("album/2020/a.jpg"), Some(String::from("album")));
    assert_eq!(PrivateWatcher::find_head("report.pdf"), Some(String::from("report.pdf")));
    assert_eq!(PrivateWatcher::find_head("./album/x"), Some(String::from("album")));
    assert_eq!(PrivateWatcher::find_head("/album/x"), Some(String::from("album")));
    assert_eq!(PrivateWatcher::find_head("../album"), Some(String::from("album")));
    assert_eq!(PrivateWatcher::find_head(""), None);
    assert_eq!(PrivateWatcher::find_head("./.."), None);
    assert_eq!(PrivateWatcher::find_head("//"), None);
}

#[test]
fn push_segment_puts_one_separator() {
    assert_eq!(push_segment("/a", "b"), "/a/b");
    assert_eq!(push_segment("/a/", "b"), "/a/b");
    assert_eq!(push_segment("", "b"), "b");
}

#[test]
fn components_are_normalized() {
    assert_eq!(texts(&components_of("/a/./b//c/../d")), vec!["a", "b", "d"]);
    assert_eq!(texts(&components_of("../x")), vec!["x"]);
    assert!(components_of("/").is_empty());
}

#[test]
fn relative_leads_from_the_root_to_the_path() {
    assert_eq!(texts(&relative("/data/private/a/b", "/data/private").unwrap()), vec!["a", "b"]);
    assert_eq!(texts(&relative("/data/private/a", "/data/private/").unwrap()), vec!["a"]);
    assert_eq!(texts(&relative("./private/a", "private").unwrap()), vec!["a"]);
    assert!(relative("/data/private", "/data/private").is_none());
    assert!(relative("/data/privateer/a", "/data/private").is_none());
    assert!(relative("/data", "/data/private").is_none());
    assert!(relative("data/private/a", "/data/private").is_none());
    assert!(relative("/data/private/../other/a", "/data/private").is_none());
}

#[test]
fn reflect_directory_makes_sure_of_its_replica() {
    let mut w = watcher();
    let tasks = w.reflect_source_at(
        "/data/private/album/2020",
        PathState::Directory,
        at(1000),
        Token { bits: A },
    );
    assert_eq!(shown(&tasks), vec![format!("dir /data/source/private/{}/album/2020", A_TEXT)]);
    let l = w.config.get("album").unwrap();
    assert_eq!(l.id, Token { bits: A });
    assert_eq!(l.expiry, Some(at(87400)));
}

#[test]
fn reflect_file_copies_it_under_the_token_of_its_resource() {
    let mut w = watcher();
    w.config.insert("album", PrivateLink::issued(Token { bits: A }, at(0)));
    let tasks = w.reflect_source_at(
        "/data/private/album/2020/a.jpg",
        PathState::File,
        at(1000),
        Token { bits: 5 },
    );
    assert_eq!(
        shown(&tasks),
        vec![
            format!("dir /data/source/private/{}/album/2020", A_TEXT),
            format!(
                "file /data/private/album/2020/a.jpg -> /data/source/private/{}/album/2020/a.jpg",
                A_TEXT
            ),
        ]
    );
    assert_eq!(w.config.len(), 1);
    assert_eq!(w.config.get("album").unwrap().expiry, Some(at(86400)));
}

#[test]
fn reflect_top_level_file() {
    let mut w = watcher();
    let tasks =
        w.reflect_source_at("/data/private/report.pdf", PathState::File, at(0), Token { bits: A });
    assert_eq!(
        shown(&tasks),
        vec![
            format!("dir /data/source/private/{}", A_TEXT),
            format!(
                "file /data/private/report.pdf -> /data/source/private/{}/report.pdf",
                A_TEXT
            ),
        ]
    );
}

#[test]
fn reflect_missing_path_removes_its_replica() {
    let mut w = watcher();
    w.config.insert("album", PrivateLink::issued(Token { bits: A }, at(0)));
    let tasks = w.reflect_source_at(
        "/data/private/album/old.jpg",
        PathState::Missing,
        at(1000),
        Token { bits: 5 },
    );
    assert_eq!(shown(&tasks), vec![format!("remove /data/source/private/{}/album/old.jpg", A_TEXT)]);
}

#[test]
fn reflect_outside_the_root_asks_for_nothing() {
    let mut w = watcher();
    let tasks = w.reflect_source_at("/etc/passwd", PathState::File, at(0), Token { bits: A });
    assert!(tasks.is_empty());
    let root = w.reflect_source_at("/data/private", PathState::Directory, at(0), Token { bits: A });
    assert!(root.is_empty());
    assert_eq!(w.config.len(), 0);
}

#[test]
fn reflect_source_draws_for_a_new_resource() {
    let mut w = watcher();
    let tasks = w.reflect_source("/data/private/new.txt", PathState::File);
    let l = w.config.get("new.txt").unwrap();
    assert_eq!(
        shown(&tasks),
        vec![
            format!("dir /data/source/private/{}", l.get_token()),
            format!(
                "file /data/private/new.txt -> /data/source/private/{}/new.txt",
                l.get_token()
            ),
        ]
    );
    assert!(l.expiry.unwrap().secs > Instant::now().secs + 86000);
}

#[test]
fn initialize_plans_the_full_mirror() {
    let mut w = watcher();
    let mut store = LinkStore::new();
    let kept = PrivateLink {
        id: Token { bits: A },
        expiry: Some(at(5)),
        rotation: TokenRotation {
            minutes: Some(1),
            hours: None,
            days: None,
            weeks: None,
            remove_on_expiry: true,
        },
        skip_sms: true,
    };
    store.insert("a", kept);
    store.insert("old", PrivateLink::issued(Token { bits: 9 }, at(0)));
    let children = vec![String::from("a"), String::from("b")];
    let plan = w.initialize_at(Some(store), &children, at(1000));
    let a = w.config.get("a").unwrap();
    assert_eq!(a.id, Token { bits: A });
    assert_eq!(a.expiry, Some(at(5)));
    assert!(a.skip_sms);
    let b = w.config.get("b").unwrap();
    assert_eq!(b.expiry, Some(at(87400)));
    assert_eq!(b.rotation.days, Some(1));
    assert_eq!(w.config.len(), 3);
    assert_eq!(
        shown(&plan),
        vec![
            String::from("reset /data/source/private"),
            format!("dir /data/source/private/{}", A_TEXT),
            format!("tree /data/private/a -> /data/source/private/{}/a", A_TEXT),
            format!("dir /data/source/private/{}", b.get_token()),
            format!("tree /data/private/b -> /data/source/private/{}/b", b.get_token()),
        ]
    );
}

#[test]
fn initialize_without_store_starts_empty() {
    let mut w = watcher();
    w.config.insert("left", PrivateLink::issued(Token { bits: 9 }, at(0)));
    let plan = w.initialize(None, &Vec::new());
    assert_eq!(shown(&plan), vec![String::from("reset /data/source/private")]);
    assert_eq!(w.config.len(), 0);
}

#[test]
fn check_config_at_runs_the_consistency_check() {
    let mut w = watcher();
    let source = vec![String::from("a")];
    let mirror = vec![MirrorEntry {
        name: String::from(A_TEXT),
        is_dir: true,
        children: vec![String::from("a")],
    }];
    assert_eq!(w.check_config_at(&source, &mirror, at(1000)), vec![Verdict::Kept]);
    assert_eq!(w.config.get("a").unwrap().id, Token { bits: A });
    assert_eq!(w.config.get("a").unwrap().expiry, Some(at(87400)));
    let verdicts = w.check_config(&source, &mirror);
    let rotated = w.config.get("a").unwrap();
    assert_eq!(verdicts, vec![Verdict::Rotated(rotated.id)]);
    assert_ne!(rotated.id, Token { bits: A });
    assert!(rotated.expiry.unwrap().secs > Instant::now().secs + 86000);
    assert_eq!(w.check_config(&Vec::new(), &mirror), vec![Verdict::Gone]);
    assert_eq!(w.config.len(), 0);
}

#[test]
fn check_config_keeps_a_link_that_has_time_left() {
    let mut w = watcher();
    let source = vec![String::from("a")];
    let mirror = vec![MirrorEntry {
        name: String::from(A_TEXT),
        is_dir: true,
        children: vec![String::from("a")],
    }];
    assert_eq!(w.check_config(&source, &mirror), vec![Verdict::Kept]);
    assert_eq!(w.check_config(&source, &mirror), vec![Verdict::Kept]);
    assert_eq!(w.config.get("a").unwrap().id, Token { bits: A });
}

#[test]
fn events_name_the_paths_to_reflect() {
    assert_eq!(WatchEvent::Create(String::from("/a")).paths(), vec!["/a"]);
    assert_eq!(WatchEvent::Remove(String::from("/b")).paths(), vec!["/b"]);
    assert_eq!(WatchEvent::Write(String::from("/c")).paths(), vec!["/c"]);
    assert_eq!(
        WatchEvent::Rename(String::from("/old"), String::from("/new")).paths(),
        vec!["/old", "/new"]
    );
    assert!(WatchEvent::Other.paths().is_empty());
}
