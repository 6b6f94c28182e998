use private_server::server::{private_access, private_pieces, starts_with, Settings};
use private_server::token::Token;

const A: Token = Token { bits: 0x936da01f9abd4d9d80c702af85c822a8 };

#[test]
fn settings_default_to_the_documented_values() {
    let s = Settings::from_options(None, None, None, None);
    assert_eq!(s.address, "localhost:8000");
    assert_eq!(s.serve_path_root, "./source");
    assert_eq!(s.private_serve_path, "./source/private");
    assert_eq!(s.private_path_root, "./private");
    assert_eq!(s.config_file, "config.json");
    assert_eq!(s.path_4xx(), "./source/4xx.html");
    assert_eq!(s.path_5xx(), "./source/5xx.html");
}

#[test]
fn settings_take_what_is_given() {
    let s = Settings::from_options(
        Some(String::from("0.0.0.0:80")),
        Some(String::from("/srv/www")),
        Some(String::from("/srv/private")),
        Some(String::from("/etc/links.json")),
    );
    assert_eq!(s.address, "0.0.0.0:80");
    assert_eq!(s.serve_path_root, "/srv/www");
    assert_eq!(s.private_serve_path, "/srv/www/private");
    assert_eq!(s.private_path_root, "/srv/private");
    assert_eq!(s.config_file, "/etc/links.json");
    assert_eq!(s.path_4xx(), "/srv/www/4xx.html");
}

#[test]
fn private_access_reads_token_and_resource() {
    assert_eq!(
        private_access("/private/936da01f-9abd-4d9d-80c7-02af85c822a8/report.pdf"),
        Some((A, String::from("report.pdf")))
    );
    assert_eq!(
        private_access("/private/936da01f-9abd-4d9d-80c7-02af85c822a8/album/2020/a.jpg"),
        Some((A, String::from("album")))
    );
    assert_eq!(
        private_access("/private/936da01f-9abd-4d9d-80c7-02af85c822a8/"),
        Some((A, String::from("")))
    );
}

#[test]
fn private_access_refuses_other_paths() {
    assert_eq!(private_access("/public/936da01f-9abd-4d9d-80c7-02af85c822a8/report.pdf"), None);
    assert_eq!(private_access("/private/not-a-token/report.pdf"), None);
    assert_eq!(private_access("/private/936da01f-9abd-4d9d-80c7-02af85c822a8"), None);
    assert_eq!(private_access("/private"), None);
    assert_eq!(private_access("/"), None);
    assert_eq!(private_access(""), None);
    assert_eq!(private_access("private/936da01f-9abd-4d9d-80c7-02af85c822a8/x/y"), None);
}

#[test]
fn starts_with_compares_the_opening_characters() {
    let v: Vec<char> = "/private/x".chars().collect();
    assert!(starts_with(&v, &"/private".chars().collect()));
    assert!(starts_with(&v, &Vec::new()));
    assert!(!starts_with(&v, &"/public".chars().collect()));
    assert!(!starts_with(&v, &"/private/x/y".chars().collect()));
}

#[test]
fn private_pieces_are_the_third_and_fourth() {
    assert_eq!(
        private_pieces("/private/abc/report.pdf/x"),
        Some((String::from("abc"), String::from("report.pdf")))
    );
    assert_eq!(private_pieces("/privateer/abc/x"), Some((String::from("abc"), String::from("x"))));
    assert_eq!(private_pieces("/private//"), Some((String::from(""), String::from(""))));
    assert_eq!(private_pieces("/private/abc"), None);
    assert_eq!(private_pieces("/other/abc/x"), None);
}
