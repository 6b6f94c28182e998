use private_server::responder::{
    disposition, etag, etag_matches, extension, file_name, respond_with, Body, FileMeta, Outcome,
    Responder, Response,
};
use private_server::staticfile::StaticFile;

fn headers(resp: &Response) -> Vec<(String, String)> {
    resp.headers.iter().map(|h| (h.name.clone(), h.value.clone())).collect()
}

fn pair(name: &str, value: &str) -> (String, String) {
    (String::from(name), String::from(value))
}

fn respond(o: Outcome) -> Response {
    match o {
        Outcome::Respond(r) => r,
        Outcome::Lookup(_) => panic!("a response was expected"),
    }
}

fn file(modified: u64, size: u64) -> Option<FileMeta> {
    Some(FileMeta { is_file: true, modified, size })
}

fn directory() -> Option<FileMeta> {
    Some(FileMeta { is_file: false, modified: 0, size: 4096 })
}

#[test]
fn etag_is_hex_seconds_hyphen_hex_size() {
    assert_eq!(etag(0x5f5e100, 1024), "5f5e100-400");
    assert_eq!(etag(0, 0), "0-0");
    assert_eq!(etag(784111777, 11), "2ebc98a1-b");
}

#[test]
fn file_name_is_the_last_filled_segment() {
    assert_eq!(file_name("/srv/www/a/b.txt"), Some(String::from("b.txt")));
    assert_eq!(file_name("/srv/www/a/"), Some(String::from("a")));
    assert_eq!(file_name("b.txt"), Some(String::from("b.txt")));
    assert_eq!(file_name("/"), None);
    assert_eq!(file_name(""), None);
}

#[test]
fn extension_follows_the_last_dot() {
    assert_eq!(extension("report.pdf"), "pdf");
    assert_eq!(extension("archive.tar.gz"), "gz");
    assert_eq!(extension("README"), "");
    assert_eq!(extension(".profile"), "");
    assert_eq!(extension(".profile.bak"), "bak");
    assert_eq!(extension("a."), "");
    assert_eq!(extension(""), "");
}

#[test]
fn disposition_is_inline_for_images_text_and_video() {
    assert_eq!(disposition("image/png", None), "inline");
    assert_eq!(disposition("text/html", None), "inline");
    assert_eq!(disposition("video/mp4", None), "inline");
    assert_eq!(disposition("application/pdf", None), "attachment");
    assert_eq!(disposition("audio/mpeg", None), "attachment");
    assert_eq!(disposition("texture/x", None), "attachment");
}

#[test]
fn disposition_carries_the_encoded_name() {
    assert_eq!(disposition("text/plain", Some("a%2Etxt")), "inline; filename*=\"a%2Etxt\"");
    assert_eq!(
        disposition("application/zip", Some("x%2Ezip")),
        "attachment; filename*=\"x%2Ezip\""
    );
}

#[test]
fn etag_matches_any_entry_of_the_list() {
    assert!(etag_matches("5f5e100-400", "5f5e100-400"));
    assert!(etag_matches("abc, 5f5e100-400 ,xyz", "5f5e100-400"));
    assert!(etag_matches("\t5f5e100-400\u{a0}", "5f5e100-400"));
    assert!(!etag_matches("5f5e100-401", "5f5e100-400"));
    assert!(!etag_matches("5f5e100-40", "5f5e100-400"));
    assert!(!etag_matches("\"5f5e100-400\"", "5f5e100-400"));
    assert!(!etag_matches("", "5f5e100-400"));
    assert!(!etag_matches("5f5e100 -400", "5f5e100-400"));
}

#[test]
fn from_resolves_the_path_and_keeps_the_headers() {
    let state = StaticFile::new("/srv/www");
    let r = Responder::from(&state, "/a/../b.txt", Some("x"), None);
    assert_eq!(r.actual_path, "/a/../b.txt");
    assert_eq!(r.path, "/srv/www/b.txt");
    assert_eq!(r.if_none_match, Some(String::from("x")));
    assert_eq!(r.if_modified_since, None);
}

#[test]
fn missing_path_is_a_404_with_the_configured_body() {
    let mut state = StaticFile::new("/srv/www");
    state.body_4xx = b"<h1>nothing here</h1>".to_vec();
    let resp = respond(Responder::from(&state, "/nope", None, None).stream(None));
    assert_eq!(resp.status, 404);
    assert_eq!(
        headers(&resp),
        vec![
            pair("content-disposition", "inline"),
            pair("content-length", "21"),
            pair("content-type", "text/html;charset=utf-8"),
        ]
    );
    match resp.body {
        Body::Bytes(b) => assert_eq!(b, b"<h1>nothing here</h1>".to_vec()),
        _ => panic!("the body was expected"),
    }
}

#[test]
fn server_error_is_a_500_with_the_configured_body() {
    let state = StaticFile::new("/srv/www");
    let resp = state.server_error();
    assert_eq!(resp.status, 500);
    assert_eq!(
        headers(&resp),
        vec![
            pair("content-disposition", "inline"),
            pair("content-length", "23"),
            pair("content-type", "text/html;charset=utf-8"),
        ]
    );
    match resp.body {
        Body::Bytes(b) => assert_eq!(b, b"I'm broken, apparently.".to_vec()),
        _ => panic!("the body was expected"),
    }
    assert_eq!(state.not_found().status, 404);
}

#[test]
fn directory_without_slash_redirects_to_the_path_with_it() {
    let state = StaticFile::new("/srv/www");
    let resp = respond(Responder::from(&state, "/assets", None, None).stream(directory()));
    assert_eq!(resp.status, 301);
    assert_eq!(headers(&resp), vec![pair("location", "/assets/")]);
    assert!(matches!(resp.body, Body::Empty));
}

#[test]
fn directory_with_slash_hands_over_to_its_index() {
    let state = StaticFile::new("/srv/www");
    let first = Responder::from(&state, "/assets/", Some("tag"), Some("date"));
    assert_eq!(first.path, "/srv/www/assets");
    let next = match first.stream(directory()) {
        Outcome::Lookup(next) => next,
        Outcome::Respond(_) => panic!("a lookup was expected"),
    };
    assert_eq!(next.actual_path, "/assets/index.html");
    assert_eq!(next.path, "/srv/www/assets/index.html");
    assert_eq!(next.if_none_match, Some(String::from("tag")));
    assert_eq!(next.if_modified_since, Some(String::from("date")));
    let resp = respond(next.stream(file(784111777, 11)));
    assert_eq!(resp.status, 200);
    match resp.body {
        Body::File { path, len } => {
            assert_eq!(path, "/srv/www/assets/index.html");
            assert_eq!(len, 11);
        }
        _ => panic!("the file was expected"),
    }
}

#[test]
fn index_that_is_a_directory_redirects() {
    let state = StaticFile::new("/srv/www");
    let next = match Responder::from(&state, "/", None, None).stream(directory()) {
        Outcome::Lookup(next) => next,
        Outcome::Respond(_) => panic!("a lookup was expected"),
    };
    assert_eq!(next.actual_path, "/index.html");
    let resp = respond(next.stream(directory()));
    assert_eq!(resp.status, 301);
    assert_eq!(headers(&resp), vec![pair("location", "/index.html/")]);
}

#[test]
fn file_is_served_with_validators_length_and_type() {
    let state = StaticFile::new("/srv/www");
    let resp = respond(Responder::from(&state, "/index.html", None, None).stream(file(784111777, 11)));
    assert_eq!(resp.status, 200);
    assert_eq!(
        headers(&resp),
        vec![
            pair("last-modified", "Sun, 06 Nov 1994 08:49:37 GMT"),
            pair("etag", "2ebc98a1-b"),
            pair("content-disposition", "inline; filename*=\"index%2Ehtml\""),
            pair("content-length", "11"),
            pair("content-type", "text/html"),
        ]
    );
    match resp.body {
        Body::File { path, len } => {
            assert_eq!(path, "/srv/www/index.html");
            assert_eq!(len, 11);
        }
        _ => panic!("the file was expected"),
    }
}

#[test]
fn other_types_are_attachments() {
    let state = StaticFile::new("/srv/www");
    let resp = respond(
        Responder::from(&state, "/docs/report%20v2.pdf", None, None).stream(file(0, 5)),
    );
    assert_eq!(resp.status, 200);
    assert_eq!(
        headers(&resp),
        vec![
            pair("last-modified", "Thu, 01 Jan 1970 00:00:00 GMT"),
            pair("etag", "0-5"),
            pair("content-disposition", "attachment; filename*=\"report%20v2%2Epdf\""),
            pair("content-length", "5"),
            pair("content-type", "application/pdf"),
        ]
    );
}

#[test]
fn name_is_encoded_byte_by_byte() {
    let state = StaticFile::new("/srv/www");
    let resp = respond(Responder::from(&state, "/caf%C3%A9_1.png", None, None).stream(file(1, 1)));
    assert_eq!(
        headers(&resp)[2],
        pair("content-disposition", "inline; filename*=\"caf%C3%A9%5F1%2Epng\"")
    );
    assert_eq!(headers(&resp)[4], pair("content-type", "image/png"));
}

#[test]
fn file_without_extension_is_an_octet_stream() {
    let state = StaticFile::new("/srv/www");
    let resp = respond(Responder::from(&state, "/LICENSE", None, None).stream(file(1, 1)));
    assert_eq!(
        headers(&resp)[2],
        pair("content-disposition", "attachment; filename*=\"LICENSE\"")
    );
    assert_eq!(headers(&resp)[4], pair("content-type", "application/octet-stream"));
}

#[test]
fn empty_file_has_no_body() {
    let state = StaticFile::new("/srv/www");
    let resp = respond(Responder::from(&state, "/empty.txt", None, None).stream(file(10, 0)));
    assert_eq!(resp.status, 200);
    assert_eq!(headers(&resp)[3], pair("content-length", "0"));
    assert!(matches!(resp.body, Body::Empty));
}

#[test]
fn if_none_match_with_the_current_etag_is_a_304() {
    let state = StaticFile::new("/srv/www");
    let tag = etag(784111777, 11);
    let resp = respond(
        Responder::from(&state, "/index.html", Some(tag.as_str()), None).stream(file(784111777, 11)),
    );
    assert_eq!(resp.status, 304);
    assert!(matches!(resp.body, Body::Empty));
    assert_eq!(
        headers(&resp),
        vec![
            pair("last-modified", "Sun, 06 Nov 1994 08:49:37 GMT"),
            pair("etag", "2ebc98a1-b"),
            pair("content-disposition", "inline; filename*=\"index%2Ehtml\""),
        ]
    );
}

#[test]
fn if_none_match_after_a_change_is_a_200() {
    let state = StaticFile::new("/srv/www");
    let tag = etag(784111777, 11);
    let grown = respond(
        Responder::from(&state, "/index.html", Some(tag.as_str()), None).stream(file(784111777, 12)),
    );
    assert_eq!(grown.status, 200);
    let touched = respond(
        Responder::from(&state, "/index.html", Some(tag.as_str()), None).stream(file(784111778, 11)),
    );
    assert_eq!(touched.status, 200);
    assert!(matches!(touched.body, Body::File { .. }));
}

#[test]
fn if_modified_since_with_the_same_second_is_a_304() {
    let state = StaticFile::new("/srv/www");
    let imf = respond(
        Responder::from(&state, "/a.txt", None, Some("Sun, 06 Nov 1994 08:49:37 GMT"))
            .stream(file(784111777, 11)),
    );
    assert_eq!(imf.status, 304);
    let rfc850 = respond(
        Responder::from(&state, "/a.txt", None, Some("Sunday, 06-Nov-94 08:49:37 GMT"))
            .stream(file(784111777, 11)),
    );
    assert_eq!(rfc850.status, 304);
    let asctime = respond(
        Responder::from(&state, "/a.txt", None, Some("Sun Nov  6 08:49:37 1994"))
            .stream(file(784111777, 11)),
    );
    assert_eq!(asctime.status, 304);
}

#[test]
fn if_modified_since_with_another_second_is_a_200() {
    let state = StaticFile::new("/srv/www");
    let later = respond(
        Responder::from(&state, "/a.txt", None, Some("Sun, 06 Nov 1994 08:49:38 GMT"))
            .stream(file(784111777, 11)),
    );
    assert_eq!(later.status, 200);
    let invalid = respond(
        Responder::from(&state, "/a.txt", None, Some("yesterday")).stream(file(784111777, 11)),
    );
    assert_eq!(invalid.status, 200);
    let wrong_day = respond(
        Responder::from(&state, "/a.txt", None, Some("Mon, 06 Nov 1994 08:49:37 GMT"))
            .stream(file(784111777, 11)),
    );
    assert_eq!(wrong_day.status, 200);
}

#[test]
fn if_none_match_overrides_if_modified_since() {
    let state = StaticFile::new("/srv/www");
    let resp = respond(
        Responder::from(&state, "/a.txt", Some("stale"), Some("Sun, 06 Nov 1994 08:49:37 GMT"))
            .stream(file(784111777, 11)),
    );
    assert_eq!(resp.status, 200);
}

#[test]
fn respond_with_takes_the_outside_results_as_given() {
    let meta = FileMeta { is_file: true, modified: 16, size: 32 };
    let hit = respond_with("/p", meta, "text/x", "DATE", Some("NAME"), Some(16), None);
    assert_eq!(hit.status, 304);
    assert_eq!(
        headers(&hit),
        vec![
            pair("last-modified", "DATE"),
            pair("etag", "10-20"),
            pair("content-disposition", "inline; filename*=\"NAME\""),
        ]
    );
    let miss = respond_with("/p", meta, "text/x", "DATE", None, Some(17), None);
    assert_eq!(miss.status, 200);
    assert_eq!(
        headers(&miss),
        vec![
            pair("last-modified", "DATE"),
            pair("etag", "10-20"),
            pair("content-disposition", "inline"),
            pair("content-length", "32"),
            pair("content-type", "text/x"),
        ]
    );
    let none = respond_with("/p", meta, "a/b", "DATE", None, None, None);
    assert_eq!(none.status, 200);
    let listed = respond_with("/p", meta, "a/b", "DATE", None, None, Some("x, 10-20"));
    assert_eq!(listed.status, 304);
}

#[test]
fn stream_using_meta_answers_for_a_file() {
    let state = StaticFile::new("/srv/www");
    let resp = Responder::from(&state, "/clip.mp4", None, None)
        .stream_using_meta(FileMeta { is_file: true, modified: 86400, size: 7 });
    assert_eq!(resp.status, 200);
    assert_eq!(
        headers(&resp),
        vec![
            pair("last-modified", "Fri, 02 Jan 1970 00:00:00 GMT"),
            pair("etag", "15180-7"),
            pair("content-disposition", "inline; filename*=\"clip%2Emp4\""),
            pair("content-length", "7"),
            pair("content-type", "video/mp4"),
        ]
    );
}
