use private_server::custom::CustomPage;
use private_server::responder::Body;

fn bytes(body: Body) -> Vec<u8> {
    match body {
        Body::Bytes(b) => b,
        _ => panic!("the body was expected"),
    }
}

#[test]
fn client_errors_get_the_first_page() {
    let r = CustomPage.catch(Some(404), &b"four".to_vec(), &b"five".to_vec()).unwrap();
    assert_eq!(r.status, 404);
    assert_eq!(r.headers.len(), 1);
    assert_eq!(r.headers[0].name, "content-type");
    assert_eq!(r.headers[0].value, "text/html; charset=utf-8");
    assert_eq!(bytes(r.body), b"four".to_vec());
    assert_eq!(CustomPage.catch(Some(400), &vec![1], &vec![2]).unwrap().status, 400);
    assert_eq!(bytes(CustomPage.catch(Some(499), &vec![1], &vec![2]).unwrap().body), vec![1]);
}

#[test]
fn server_errors_get_the_second_page() {
    let r = CustomPage.catch(Some(500), &b"four".to_vec(), &b"five".to_vec()).unwrap();
    assert_eq!(r.status, 500);
    assert_eq!(bytes(r.body), b"five".to_vec());
    assert_eq!(bytes(CustomPage.catch(Some(599), &vec![1], &vec![2]).unwrap().body), vec![2]);
}

#[test]
fn anything_else_is_passed_on() {
    assert!(CustomPage.catch(None, &vec![1], &vec![2]).is_none());
    assert!(CustomPage.catch(Some(200), &vec![1], &vec![2]).is_none());
    assert!(CustomPage.catch(Some(301), &vec![1], &vec![2]).is_none());
    assert!(CustomPage.catch(Some(399), &vec![1], &vec![2]).is_none());
    assert!(CustomPage.catch(Some(600), &vec![1], &vec![2]).is_none());
}
