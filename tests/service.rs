use microservice::{dispatch, handle, join_ids, Action, Body, Method, RecordStore, Status, UserData};

fn text(b: &Body) -> String {
    match b {
        Body::Text(t) => String::from_utf8(t.clone()).unwrap(),
        other => panic!("expected text, got {:?}", other),
    }
}

#[test]
fn get_unknown_user_on_empty_store() {
    let mut s = RecordStore::new();
    let r = handle(&mut s, Method::Get, b"/user/5");
    assert_eq!(r.status, Status::NotFound);
    assert!(matches!(r.body, Body::Empty));
}

#[test]
fn post_with_id_is_bad_request() {
    let mut s = RecordStore::new();
    let r = handle(&mut s, Method::Post, b"/user/3");
    assert_eq!(r.status, Status::BadRequest);
    assert_eq!(r.status.code(), 400);
    assert!(s.list_ids().is_empty());
}

#[test]
fn put_before_any_insert_is_not_found() {
    let mut s = RecordStore::new();
    let r = handle(&mut s, Method::Put, b"/user/0");
    assert_eq!(r.status, Status::NotFound);
    assert_eq!(r.status.code(), 404);
}

#[test]
fn delete_twice_then_not_found() {
    let mut s = RecordStore::new();
    let created = handle(&mut s, Method::Post, b"/user/");
    assert_eq!(text(&created.body), "0");
    let first = handle(&mut s, Method::Delete, b"/user/0");
    assert_eq!(first.status.code(), 200);
    let second = handle(&mut s, Method::Delete, b"/user/0");
    assert_eq!(second.status.code(), 404);
}

#[test]
fn patch_on_collection_is_method_not_allowed() {
    let mut s = RecordStore::new();
    let r = handle(&mut s, Method::from_name(b"PATCH"), b"/users");
    assert_eq!(r.status, Status::MethodNotAllowed);
    assert_eq!(r.status.code(), 405);
}

#[test]
fn crud_round_through_handler() {
    let mut s = RecordStore::new();
    assert_eq!(text(&handle(&mut s, Method::Post, b"/user/").body), "0");
    assert_eq!(text(&handle(&mut s, Method::Post, b"/user/").body), "1");
    assert_eq!(text(&handle(&mut s, Method::Post, b"/user/").body), "2");
    let got = handle(&mut s, Method::Get, b"/user/1/");
    assert_eq!(got.status, Status::Success);
    assert_eq!(text(&got.body), "{}");
    assert_eq!(handle(&mut s, Method::Put, b"/user/1").status, Status::Success);
    assert_eq!(handle(&mut s, Method::Delete, b"/user/1").status, Status::Success);
    assert_eq!(text(&handle(&mut s, Method::Get, b"/users").body), "0,2");
    assert_eq!(text(&handle(&mut s, Method::Post, b"/user/").body), "1");
    assert_eq!(text(&handle(&mut s, Method::Get, b"/users/").body), "0,1,2");
}

#[test]
fn empty_collection_lists_nothing() {
    let mut s = RecordStore::new();
    let r = handle(&mut s, Method::Get, b"/users");
    assert_eq!(r.status, Status::Success);
    assert_eq!(text(&r.body), "");
}

#[test]
fn index_only_for_get() {
    let mut s = RecordStore::new();
    let r = handle(&mut s, Method::Get, b"/index.html");
    assert_eq!(r.status, Status::Success);
    assert!(matches!(r.body, Body::Landing));
    let r = handle(&mut s, Method::Delete, b"/");
    assert_eq!(r.status, Status::MethodNotAllowed);
    assert!(matches!(r.body, Body::Empty));
}

#[test]
fn item_without_id_is_not_found_except_post() {
    let mut s = RecordStore::new();
    assert_eq!(handle(&mut s, Method::Get, b"/user/").status, Status::NotFound);
    assert_eq!(handle(&mut s, Method::Put, b"/user/").status, Status::NotFound);
    assert_eq!(handle(&mut s, Method::Delete, b"/user/").status, Status::NotFound);
    assert_eq!(handle(&mut s, Method::Other, b"/user/").status, Status::MethodNotAllowed);
    assert_eq!(handle(&mut s, Method::Other, b"/user/3").status, Status::MethodNotAllowed);
    assert!(s.list_ids().is_empty());
}

#[test]
fn unknown_path_is_not_found_for_every_verb() {
    let mut s = RecordStore::new();
    for m in [Method::Get, Method::Put, Method::Post, Method::Delete, Method::Other] {
        let r = handle(&mut s, m, b"/nowhere");
        assert_eq!(r.status, Status::NotFound);
        assert!(matches!(r.body, Body::Empty));
    }
    assert_eq!(dispatch(&mut s, Action::Unrecognized).status, Status::NotFound);
}

#[test]
fn oversized_id_on_post_creates_record() {
    let mut s = RecordStore::new();
    let p = format!("/user/{}9", usize::MAX);
    let r = handle(&mut s, Method::Post, p.as_bytes());
    assert_eq!(r.status, Status::Success);
    assert_eq!(text(&r.body), "0");
}

#[test]
fn status_codes() {
    assert_eq!(Status::Success.code(), 200);
    assert_eq!(Status::BadRequest.code(), 400);
    assert_eq!(Status::NotFound.code(), 404);
    assert_eq!(Status::MethodNotAllowed.code(), 405);
}

#[test]
fn joined_ids_are_decimal_and_comma_separated() {
    assert_eq!(join_ids(&vec![]), b"".to_vec());
    assert_eq!(join_ids(&vec![7]), b"7".to_vec());
    assert_eq!(join_ids(&vec![0, 10, 305]), b"0,10,305".to_vec());
    assert_eq!(join_ids(&vec![usize::MAX]), usize::MAX.to_string().into_bytes());
}

#[test]
fn user_renders_as_empty_object() {
    assert_eq!(UserData.render(), b"{}".to_vec());
}
