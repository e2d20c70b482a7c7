use tors::errors::TrackerError;
use tors::remote::{category_label, effective_theme, interpret_response, ApiRequest, Method};

#[test]
fn get_theme_request_shape() {
    let r = ApiRequest::get_theme();
    assert_eq!(r.method, Method::Get);
    assert_eq!(r.path, "/theme");
    assert_eq!(r.body, None);
    assert_eq!(r.success_status, 200);
}

#[test]
fn change_theme_request_carries_the_new_name() {
    let r = ApiRequest::change_theme("Oasis").expect("a recognized theme");
    assert_eq!(r.method, Method::Post);
    assert_eq!(r.path, "/theme");
    assert_eq!(r.body.as_deref(), Some("{\"newTheme\":\"Oasis\"}"));
    assert_eq!(r.success_status, 200);
}

#[test]
fn change_theme_rejects_an_unrecognized_name() {
    let r = ApiRequest::change_theme("Midnight");
    assert!(matches!(r, Err(TrackerError::InvalidInput)));
}

#[test]
fn create_task_request_sends_a_placeholder_id() {
    let r = ApiRequest::create_task("Write report", "Quarterly summary", "2d");
    assert_eq!(r.method, Method::Post);
    assert_eq!(r.path, "/tasks");
    assert_eq!(
        r.body.as_deref(),
        Some(
            "{\"id\":0,\"name\":\"Write report\",\"description\":\"Quarterly summary\",\"eta\":\"2d\",\"category\":null}",
        ),
    );
    assert_eq!(r.success_status, 201);
}

#[test]
fn update_task_request_addresses_the_task_by_id() {
    let r = ApiRequest::update_task(17, "a", "b", "c");
    assert_eq!(r.method, Method::Put);
    assert_eq!(r.path, "/tasks/17");
    assert_eq!(
        r.body.as_deref(),
        Some("{\"id\":17,\"name\":\"a\",\"description\":\"b\",\"eta\":\"c\",\"category\":null}"),
    );
    assert_eq!(r.success_status, 200);
}

#[test]
fn delete_and_list_request_shapes() {
    let d = ApiRequest::delete_task(3);
    assert_eq!(d.method, Method::Delete);
    assert_eq!(d.path, "/tasks/3");
    assert_eq!(d.body, None);
    assert_eq!(d.success_status, 200);

    let l = ApiRequest::list_tasks();
    assert_eq!(l.method, Method::Get);
    assert_eq!(l.path, "/tasks");
    assert_eq!(l.success_status, 200);

    let lc = ApiRequest::list_categories();
    assert_eq!(lc.method, Method::Get);
    assert_eq!(lc.path, "/categories");
    assert_eq!(lc.success_status, 200);
}

#[test]
fn assign_category_request_shape() {
    let r = ApiRequest::assign_category(7, 3);
    assert_eq!(r.method, Method::Post);
    assert_eq!(r.path, "/tasks/7/assign-category");
    assert_eq!(r.body.as_deref(), Some("{\"categoryId\":3}"));
    assert_eq!(r.success_status, 200);
}

#[test]
fn category_request_shapes() {
    let c = ApiRequest::create_category("Work");
    assert_eq!(c.method, Method::Post);
    assert_eq!(c.path, "/categories");
    assert_eq!(c.body.as_deref(), Some("{\"id\":0,\"name\":\"Work\"}"));
    assert_eq!(c.success_status, 201);

    let g = ApiRequest::get_category(12);
    assert_eq!(g.method, Method::Get);
    assert_eq!(g.path, "/categories/12");
    assert_eq!(g.success_status, 200);

    let u = ApiRequest::update_category(12, "Office");
    assert_eq!(u.method, Method::Put);
    assert_eq!(u.path, "/categories/12");
    assert_eq!(u.body.as_deref(), Some("{\"id\":12,\"name\":\"Office\"}"));

    let d = ApiRequest::delete_category(12);
    assert_eq!(d.method, Method::Delete);
    assert_eq!(d.path, "/categories/12");
    assert_eq!(d.body, None);
}

#[test]
fn json_bodies_escape_special_characters() {
    let r = ApiRequest::create_task("say \"hi\"", "back\\slash", "line\nbreak\u{1}");
    assert_eq!(
        r.body.as_deref(),
        Some(
            "{\"id\":0,\"name\":\"say \\\"hi\\\"\",\"description\":\"back\\\\slash\",\"eta\":\"line\\nbreak\\u0001\",\"category\":null}",
        ),
    );
}

#[test]
fn the_expected_status_yields_the_body() {
    let r = interpret_response(200, Ok((200, "payload".to_string())));
    assert_eq!(r, Ok("payload".to_string()));
    let c = interpret_response(201, Ok((201, String::new())));
    assert_eq!(c, Ok(String::new()));
}

#[test]
fn an_unexpected_status_is_a_remote_failure_with_the_body() {
    let r = interpret_response(201, Ok((500, "boom".to_string())));
    assert_eq!(r, Err(TrackerError::RemoteFailure("boom".to_string())));
    let q = interpret_response(200, Ok((201, "almost".to_string())));
    assert_eq!(q, Err(TrackerError::RemoteFailure("almost".to_string())));
}

#[test]
fn a_transport_breakdown_carries_its_cause() {
    let r = interpret_response(200, Err("connection refused".to_string()));
    assert_eq!(r, Err(TrackerError::TransportError("connection refused".to_string())));
}

#[test]
fn effective_theme_prefers_the_reported_theme() {
    assert_eq!(effective_theme(Ok((200, Some("Snow".to_string())))), "Snow");
    assert_eq!(effective_theme(Ok((200, None))), "Default");
    assert_eq!(effective_theme(Ok((404, Some("Snow".to_string())))), "Default");
    assert_eq!(effective_theme(Err("timeout".to_string())), "Default");
}

#[test]
fn category_label_defaults_to_unknown() {
    assert_eq!(category_label(Ok((200, Some("Work".to_string())))), "Work");
    assert_eq!(category_label(Ok((200, None))), "Unknown");
    assert_eq!(category_label(Ok((404, Some("Work".to_string())))), "Unknown");
    assert_eq!(category_label(Err("timeout".to_string())), "Unknown");
}
