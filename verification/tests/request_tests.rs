use route_core::dispatch::{completion_to_response, DispatchOutcome};
use route_core::request::{
    file_target_name, DetachedRequestWrapper, FormField, SendError,
};
use route_core::response::JsResponse;

fn plain_request(
    path: &str,
    method: &str,
    query: &str,
    headers: Vec<(String, String)>,
    body: Option<Vec<u8>>,
    params: Vec<(String, String)>,
) -> (DetachedRequestWrapper, Vec<route_core::request::FileToWrite>) {
    DetachedRequestWrapper::new_detached(
        String::from(path),
        String::from(method),
        String::from(query),
        String::from(path),
        headers,
        body,
        params,
    )
}

#[test]
fn getters_serve_captured_state() {
    let headers = vec![
        (String::from("X-One"), String::from("1")),
        (String::from("x-one"), String::from("2")),
    ];
    let params = vec![(String::from("id"), String::from("42"))];
    let (req, writes) = plain_request("/users/42", "GET", "a=1", headers, None, params);
    assert!(writes.is_empty());
    assert_eq!(req.get_path(), "/users/42");
    assert_eq!(req.get_method(), "GET");
    assert_eq!(req.get_query_string(), "a=1");
    assert_eq!(req.get_uri(), "/users/42");
    // names are lowercased; the later pair wins lookups
    assert_eq!(req.get_header(String::from("x-one")), Some(String::from("2")));
    assert_eq!(req.get_header(String::from("absent")), None);
    assert_eq!(req.get_path_param(String::from("id")), Some(String::from("42")));
    assert_eq!(req.get_path_params()[0].1, "42");
    assert!(!req.has_body());
    assert_eq!(req.get_body_size(), 0);
    assert_eq!(req.get_body_string(), "");
    // repeated reads agree
    assert_eq!(req.get_path(), req.get_path());
    assert_eq!(req.get_headers(), req.get_headers());
}

#[test]
fn query_params_are_decoded() {
    let (req, _) = plain_request("/q", "GET", "a=1&b=%20x&plus=a+b&noval", vec![], None, vec![]);
    let ps = req.get_query_params();
    assert_eq!(ps.len(), 3);
    assert_eq!(ps[0], (String::from("a"), String::from("1")));
    assert_eq!(ps[1], (String::from("b"), String::from(" x")));
    assert_eq!(ps[2], (String::from("plus"), String::from("a b")));
}

#[test]
fn json_body_is_parsed_once_at_construction() {
    let headers = vec![(String::from("Content-Type"), String::from("application/json"))];
    let (req, _) = plain_request(
        "/j",
        "POST",
        "",
        headers,
        Some(b"{\"x\":1}".to_vec()),
        vec![],
    );
    assert!(req.get_body_json().is_some());
    assert!(req.has_body());
    assert_eq!(req.get_body_size(), 7);
    assert_eq!(req.get_body_string(), "{\"x\":1}");

    // without the JSON content type nothing is parsed
    let (req2, _) = plain_request("/j", "POST", "", vec![], Some(b"{\"x\":1}".to_vec()), vec![]);
    assert!(req2.get_body_json().is_none());

    // an unparsable body yields no value
    let headers3 = vec![(String::from("Content-Type"), String::from("application/json"))];
    let (req3, _) = plain_request("/j", "POST", "", headers3, Some(b"{oops".to_vec()), vec![]);
    assert!(req3.get_body_json().is_none());
}

#[test]
fn urlencoded_form_becomes_text_fields() {
    let headers = vec![(
        String::from("Content-Type"),
        String::from("application/x-www-form-urlencoded"),
    )];
    let (req, writes) = plain_request(
        "/f",
        "POST",
        "",
        headers,
        Some(b"name=alice&age=30".to_vec()),
        vec![],
    );
    assert!(writes.is_empty());
    let form = req.get_form_data_async();
    assert_eq!(form.len(), 2);
    assert_eq!(form[0].0, "name");
    match &form[0].1 {
        FormField::Text(t) => assert_eq!(t, "alice"),
        FormField::File(_) => panic!("expected a text field"),
    }
    match req.get_form_value_async(String::from("age")) {
        Some(FormField::Text(t)) => assert_eq!(t, "30"),
        _ => panic!("expected a text field"),
    }
}

#[test]
fn multipart_upload_yields_descriptor_and_pending_write() {
    let body = b"--X\r\nContent-Disposition: form-data; name=\"name\"\r\n\r\nalice\r\n--X\r\nContent-Disposition: form-data; name=\"avatar\"; filename=\"a.png\"\r\nContent-Type: image/png\r\n\r\nhello\r\n--X--\r\n".to_vec();
    let headers = vec![(
        String::from("Content-Type"),
        String::from("multipart/form-data; boundary=X"),
    )];
    let (mut req, writes) = plain_request("/up", "POST", "", headers, Some(body), vec![]);
    let form = req.get_form_data_async();
    assert_eq!(form.len(), 2);
    assert_eq!(form[0].0, "name");
    match &form[0].1 {
        FormField::Text(t) => assert_eq!(t, "alice"),
        FormField::File(_) => panic!("expected a text field"),
    }
    assert_eq!(form[1].0, "avatar");
    let info = match &form[1].1 {
        FormField::File(info) => info,
        FormField::Text(_) => panic!("expected a file field"),
    };
    assert_eq!(info.kind, "file");
    assert_eq!(info.original_name, "a.png");
    assert_eq!(info.content_type.as_deref(), Some("image/png"));
    assert_eq!(info.size, 5);
    assert!(info.filename.ends_with(".png"));
    assert_eq!(info.path, format!("static/{}", info.filename));
    // the embedder persists exactly this file
    assert_eq!(writes.len(), 1);
    assert_eq!(writes[0].path, info.path);
    assert_eq!(writes[0].contents, b"hello".to_vec());
    // a failed write drops the field and leaves the rest
    req.drop_form_field("avatar");
    let form2 = req.get_form_data_async();
    assert_eq!(form2.len(), 1);
    assert_eq!(form2[0].0, "name");
}

#[test]
fn multipart_accepts_bare_newlines() {
    let body =
        b"--X\nContent-Disposition: form-data; name=\"k\"\n\nv\n--X--\n".to_vec();
    let headers = vec![(
        String::from("Content-Type"),
        String::from("multipart/form-data; boundary=\"X\""),
    )];
    let (req, _) = plain_request("/up", "POST", "", headers, Some(body), vec![]);
    match req.get_form_value_async(String::from("k")) {
        Some(FormField::Text(t)) => assert_eq!(t, "v"),
        _ => panic!("expected a text field"),
    }
}

#[test]
fn file_names_keep_extensions() {
    assert_eq!(
        file_target_name("a.png", "tok"),
        (String::from("tok.png"), String::from("static/tok.png"))
    );
    assert_eq!(
        file_target_name("archive.tar.gz", "tok"),
        (String::from("tok.gz"), String::from("static/tok.gz"))
    );
    assert_eq!(file_target_name("noext", "tok"), (String::from("tok"), String::from("static/tok")));
    assert_eq!(
        file_target_name(".bashrc", "tok"),
        (String::from("tok"), String::from("static/tok"))
    );
    assert_eq!(
        file_target_name("dot.", "tok"),
        (String::from("tok"), String::from("static/tok"))
    );
}

#[test]
fn first_send_wins_second_fails() {
    let (mut req, _) = plain_request("/s", "GET", "", vec![], None, vec![]);
    let (tx, mut rx) = tokio::sync::oneshot::channel::<JsResponse>();
    req.set_response_sender(tx);
    assert!(req.send_text_async(String::from("a")).is_ok());
    assert_eq!(req.send_json_async(String::from("{}")), Err(SendError::AlreadySent));
    let record = rx.try_recv().expect("the first send must deliver");
    let http = completion_to_response(DispatchOutcome::Completed(record));
    assert_eq!(http.status, 200);
    assert_eq!(http.content_type, "text/plain; charset=utf-8");
    assert_eq!(http.body, b"a".to_vec());
}

#[test]
fn json_send_and_status_override() {
    let (mut req, _) = plain_request("/s", "GET", "", vec![], None, vec![]);
    let (tx, mut rx) = tokio::sync::oneshot::channel::<JsResponse>();
    req.set_response_sender(tx);
    assert!(req.set_status_code_async(201));
    assert!(!req.set_status_code_async(99));
    assert!(!req.set_status_code_async(1000));
    req.add_header_async(String::from("X-Trace"), String::from("abc"));
    req.add_header_async(String::from("Bad Name"), String::from("v"));
    req.add_header_async(String::from("X-Ctl"), String::from("a\x01b"));
    assert!(req.send_json_async(String::from("{\"id\":\"42\"}")).is_ok());
    // header additions and status changes after the send are no-ops
    assert!(!req.set_status_code_async(500));
    req.add_header_async(String::from("X-Late"), String::from("z"));
    let record = rx.try_recv().unwrap();
    let http = completion_to_response(DispatchOutcome::Completed(record));
    assert_eq!(http.status, 201);
    assert_eq!(http.content_type, "application/json; charset=utf-8");
    assert_eq!(http.body, b"{\"id\":\"42\"}".to_vec());
    // the malformed pairs were skipped, the good one kept, in order
    assert_eq!(http.headers, vec![(String::from("X-Trace"), String::from("abc"))]);
}

#[test]
fn object_send_serializes() {
    let (mut req, _) = plain_request("/s", "GET", "", vec![], None, vec![]);
    let (tx, mut rx) = tokio::sync::oneshot::channel::<JsResponse>();
    req.set_response_sender(tx);
    let obj = serde_json::from_str::<serde_json::Value>("{\"a\":1}").unwrap();
    assert!(req.send_object_async(obj).is_ok());
    let record = rx.try_recv().unwrap();
    let http = completion_to_response(DispatchOutcome::Completed(record));
    assert_eq!(http.content_type, "application/json; charset=utf-8");
    assert_eq!(http.body, b"{\"a\":1}".to_vec());
}

#[test]
fn error_sends_render_500() {
    let (mut req, _) = plain_request("/s", "GET", "", vec![], None, vec![]);
    let (tx, mut rx) = tokio::sync::oneshot::channel::<JsResponse>();
    req.set_response_sender(tx);
    assert!(req.send_error_async(Some(String::from("boom"))).is_ok());
    let record = rx.try_recv().unwrap();
    let http = completion_to_response(DispatchOutcome::Completed(record));
    assert_eq!(http.status, 500);
    assert_eq!(http.content_type, "text/plain");
    assert_eq!(http.body, b"boom".to_vec());

    let (mut req2, _) = plain_request("/s", "GET", "", vec![], None, vec![]);
    let (tx2, mut rx2) = tokio::sync::oneshot::channel::<JsResponse>();
    req2.set_response_sender(tx2);
    assert!(req2.send_error_async(None).is_ok());
    let record2 = rx2.try_recv().unwrap();
    let http2 = completion_to_response(DispatchOutcome::Completed(record2));
    assert_eq!(http2.status, 500);
    assert_eq!(http2.body, b"Internal Server Error".to_vec());
}

#[test]
fn empty_send_renders_empty_text() {
    let (mut req, _) = plain_request("/s", "GET", "", vec![], None, vec![]);
    let (tx, mut rx) = tokio::sync::oneshot::channel::<JsResponse>();
    req.set_response_sender(tx);
    assert!(req.send_empty_async().is_ok());
    let record = rx.try_recv().unwrap();
    let http = completion_to_response(DispatchOutcome::Completed(record));
    assert_eq!(http.status, 200);
    assert_eq!(http.content_type, "text/plain; charset=utf-8");
    assert!(http.body.is_empty());
}

#[test]
fn send_without_receiver_still_marks_sent() {
    let (mut req, _) = plain_request("/s", "GET", "", vec![], None, vec![]);
    // no sender attached at all: the send still succeeds once
    assert!(req.send_text_async(String::from("x")).is_ok());
    assert_eq!(req.send_text_async(String::from("y")), Err(SendError::AlreadySent));
}

#[test]
fn multipart_prefers_body_boundary() {
    // the header names the wrong boundary; the body's first line wins
    let body =
        b"--X\r\nContent-Disposition: form-data; name=\"k\"\r\n\r\nv\r\n--X--\r\n".to_vec();
    let headers = vec![(
        String::from("Content-Type"),
        String::from("multipart/form-data; boundary=WRONG"),
    )];
    let (req, _) = plain_request("/up", "POST", "", headers, Some(body), vec![]);
    match req.get_form_value_async(String::from("k")) {
        Some(FormField::Text(t)) => assert_eq!(t, "v"),
        _ => panic!("expected a text field"),
    }
}

#[test]
fn percent_decoding_tolerates_bad_escapes() {
    let (req, _) = plain_request("/q", "GET", "a=%zz&b=%4", vec![], None, vec![]);
    let ps = req.get_query_params();
    assert_eq!(ps[0], (String::from("a"), String::from("%zz")));
    assert_eq!(ps[1], (String::from("b"), String::from("%4")));
}

#[test]
fn error_responses_keep_custom_headers() {
    let (mut req, _) = plain_request("/s", "GET", "", vec![], None, vec![]);
    let (tx, mut rx) = tokio::sync::oneshot::channel::<JsResponse>();
    req.set_response_sender(tx);
    req.add_header_async(String::from("X-Trace"), String::from("abc"));
    req.add_header_async(String::from("X-Ctl"), String::from("a\x01b"));
    assert!(req.send_error_async(Some(String::from("boom"))).is_ok());
    let record = rx.try_recv().unwrap();
    let http = completion_to_response(DispatchOutcome::Completed(record));
    assert_eq!(http.status, 500);
    assert_eq!(http.body, b"boom".to_vec());
    // the well-formed custom header survives on the error response too
    assert_eq!(http.headers, vec![(String::from("X-Trace"), String::from("abc"))]);
}

#[test]
fn body_bytes_are_served_verbatim() {
    let (req, _) = plain_request("/b", "POST", "", vec![], Some(vec![0, 159, 255, 7]), vec![]);
    assert_eq!(req.get_body_bytes(), Some(vec![0, 159, 255, 7]));
    let (req2, _) = plain_request("/b", "GET", "", vec![], None, vec![]);
    assert_eq!(req2.get_body_bytes(), None);
}
