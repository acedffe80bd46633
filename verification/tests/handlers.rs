use ofuton::dispatch::{
    classify_operation, multipart_state_manager, parse_req_params, query_param, read_handler,
    split_bucket_key, strip_query, write_handler, AppError, MultipartUploadState, OperationType,
    S3CompleteMultipartUploadResult, S3InitiateMultipartUploadResult,
};
use ofuton::storage::Storage;

fn no_multipart() -> MultipartUploadState {
    MultipartUploadState { is_registered: false, upload_id: None, part_number: None }
}

fn header_value<'a>(headers: &'a [(String, String)], name: &str) -> Option<&'a str> {
    headers
        .iter()
        .find(|(k, _)| k.eq_ignore_ascii_case(name))
        .map(|(_, v)| v.as_str())
}

#[test]
fn classification_table() {
    assert!(matches!(classify_operation("PUT", false), OperationType::PutObject));
    assert!(matches!(classify_operation("PUT", true), OperationType::UploadPart));
    assert!(matches!(
        classify_operation("POST", false),
        OperationType::CreateMultipartUpload
    ));
    assert!(matches!(
        classify_operation("POST", true),
        OperationType::CompleteMultipartUpload
    ));
    assert!(matches!(classify_operation("DELETE", false), OperationType::DeleteObject));
    assert!(matches!(
        classify_operation("DELETE", true),
        OperationType::AbortMultipartUpload
    ));
    assert!(matches!(classify_operation("GET", false), OperationType::Unknown));
    assert!(matches!(classify_operation("put", false), OperationType::Unknown));
}

#[test]
fn empty_path_is_bad_request_on_both_sides() {
    let mut st = Storage::new();
    let w = write_handler(&mut st, "PUT", "", "", no_multipart(), &vec![], b"x".to_vec());
    assert_eq!(w.status, 400);
    assert!(w.body.is_empty());
    let r = read_handler(&st, false, "");
    assert_eq!(r.status, 400);
    assert!(r.body.is_empty());
}

#[test]
fn unknown_method_is_bad_request() {
    let mut st = Storage::new();
    let w = write_handler(&mut st, "PATCH", "/a", "/a", no_multipart(), &vec![], Vec::new());
    assert_eq!(w.status, 400);
    assert_eq!(w.body, b"unknown operation".to_vec());
}

#[test]
fn put_then_get_through_the_handlers() {
    let mut st = Storage::new();
    let headers = vec![
        ("Content-Type".to_string(), "text/plain".to_string()),
        ("Content-Length".to_string(), "5".to_string()),
        (
            "Content-Disposition".to_string(),
            "attachment; filename=\"b.txt\"".to_string(),
        ),
    ];
    let put = write_handler(
        &mut st,
        "PUT",
        "/a/b.txt",
        "/a/b.txt",
        no_multipart(),
        &headers,
        b"hello".to_vec(),
    );
    assert_eq!(put.status, 201);

    let got = read_handler(&st, false, "/a/b.txt");
    assert_eq!(got.status, 200);
    assert_eq!(got.body, b"hello".to_vec());
    let expected_etag = format!("\"{}\"", blake3::hash(b"/a/b.txt").to_hex());
    assert_eq!(header_value(&got.headers, "ETag"), Some(expected_etag.as_str()));
    assert_eq!(header_value(&got.headers, "Content-Type"), Some("text/plain"));
    assert_eq!(
        header_value(&got.headers, "Cache-Control"),
        Some("max-age=31536000, immutable")
    );
    assert_eq!(header_value(&got.headers, "Accept-Ranges"), Some("bytes"));
    assert_eq!(
        header_value(&got.headers, "Content-Disposition"),
        Some("inline; filename=\"b.txt\"")
    );
}

#[test]
fn head_has_length_and_no_body() {
    let mut st = Storage::new();
    let headers = vec![("Content-Length".to_string(), "5".to_string())];
    write_handler(
        &mut st,
        "PUT",
        "/a/b.txt",
        "/a/b.txt",
        no_multipart(),
        &headers,
        b"hello".to_vec(),
    );
    let head = read_handler(&st, true, "/a/b.txt");
    assert_eq!(head.status, 200);
    assert!(head.body.is_empty());
    assert_eq!(header_value(&head.headers, "Content-Length"), Some("5"));
}

#[test]
fn read_missing_object_is_not_found() {
    let st = Storage::new();
    let r = read_handler(&st, false, "/missing");
    assert_eq!(r.status, 404);
    assert_eq!(r.body, b"Object not found".to_vec());
}

#[test]
fn duplicate_put_is_an_internal_error() {
    let mut st = Storage::new();
    let headers = vec![];
    let first = write_handler(
        &mut st,
        "PUT",
        "/dup",
        "/dup",
        no_multipart(),
        &headers,
        b"x".to_vec(),
    );
    assert_eq!(first.status, 201);
    let second = write_handler(
        &mut st,
        "PUT",
        "/dup",
        "/dup",
        no_multipart(),
        &headers,
        b"y".to_vec(),
    );
    assert_eq!(second.status, 500);
    assert!(String::from_utf8(second.body)
        .unwrap()
        .starts_with("Internal Server Error (RequestID: "));
}

#[test]
fn multipart_lifecycle_through_the_handlers() {
    let mut st = Storage::new();

    // Initiate: a 200 XML answer carrying the upload ID.
    let init = write_handler(
        &mut st,
        "POST",
        "/a/c.bin",
        "/a/c.bin",
        no_multipart(),
        &vec![],
        Vec::new(),
    );
    assert_eq!(init.status, 200);
    assert_eq!(header_value(&init.headers, "Content-Type"), Some("application/xml"));
    let xml = String::from_utf8(init.body).unwrap();
    assert!(xml.starts_with("<InitiateMultipartUploadResult>"));
    assert!(xml.contains("<Bucket></Bucket>"));
    assert!(xml.contains("<Key>a/c.bin</Key>"));
    let start = xml.find("<UploadId>").unwrap() + "<UploadId>".len();
    let end = xml.find("</UploadId>").unwrap();
    let upload_id = xml[start..end].to_string();
    assert_eq!(upload_id.len(), 36);

    // Two parts under the session.
    let params = parse_req_params(&format!("uploadId={}&partNumber=1", upload_id));
    let state = multipart_state_manager(params, &st.sessions);
    assert!(state.is_registered);
    let p1 = write_handler(
        &mut st,
        "PUT",
        "/a/c.bin?uploadId=x",
        "/a/c.bin",
        state,
        &vec![],
        b"AAA".to_vec(),
    );
    assert_eq!(p1.status, 200);
    assert!(p1.body.is_empty());
    let etag = header_value(&p1.headers, "ETag").unwrap();
    assert_eq!(etag.len(), 36);

    let params = parse_req_params(&format!("uploadId={}&partNumber=2", upload_id));
    let state = multipart_state_manager(params, &st.sessions);
    let p2 = write_handler(
        &mut st,
        "PUT",
        "/a/c.bin?uploadId=x",
        "/a/c.bin",
        state,
        &vec![],
        b"BBB".to_vec(),
    );
    assert_eq!(p2.status, 200);

    // Complete: a 200 XML answer, and the object readable afterwards.
    let params = parse_req_params(&format!("uploadId={}", upload_id));
    let state = multipart_state_manager(params, &st.sessions);
    let done = write_handler(
        &mut st,
        "POST",
        &format!("/a/c.bin?uploadId={}", upload_id),
        "/a/c.bin",
        state,
        &vec![],
        Vec::new(),
    );
    assert_eq!(done.status, 200);
    let xml = String::from_utf8(done.body).unwrap();
    assert!(xml.starts_with("<CompleteMultipartUploadResult>"));
    assert!(xml.contains("<Location>/a/c.bin</Location>"));

    let got = read_handler(&st, false, "/a/c.bin");
    assert_eq!(got.status, 200);
    assert_eq!(got.body, b"AAABBB".to_vec());
}

#[test]
fn upload_part_without_number_is_bad_request() {
    let mut st = Storage::new();
    let id = st.create_multipart_upload("/x".to_string(), None, None, "t".to_string());
    let state = MultipartUploadState {
        is_registered: true,
        upload_id: Some(id),
        part_number: None,
    };
    let r = write_handler(&mut st, "PUT", "/x", "/x", state, &vec![], b"A".to_vec());
    assert_eq!(r.status, 400);
    assert_eq!(r.body, b"Missing uploadId or partNumber".to_vec());
}

#[test]
fn upload_part_on_unregistered_id_is_bad_request() {
    let mut st = Storage::new();
    let state = MultipartUploadState {
        is_registered: false,
        upload_id: Some("dead-id".to_string()),
        part_number: Some(1),
    };
    let r = write_handler(&mut st, "PUT", "/x", "/x", state, &vec![], b"A".to_vec());
    assert_eq!(r.status, 400);
}

#[test]
fn abort_through_the_handler_removes_artifacts() {
    let mut st = Storage::new();
    let id = st.create_multipart_upload("/a/c.bin".to_string(), None, None, "t".to_string());
    st.upload_part(&id, 1, b"AAA".to_vec()).unwrap();
    st.upload_part(&id, 2, b"BBB".to_vec()).unwrap();
    let params = parse_req_params(&format!("uploadId={}", id));
    let state = multipart_state_manager(params, &st.sessions);
    let r = write_handler(
        &mut st,
        "DELETE",
        &format!("/a/c.bin?uploadId={}", id),
        "/a/c.bin",
        state,
        &vec![],
        Vec::new(),
    );
    assert_eq!(r.status, 204);
    assert!(!st.sessions.contains(&id));
    assert!(!st.blobs.has_multipart_dir(&id));
}

#[test]
fn delete_through_the_handler() {
    let mut st = Storage::new();
    write_handler(
        &mut st,
        "PUT",
        "/gone",
        "/gone",
        no_multipart(),
        &vec![],
        b"x".to_vec(),
    );
    let del = write_handler(
        &mut st,
        "DELETE",
        "/gone",
        "/gone",
        no_multipart(),
        &vec![],
        Vec::new(),
    );
    assert_eq!(del.status, 204);
    assert_eq!(read_handler(&st, false, "/gone").status, 404);
    // Deleting again reports the internal failure.
    let again = write_handler(
        &mut st,
        "DELETE",
        "/gone",
        "/gone",
        no_multipart(),
        &vec![],
        Vec::new(),
    );
    assert_eq!(again.status, 500);
}

#[test]
fn rfc5987_names_survive_upload_and_download() {
    let mut st = Storage::new();
    let headers = vec![(
        "Content-Disposition".to_string(),
        "attachment; filename=\"\u{65e5}\u{672c}\u{8a9e}.txt\"; filename*=utf-8''%E6%97%A5%E6%9C%AC%E8%AA%9E.txt"
            .to_string(),
    )];
    let put = write_handler(
        &mut st,
        "PUT",
        "/n.txt",
        "/n.txt",
        no_multipart(),
        &headers,
        b"x".to_vec(),
    );
    assert_eq!(put.status, 201);
    let got = read_handler(&st, false, "/n.txt");
    let disposition = header_value(&got.headers, "Content-Disposition").unwrap();
    assert!(disposition.contains("filename=\"\u{65e5}\u{672c}\u{8a9e}.txt\""));
    assert!(disposition.contains("filename*=utf-8''%E6%97%A5%E6%9C%AC%E8%AA%9E.txt"));
}

#[test]
fn default_media_type_and_size() {
    let mut st = Storage::new();
    let put = write_handler(
        &mut st,
        "PUT",
        "/plain",
        "/plain",
        no_multipart(),
        &vec![],
        b"zz".to_vec(),
    );
    assert_eq!(put.status, 201);
    let got = read_handler(&st, true, "/plain");
    assert_eq!(
        header_value(&got.headers, "Content-Type"),
        Some("application/octet-stream")
    );
    // No Content-Length header came with the put, so the asserted size is 0.
    assert_eq!(header_value(&got.headers, "Content-Length"), Some("0"));
    assert_eq!(
        header_value(&got.headers, "Content-Disposition"),
        Some("inline; filename=\"unknown\"")
    );
}

#[test]
fn query_parameters_take_the_last_occurrence() {
    assert_eq!(query_param("a=1&a=2", "a").as_deref(), Some("2"));
    assert_eq!(query_param("a=x%20y", "a").as_deref(), Some("x y"));
    assert_eq!(query_param("b=1", "a"), None);
    let params = parse_req_params("uploadId=u-1&partNumber=7");
    assert_eq!(params.upload_id.as_deref(), Some("u-1"));
    assert_eq!(params.part_number, Some(7));
    let bad = parse_req_params("partNumber=notanumber");
    assert_eq!(bad.part_number, None);
    let too_big = parse_req_params("partNumber=70000");
    assert_eq!(too_big.part_number, None);
}

#[test]
fn multipart_state_reflects_the_registry() {
    let mut st = Storage::new();
    let id = st.create_multipart_upload("/s".to_string(), None, None, "t".to_string());
    let live = multipart_state_manager(
        parse_req_params(&format!("uploadId={}", id)),
        &st.sessions,
    );
    assert!(live.is_registered);
    let dead = multipart_state_manager(parse_req_params("uploadId=unknown"), &st.sessions);
    assert!(!dead.is_registered);
    let none = multipart_state_manager(parse_req_params(""), &st.sessions);
    assert!(!none.is_registered);
    assert_eq!(none.upload_id, None);
}

#[test]
fn xml_bodies_have_the_s3_shape() {
    let init = S3InitiateMultipartUploadResult {
        bucket: "b".to_string(),
        key: "k&k".to_string(),
        upload_id: "u".to_string(),
    };
    assert_eq!(
        init.to_xml(),
        "<InitiateMultipartUploadResult><Bucket>b</Bucket><Key>k&amp;k</Key><UploadId>u</UploadId></InitiateMultipartUploadResult>"
    );
    let done = S3CompleteMultipartUploadResult {
        location: "/a/c.bin".to_string(),
        bucket: String::new(),
        key: "a/c.bin".to_string(),
        e_tag: "e".to_string(),
    };
    assert_eq!(
        done.to_xml(),
        "<CompleteMultipartUploadResult><Location>/a/c.bin</Location><Bucket></Bucket><Key>a/c.bin</Key><ETag>e</ETag></CompleteMultipartUploadResult>"
    );
}

#[test]
fn bucket_key_and_location_helpers() {
    assert_eq!(split_bucket_key("/a/b.txt"), (String::new(), "a/b.txt".to_string()));
    assert_eq!(split_bucket_key("nodash"), (String::new(), "nodash".to_string()));
    assert_eq!(strip_query("/a/c.bin?uploadId=u"), "/a/c.bin");
    assert_eq!(strip_query("/a/c.bin"), "/a/c.bin");
}

#[test]
fn app_error_body_carries_its_request_id() {
    let err = AppError::new("boom".to_string());
    assert_eq!(err.request_id.len(), 36);
    assert_eq!(
        err.response_body(),
        format!("Internal Server Error (RequestID: {})", err.request_id)
    );
}
