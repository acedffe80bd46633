//! The S3 operation dispatcher and the read/write request handlers.
//!
//! A write request is classified purely from its method and whether the
//! query carried an `uploadId`; each operation then runs against the storage
//! engine and produces a status, headers and body. Reads serve the object's
//! row and bytes with the immutable-cache headers; a `HEAD` answer carries a
//! `Content-Length` and never a body.

use vstd::prelude::*;

verus! {

use crate::storage::{Storage, WriteObjectData, spec_put_row, spec_get_object};
use crate::metadata::{ObjectRecordV, spec_meta_lookup};
use crate::blob::{spec_file_lookup, spec_dir_lookup, spec_part_lookup, lemma_part_push_found};
use crate::registry::{SessionRegistry, spec_session_lookup};
use crate::disposition::{parse_content_disposition, build_content_disposition_filename,
    spec_parse_filename, spec_parse_encoded, spec_build_cd};
use crate::sigv4::{pair_views, spec_get_header, get_header};
use crate::percent::{pct_decode, spec_pct_decode};
use crate::text::{
    spec_split, spec_find_from, spec_parse_u64, spec_u64_dec, lemma_spec_find_from, chars_of,
    string_of, split_char, subvec, find_from, parse_u64, u64_to_dec, push_char,
};
use crate::ids::new_uuid;
use vstd::string::StringExecFns;

/// The S3 operation a write request asks for.
#[derive(PartialEq, Eq, Structural)]
pub enum OperationType {
    PutObject,
    CreateMultipartUpload,
    UploadPart,
    CompleteMultipartUpload,
    AbortMultipartUpload,
    DeleteObject,
    Unknown,
}

/// Classify a write request from its method and whether an `uploadId` came
/// with it.
pub open spec fn spec_classify(method: Seq<char>, is_multipart: bool) -> OperationType {
    if method == "PUT"@ {
        if is_multipart {
            OperationType::UploadPart
        } else {
            OperationType::PutObject
        }
    } else if method == "POST"@ {
        if is_multipart {
            OperationType::CompleteMultipartUpload
        } else {
            OperationType::CreateMultipartUpload
        }
    } else if method == "DELETE"@ {
        if is_multipart {
            OperationType::AbortMultipartUpload
        } else {
            OperationType::DeleteObject
        }
    } else {
        OperationType::Unknown
    }
}

pub fn classify_operation(method: &str, is_multipart: bool) -> (r: OperationType)
    ensures
        r == spec_classify(method@, is_multipart),
{
    if crate::text::str_eq(method, "PUT") {
        if is_multipart {
            OperationType::UploadPart
        } else {
            OperationType::PutObject
        }
    } else if crate::text::str_eq(method, "POST") {
        if is_multipart {
            OperationType::CompleteMultipartUpload
        } else {
            OperationType::CreateMultipartUpload
        }
    } else if crate::text::str_eq(method, "DELETE") {
        if is_multipart {
            OperationType::AbortMultipartUpload
        } else {
            OperationType::DeleteObject
        }
    } else {
        OperationType::Unknown
    }
}

// ---------------------------------------------------------------------------
// Query parameters and the multipart middleware
// ---------------------------------------------------------------------------

/// The multipart query parameters a write request may carry.
pub struct ReqParams {
    pub upload_id: Option<String>,
    pub part_number: Option<u16>,
}

/// The raw value of the last occurrence of a query key.
pub open spec fn spec_query_param(q: Seq<char>, key: Seq<char>) -> Option<Seq<char>> {
    spec_query_pairs_last(spec_split(q, '&'), key)
}

pub open spec fn spec_query_pairs_last(ps: Seq<Seq<char>>, key: Seq<char>) -> Option<Seq<char>>
    decreases ps.len(),
{
    if ps.len() == 0 {
        None
    } else {
        let p = ps.last();
        let e = spec_find_from(p, '=', 0);
        if e < p.len() && p.subrange(0, e) == key {
            Some(p.subrange(e + 1, p.len() as int))
        } else {
            spec_query_pairs_last(ps.drop_last(), key)
        }
    }
}

/// The percent-decoded value for a query key: the raw value when no decoding
/// applies.
pub open spec fn spec_query_param_decoded(q: Seq<char>, key: Seq<char>) -> Option<Seq<char>> {
    match spec_query_param(q, key) {
        None => None,
        Some(raw) => match spec_pct_decode(raw) {
            Some(d) => Some(d),
            None => Some(raw),
        },
    }
}

/// Find the decoded value of a query key; of repeated keys the last wins.
pub fn query_param(query: &str, key: &str) -> (r: Option<String>)
    ensures
        r.deep_view() == spec_query_param_decoded(query@, key@),
{
    let v = chars_of(query);
    let pieces = split_char(&v, '&');
    let ghost pviews = crate::text::views_of(pieces@);
    let keyc = chars_of(key);
    let m = pieces.len();
    let mut i: usize = m;
    let mut found: Option<String> = None;
    assert(pviews.take(m as int) =~= pviews);
    while i > 0
        invariant_except_break
            i <= m,
            found is None,
            spec_query_pairs_last(pviews, key@) == spec_query_pairs_last(
                pviews.take(i as int),
                key@,
            ),
        invariant
            m == pieces@.len(),
            pviews == crate::text::views_of(pieces@),
            keyc@ == key@,
        ensures
            found is None ==> spec_query_pairs_last(pviews, key@) is None,
            found matches Some(raw) ==> spec_query_pairs_last(pviews, key@) == Some(raw@),
        decreases i,
    {
        let ghost pre = pviews.take(i as int);
        proof {
            assert(pre.last() == pviews[i - 1]);
            assert(pre.drop_last() =~= pviews.take(i - 1));
        }
        let piece = &pieces[i - 1];
        proof {
            lemma_spec_find_from(piece@, '=', 0);
        }
        let e = find_from(piece, '=', 0);
        let pn = piece.len();
        if e < pn {
            let k = subvec(piece, 0, e);
            if crate::text::chars_eq(&k, &keyc) {
                let raw = subvec(piece, e + 1, pn);
                found = Some(string_of(&raw));
                break;
            }
        }
        i = i - 1;
    }
    match found {
        Some(raw) => {
            match pct_decode(raw.as_str()) {
                Some(d) => Some(d),
                None => Some(raw),
            }
        },
        None => None,
    }
}

/// Read the multipart parameters out of a query string.
pub fn parse_req_params(query: &str) -> (r: ReqParams)
    ensures
        r.upload_id.deep_view() == spec_query_param_decoded(query@, "uploadId"@),
        ({
            let pn = spec_query_param_decoded(query@, "partNumber"@);
            match pn {
                None => r.part_number is None,
                Some(s) => match spec_parse_u64(s) {
                    Some(n) => if n <= u16::MAX {
                        r.part_number == Some(n as u16)
                    } else {
                        r.part_number is None
                    },
                    None => r.part_number is None,
                },
            }
        }),
{
    let upload_id = query_param(query, "uploadId");
    let part_number = match query_param(query, "partNumber") {
        Some(s) => {
            let v = chars_of(s.as_str());
            match parse_u64(&v) {
                Some(n) => if n <= 65535 {
                    Some(n as u16)
                } else {
                    None
                },
                None => None,
            }
        },
        None => None,
    };
    ReqParams { upload_id, part_number }
}

/// What the multipart middleware attaches to a write request: the query's
/// `uploadId` and `partNumber`, and whether that ID names a live session.
pub struct MultipartUploadState {
    pub is_registered: bool,
    pub upload_id: Option<String>,
    pub part_number: Option<u16>,
}

/// Probe the registry for the request's upload ID, so handlers stay
/// lock-free.
pub fn multipart_state_manager(params: ReqParams, sessions: &SessionRegistry) -> (r:
    MultipartUploadState)
    ensures
        r.upload_id.deep_view() == params.upload_id.deep_view(),
        r.part_number == params.part_number,
        r.is_registered == (params.upload_id matches Some(id) && spec_session_lookup(
            sessions@,
            id@,
        ) is Some),
{
    let is_registered = match &params.upload_id {
        Some(id) => sessions.contains(id.as_str()),
        None => false,
    };
    MultipartUploadState { is_registered, upload_id: params.upload_id, part_number: params.part_number }
}

// ---------------------------------------------------------------------------
// XML response bodies
// ---------------------------------------------------------------------------

/// What an S3 `CreateMultipartUpload` answers.
pub struct S3InitiateMultipartUploadResult {
    pub bucket: String,
    pub key: String,
    pub upload_id: String,
}

/// What an S3 `CompleteMultipartUpload` answers.
pub struct S3CompleteMultipartUploadResult {
    pub location: String,
    pub bucket: String,
    pub key: String,
    pub e_tag: String,
}

/// Escape `&`, `<` and `>` for XML text content.
pub open spec fn spec_xml_escape(s: Seq<char>) -> Seq<char>
    decreases s.len(),
{
    if s.len() == 0 {
        s
    } else {
        let head = if s.first() == '&' {
            "&amp;"@
        } else if s.first() == '<' {
            "&lt;"@
        } else if s.first() == '>' {
            "&gt;"@
        } else {
            seq![s.first()]
        };
        head + spec_xml_escape(s.drop_first())
    }
}

pub fn xml_escape(s: &str) -> (r: String)
    ensures
        r@ == spec_xml_escape(s@),
{
    let v = chars_of(s);
    let n = v.len();
    let mut out = String::new();
    assert(v@.skip(0) == v@);
    for i in 0..n
        invariant
            n == v@.len(),
            v@ == s@,
            spec_xml_escape(s@) =~= out@ + spec_xml_escape(v@.skip(i as int)),
    {
        let ghost mid = v@.skip(i as int);
        proof {
            assert(mid.first() == v@[i as int]);
            assert(mid.drop_first() =~= v@.skip(i + 1));
        }
        let c = v[i];
        if c == '&' {
            out.append("&amp;");
        } else if c == '<' {
            out.append("&lt;");
        } else if c == '>' {
            out.append("&gt;");
        } else {
            push_char(&mut out, c);
        }
    }
    assert(v@.skip(n as int) =~= Seq::<char>::empty());
    assert(out@ =~= spec_xml_escape(s@));
    out
}

/// The XML a `CreateMultipartUpload` answers with.
pub open spec fn spec_initiate_xml(bucket: Seq<char>, key: Seq<char>, upload_id: Seq<char>) -> Seq<
    char,
> {
    "<InitiateMultipartUploadResult><Bucket>"@ + spec_xml_escape(bucket) + "</Bucket><Key>"@
        + spec_xml_escape(key) + "</Key><UploadId>"@ + spec_xml_escape(upload_id)
        + "</UploadId></InitiateMultipartUploadResult>"@
}

impl S3InitiateMultipartUploadResult {
    pub fn to_xml(&self) -> (r: String)
        ensures
            r@ == spec_initiate_xml(self.bucket@, self.key@, self.upload_id@),
    {
        let mut out = String::new();
        out.append("<InitiateMultipartUploadResult><Bucket>");
        out.append(xml_escape(self.bucket.as_str()).as_str());
        out.append("</Bucket><Key>");
        out.append(xml_escape(self.key.as_str()).as_str());
        out.append("</Key><UploadId>");
        out.append(xml_escape(self.upload_id.as_str()).as_str());
        out.append("</UploadId></InitiateMultipartUploadResult>");
        out
    }
}

/// The XML a `CompleteMultipartUpload` answers with.
pub open spec fn spec_complete_xml(
    location: Seq<char>,
    bucket: Seq<char>,
    key: Seq<char>,
    e_tag: Seq<char>,
) -> Seq<char> {
    "<CompleteMultipartUploadResult><Location>"@ + spec_xml_escape(location)
        + "</Location><Bucket>"@ + spec_xml_escape(bucket) + "</Bucket><Key>"@ + spec_xml_escape(
        key,
    ) + "</Key><ETag>"@ + spec_xml_escape(e_tag) + "</ETag></CompleteMultipartUploadResult>"@
}

impl S3CompleteMultipartUploadResult {
    pub fn to_xml(&self) -> (r: String)
        ensures
            r@ == spec_complete_xml(self.location@, self.bucket@, self.key@, self.e_tag@),
    {
        let mut out = String::new();
        out.append("<CompleteMultipartUploadResult><Location>");
        out.append(xml_escape(self.location.as_str()).as_str());
        out.append("</Location><Bucket>");
        out.append(xml_escape(self.bucket.as_str()).as_str());
        out.append("</Bucket><Key>");
        out.append(xml_escape(self.key.as_str()).as_str());
        out.append("</Key><ETag>");
        out.append(xml_escape(self.e_tag.as_str()).as_str());
        out.append("</ETag></CompleteMultipartUploadResult>");
        out
    }
}

// ---------------------------------------------------------------------------
// Small request helpers
// ---------------------------------------------------------------------------

/// Bucket and key of an object path: the halves around the first slash, or
/// an empty bucket and the whole path without one.
pub open spec fn spec_bucket_key(path: Seq<char>) -> (Seq<char>, Seq<char>) {
    let i = spec_find_from(path, '/', 0);
    if i == path.len() {
        (Seq::<char>::empty(), path)
    } else {
        (path.subrange(0, i), path.subrange(i + 1, path.len() as int))
    }
}

pub fn split_bucket_key(path: &str) -> (r: (String, String))
    ensures
        (r.0@, r.1@) == spec_bucket_key(path@),
{
    let v = chars_of(path);
    proof {
        lemma_spec_find_from(v@, '/', 0);
    }
    let i = find_from(&v, '/', 0);
    let n = v.len();
    if i == n {
        (String::new(), string_of(&v))
    } else {
        (string_of(&subvec(&v, 0, i)), string_of(&subvec(&v, i + 1, n)))
    }
}

/// The URI without its query string.
pub open spec fn spec_strip_query(uri: Seq<char>) -> Seq<char> {
    uri.subrange(0, spec_find_from(uri, '?', 0))
}

pub fn strip_query(uri: &str) -> (r: String)
    ensures
        r@ == spec_strip_query(uri@),
{
    let v = chars_of(uri);
    proof {
        lemma_spec_find_from(v@, '?', 0);
    }
    let i = find_from(&v, '?', 0);
    string_of(&subvec(&v, 0, i))
}

// ---------------------------------------------------------------------------
// Responses and errors
// ---------------------------------------------------------------------------

/// A planned HTTP answer: status, headers and body bytes.
pub struct HttpResponse {
    pub status: u16,
    pub headers: Vec<(String, String)>,
    pub body: Vec<u8>,
}

/// An internal failure, answered opaquely and correlated to the log by a
/// fresh request ID.
pub struct AppError {
    pub request_id: String,
    pub message: String,
}

pub open spec fn spec_app_error_body(request_id: Seq<char>) -> Seq<char> {
    "Internal Server Error (RequestID: "@ + request_id + ")"@
}

impl AppError {
    /// Wrap a failure under a fresh request ID.
    pub fn new(message: String) -> (r: Self)
        ensures
            r.request_id@.len() == 36,
            r.message == message,
    {
        AppError { request_id: new_uuid(), message }
    }

    /// The opaque body the client sees.
    pub fn response_body(&self) -> (r: String)
        ensures
            r@ == spec_app_error_body(self.request_id@),
    {
        let mut out = String::new();
        out.append("Internal Server Error (RequestID: ");
        out.append(self.request_id.as_str());
        out.append(")");
        out
    }
}

fn text_response(status: u16, text: &str) -> (r: HttpResponse)
    ensures
        r.status == status,
        r.headers@.len() == 0,
        r.body@ == vstd::utf8::encode_utf8(text@),
{
    HttpResponse { status, headers: Vec::new(), body: str_bytes(text) }
}

fn str_bytes(s: &str) -> (r: Vec<u8>)
    ensures
        r@ == vstd::utf8::encode_utf8(s@),
{
    let r = vstd::string::StrSliceExecFns::as_bytes_vec(s);
    r
}

fn internal_error_response() -> (r: HttpResponse)
    ensures
        r.status == 500,
        r.headers@.len() == 0,
        r.body@.len() > 0,
{
    let err = AppError::new(String::new());
    let body = err.response_body();
    proof {
        reveal_strlit("Internal Server Error (RequestID: ");
        assert(body@.len() > 0);
        broadcast use vstd::utf8::group_utf8_lib;

        vstd::utf8::encode_utf8_decode_utf8(body@);
        if vstd::utf8::encode_utf8(body@).len() == 0 {
            assert(vstd::utf8::encode_utf8(body@) =~= Seq::<u8>::empty());
            assert(vstd::utf8::decode_utf8(Seq::<u8>::empty()) =~= Seq::<char>::empty());
        }
    }
    HttpResponse { status: 500, headers: Vec::new(), body: str_bytes(body.as_str()) }
}

// ---------------------------------------------------------------------------
// The read handler
// ---------------------------------------------------------------------------

/// The `Content-Disposition` a read serves: `inline`, with the stored
/// filenames when there are any.
pub open spec fn spec_inline_disposition(row: ObjectRecordV) -> Seq<char> {
    let f = match row.filename {
        Some(f) => f,
        None => Seq::<char>::empty(),
    };
    let built = spec_build_cd(f, row.encoded_filename);
    if built.len() == 0 {
        "inline"@
    } else {
        "inline; "@ + built
    }
}

/// The headers every read carries for a row.
pub open spec fn spec_read_headers(row: ObjectRecordV, is_head: bool) -> Seq<
    (Seq<char>, Seq<char>),
> {
    let base = seq![
        ("Cache-Control"@, "max-age=31536000, immutable"@),
        ("Content-Type"@, row.mime_type),
        ("ETag"@, seq!['"'] + row.internal_filename + seq!['"']),
        ("Accept-Ranges"@, "bytes"@),
        ("Content-Disposition"@, spec_inline_disposition(row)),
    ];
    if is_head {
        base.push(("Content-Length"@, spec_u64_dec(row.content_size)))
    } else {
        base
    }
}

/// Serve a read: the row's headers always; for `HEAD` a `Content-Length`
/// and no body, for `GET` the object's bytes.
pub fn read_handler(storage: &Storage, is_head: bool, object_path: &str) -> (r: HttpResponse)
    ensures
        object_path@.len() == 0 ==> r.status == 400 && r.body@.len() == 0,
        object_path@.len() > 0 ==> ({
            let got = spec_get_object(
                storage.metadata@,
                storage.blobs@.files,
                object_path@,
                !is_head,
            );
            match got {
                None => r.status == 404 && r.body@ == vstd::utf8::encode_utf8(
                    "Object not found"@,
                ),
                Some(pair) => {
                    &&& r.status == 200
                    &&& pair_views(r.headers@) == spec_read_headers(pair.0, is_head)
                    &&& is_head ==> r.body@.len() == 0
                    &&& !is_head ==> Some(r.body@) == pair.1
                },
            }
        }),
{
    if object_path.is_empty() {
        proof {
            reveal_strlit("");
            assert(vstd::utf8::encode_utf8(""@) =~= Seq::<u8>::empty());
        }
        return text_response(400, "");
    }
    let data = match storage.get_object(object_path, !is_head) {
        Ok(d) => d,
        Err(_) => {
            return text_response(404, "Object not found");
        },
    };
    let row = data.metadata;
    let mut headers: Vec<(String, String)> = Vec::new();
    headers.push((String::from_str("Cache-Control"), String::from_str(
        "max-age=31536000, immutable",
    )));
    headers.push((String::from_str("Content-Type"), row.mime_type.clone()));
    let mut etag = String::new();
    push_char(&mut etag, '"');
    etag.append(row.internal_filename.as_str());
    push_char(&mut etag, '"');
    headers.push((String::from_str("ETag"), etag));
    headers.push((String::from_str("Accept-Ranges"), String::from_str("bytes")));
    let display_name = match &row.filename {
        Some(f) => f.clone(),
        None => String::new(),
    };
    let built = build_content_disposition_filename(display_name, clone_opt_string(
        &row.encoded_filename,
    ));
    let mut disposition = String::from_str("inline");
    if !built.as_str().is_empty() {
        disposition.append("; ");
        disposition.append(built.as_str());
        proof {
            reveal_strlit("inline");
            reveal_strlit("; ");
            reveal_strlit("inline; ");
            assert(disposition@ =~= "inline; "@ + built@);
        }
    }
    assert(disposition@ == spec_inline_disposition(row@));
    headers.push((String::from_str("Content-Disposition"), disposition));
    if is_head {
        let len_chars = u64_to_dec(row.content_size);
        headers.push((String::from_str("Content-Length"), string_of(&len_chars)));
        assert(pair_views(headers@) =~~= spec_read_headers(row@, is_head));
        HttpResponse { status: 200, headers, body: Vec::new() }
    } else {
        assert(pair_views(headers@) =~~= spec_read_headers(row@, is_head));
        let body = match data.file {
            Some(content) => content,
            None => Vec::new(),
        };
        HttpResponse { status: 200, headers, body }
    }
}

fn clone_opt_string(o: &Option<String>) -> (r: Option<String>)
    ensures
        r.deep_view() == o.deep_view(),
{
    match o {
        Some(s) => Some(s.clone()),
        None => None,
    }
}

// ---------------------------------------------------------------------------
// The write handler
// ---------------------------------------------------------------------------

/// Two storage states that agree everywhere.
pub open spec fn same_state(a: Storage, b: Storage) -> bool {
    a.metadata@ == b.metadata@ && a.blobs@ == b.blobs@ && a.sessions@ == b.sessions@
}

/// The put data a request's headers and body describe: the default media
/// type, a zero size when `Content-Length` does not parse, the display name
/// `unknown` when none came, and the parsed `Content-Disposition` filenames.
pub open spec fn spec_put_data(
    hs: Seq<(Seq<char>, Seq<char>)>,
    path: Seq<char>,
    body: Seq<u8>,
) -> crate::storage::WriteObjectDataV {
    let cd = spec_get_header(hs, "Content-Disposition"@, Seq::<char>::empty());
    crate::storage::WriteObjectDataV {
        binary: body,
        path: path,
        filename: Some(
            match spec_parse_filename(cd) {
                Some(f) => f,
                None => "unknown"@,
            },
        ),
        encoded_filename: spec_parse_encoded(cd),
        content_size: match spec_parse_u64(
            spec_get_header(hs, "Content-Length"@, Seq::<char>::empty()),
        ) {
            Some(n) => n,
            None => 0u64,
        },
        mime_type: spec_get_header(hs, "Content-Type"@, "application/octet-stream"@),
    }
}

/// Dispatch a write request: classify it from the method and the multipart
/// state, run the storage operation, and answer with the operation's status
/// and body.
#[verifier::rlimit(80)]
pub fn write_handler(
    storage: &mut Storage,
    method: &str,
    uri: &str,
    object_path: &str,
    state: MultipartUploadState,
    headers: &Vec<(String, String)>,
    body: Vec<u8>,
) -> (r: HttpResponse)
    requires
        old(storage).wf(),
    ensures
        final(storage).wf(),
        object_path@.len() == 0 ==> r.status == 400 && r.body@.len() == 0 && same_state(
            *old(storage),
            *final(storage),
        ),
        object_path@.len() > 0 ==> ({
            let op = spec_classify(method@, state.upload_id is Some);
            let hs = pair_views(headers@);
            &&& op == OperationType::Unknown ==> r.status == 400 && r.body@
                == vstd::utf8::encode_utf8("unknown operation"@) && same_state(
                *old(storage),
                *final(storage),
            )
            &&& op == OperationType::PutObject ==> ({
                let data = spec_put_data(hs, object_path@, body@);
                let internal = crate::crypto::spec_blake3_hex(object_path@);
                &&& (r.status == 201 <==> spec_meta_lookup(old(storage).metadata@, object_path@)
                    is None && spec_file_lookup(old(storage).blobs@.files, internal) is None)
                &&& r.status == 201 ==> final(storage).metadata@ == old(storage).metadata@.push(
                    spec_put_row(data),
                ) && final(storage).blobs@.files == old(storage).blobs@.files.push(
                    (internal, body@),
                )
                &&& r.status == 201 || r.status == 500
            })
            &&& op == OperationType::CreateMultipartUpload ==> ({
                let bk = spec_bucket_key(object_path@);
                &&& r.status == 200
                &&& pair_views(r.headers@) == seq![("Content-Type"@, "application/xml"@)]
                &&& exists|id: Seq<char>|
                    {
                        let cd = spec_get_header(hs, "Content-Disposition"@, Seq::<char>::empty());
                        &&& id.len() == 36
                        &&& #[trigger] spec_session_lookup(final(storage).sessions@, id)
                            matches Some(item) && item.path == object_path@ && item.mime_type
                            == spec_get_header(hs, "Content-Type"@, "application/octet-stream"@)
                            && item.filename == Some(
                            match spec_parse_filename(cd) {
                                Some(f) => f,
                                None => "unknown"@,
                            },
                        ) && item.encoded_filename == spec_parse_encoded(cd)
                        &&& r.body@ == vstd::utf8::encode_utf8(
                            spec_initiate_xml(bk.0, bk.1, id),
                        )
                    }
                &&& final(storage).metadata@ == old(storage).metadata@
                &&& final(storage).blobs@ == old(storage).blobs@
            })
            &&& op == OperationType::UploadPart && state.part_number is None ==> r.status == 400
                && r.body@ == vstd::utf8::encode_utf8("Missing uploadId or partNumber"@)
                && same_state(*old(storage), *final(storage))
            &&& op == OperationType::UploadPart && state.part_number is Some
                && !state.is_registered ==> r.status == 400 && r.body@
                == vstd::utf8::encode_utf8("Invalid or expires uploadId"@) && same_state(
                *old(storage),
                *final(storage),
            )
            &&& op == OperationType::UploadPart && state.part_number is Some
                && state.is_registered ==> ({
                let id = state.upload_id->0@;
                let num = state.part_number->0 as u64;
                &&& r.status == 200 || r.status == 500
                &&& (r.status == 200 <==> spec_session_lookup(old(storage).sessions@, id) is Some
                    && (match spec_dir_lookup(old(storage).blobs@.multipart, id) {
                    None => true,
                    Some(ps) => spec_part_lookup(ps, num) is None,
                }))
                &&& r.status == 200 ==> pair_views(r.headers@).len() == 1 && pair_views(
                    r.headers@,
                )[0].0 == "ETag"@ && pair_views(r.headers@)[0].1.len() == 36 && r.body@.len() == 0
                &&& r.status == 200 ==> (spec_dir_lookup(final(storage).blobs@.multipart, id)
                    matches Some(ps) && spec_part_lookup(ps, num) == Some(body@))
            })
            &&& op == OperationType::CompleteMultipartUpload && !state.is_registered ==> r.status
                == 400 && r.body@ == vstd::utf8::encode_utf8("Invalid or expired uploadId"@)
                && same_state(*old(storage), *final(storage))
            &&& op == OperationType::CompleteMultipartUpload && state.is_registered ==> ({
                let id = state.upload_id->0@;
                &&& r.status == 200 || r.status == 500
                &&& (r.status == 200 <==> (spec_session_lookup(old(storage).sessions@, id)
                    matches Some(item) && spec_dir_lookup(old(storage).blobs@.multipart, id)
                    is Some && spec_file_lookup(
                    old(storage).blobs@.files,
                    crate::crypto::spec_blake3_hex(item.path),
                ) is None && spec_meta_lookup(old(storage).metadata@, item.path) is None))
                &&& spec_session_lookup(final(storage).sessions@, id) is None
                &&& r.status == 200 ==> ({
                    let bk = spec_bucket_key(object_path@);
                    &&& pair_views(r.headers@) == seq![("Content-Type"@, "application/xml"@)]
                    &&& exists|etag: Seq<char>|
                        etag.len() == 36 && r.body@ == vstd::utf8::encode_utf8(
                            #[trigger] spec_complete_xml(
                                spec_strip_query(uri@),
                                bk.0,
                                bk.1,
                                etag,
                            ),
                        )
                })
            })
            &&& op == OperationType::AbortMultipartUpload ==> ({
                let id = state.upload_id->0@;
                &&& r.status == 204
                &&& spec_session_lookup(final(storage).sessions@, id) is None
                &&& crate::blob::spec_dir_lookup(final(storage).blobs@.multipart, id) is None
                &&& final(storage).metadata@ == old(storage).metadata@
                &&& final(storage).blobs@.files == old(storage).blobs@.files
            })
            &&& op == OperationType::DeleteObject ==> ({
                &&& r.status == 204 || r.status == 500
                &&& (r.status == 204 <==> (spec_meta_lookup(old(storage).metadata@, object_path@)
                    matches Some(row) && spec_file_lookup(
                    old(storage).blobs@.files,
                    row.internal_filename,
                ) is Some))
                &&& r.status == 204 ==> spec_meta_lookup(old(storage).metadata@, object_path@)
                    is Some && spec_meta_lookup(final(storage).metadata@, object_path@) is None
                    && spec_file_lookup(
                    final(storage).blobs@.files,
                    spec_meta_lookup(old(storage).metadata@, object_path@)->0.internal_filename,
                ) is None
            })
        }),
{
    if object_path.is_empty() {
        proof {
            reveal_strlit("");
            assert(vstd::utf8::encode_utf8(""@) =~= Seq::<u8>::empty());
        }
        return text_response(400, "");
    }
    let operation = classify_operation(method, state.upload_id.is_some());
    if matches!(operation, OperationType::Unknown) {
        return text_response(400, "unknown operation");
    }

    let mime_type = get_header(headers, "Content-Type", Some(String::from_str(
        "application/octet-stream",
    )));
    let content_length = get_header(headers, "Content-Length", None);
    let content_size = match parse_u64(&chars_of(content_length.as_str())) {
        Some(n) => n,
        None => 0,
    };
    let content_disposition_raw = get_header(headers, "Content-Disposition", None);
    let content_disposition = parse_content_disposition(content_disposition_raw.as_str());

    match operation {
        OperationType::PutObject => {
            let filename = match content_disposition.filename {
                Some(f) => f,
                None => String::from_str("unknown"),
            };
            let data = WriteObjectData {
                binary: body,
                path: String::from_str(object_path),
                filename: Some(filename),
                encoded_filename: content_disposition.encoded_filename,
                content_size,
                mime_type,
            };
            assert(data@ == spec_put_data(pair_views(headers@), object_path@, data.binary@));
            match storage.put_object(data) {
                Ok(()) => text_response(201, ""),
                Err(_) => internal_error_response(),
            }
        },
        OperationType::CreateMultipartUpload => {
            let filename = match content_disposition.filename {
                Some(f) => f,
                None => String::from_str("unknown"),
            };
            let upload_id = storage.create_multipart_upload(
                String::from_str(object_path),
                Some(filename),
                content_disposition.encoded_filename,
                mime_type,
            );
            let (bucket, key) = split_bucket_key(object_path);
            let ghost id_view = upload_id@;
            let response = S3InitiateMultipartUploadResult { bucket, key, upload_id };
            let xml = response.to_xml();
            let out_body = str_bytes(xml.as_str());
            proof {
                let bk = spec_bucket_key(object_path@);
                assert(out_body@ == vstd::utf8::encode_utf8(
                    spec_initiate_xml(bk.0, bk.1, id_view),
                ));
                assert(spec_session_lookup(storage.sessions@, id_view) is Some);
            }
            let mut response_headers: Vec<(String, String)> = Vec::new();
            response_headers.push((String::from_str("Content-Type"), String::from_str(
                "application/xml",
            )));
            assert(pair_views(response_headers@) =~~= seq![("Content-Type"@, "application/xml"@)]);
            HttpResponse { status: 200, headers: response_headers, body: out_body }
        },
        OperationType::UploadPart => {
            let part_number = match state.part_number {
                Some(n) => n,
                None => {
                    return text_response(400, "Missing uploadId or partNumber");
                },
            };
            if !state.is_registered {
                return text_response(400, "Invalid or expires uploadId");
            }
            let upload_id = match &state.upload_id {
                Some(id) => id,
                None => {
                    return text_response(400, "Missing uploadId or partNumber");
                },
            };
            let ghost body_view = body@;
            match storage.upload_part(upload_id.as_str(), part_number, body) {
                Ok(()) => {
                    proof {
                        match spec_dir_lookup(old(storage).blobs@.multipart, upload_id@) {
                            None => {},
                            Some(ps) => {
                                lemma_part_push_found(ps, part_number as u64, body_view);
                            },
                        }
                    }
                    let etag = new_uuid();
                    let mut response_headers: Vec<(String, String)> = Vec::new();
                    response_headers.push((String::from_str("ETag"), etag));
                    assert(pair_views(response_headers@).len() == 1);
                    HttpResponse { status: 200, headers: response_headers, body: Vec::new() }
                },
                Err(_) => internal_error_response(),
            }
        },
        OperationType::CompleteMultipartUpload => {
            if !state.is_registered {
                return text_response(400, "Invalid or expired uploadId");
            }
            let upload_id = match &state.upload_id {
                Some(id) => id,
                None => {
                    return text_response(400, "Missing uploadId");
                },
            };
            match storage.complete_multipart_upload(upload_id.as_str()) {
                Ok(()) => {
                    let location = strip_query(uri);
                    let (bucket, key) = split_bucket_key(object_path);
                    let e_tag = new_uuid();
                    let response = S3CompleteMultipartUploadResult {
                        location,
                        bucket,
                        key,
                        e_tag,
                    };
                    let xml = response.to_xml();
                    let out_body = str_bytes(xml.as_str());
                    proof {
                        let bk = spec_bucket_key(object_path@);
                        assert(out_body@ == vstd::utf8::encode_utf8(
                            spec_complete_xml(
                                spec_strip_query(uri@),
                                bk.0,
                                bk.1,
                                response.e_tag@,
                            ),
                        ));
                    }
                    let mut response_headers: Vec<(String, String)> = Vec::new();
                    response_headers.push((String::from_str("Content-Type"), String::from_str(
                        "application/xml",
                    )));
                    assert(pair_views(response_headers@) =~~= seq![
                        ("Content-Type"@, "application/xml"@),
                    ]);
                    HttpResponse {
                        status: 200,
                        headers: response_headers,
                        body: out_body,
                    }
                },
                Err(_) => internal_error_response(),
            }
        },
        OperationType::AbortMultipartUpload => {
            let upload_id = match &state.upload_id {
                Some(id) => id,
                None => {
                    return text_response(400, "Missing uploadId");
                },
            };
            match storage.abort_multipart_upload(upload_id.as_str()) {
                Ok(()) => text_response(204, ""),
                Err(_) => text_response(204, ""),
            }
        },
        OperationType::DeleteObject => {
            match storage.delete_object(object_path) {
                Ok(()) => text_response(204, ""),
                Err(_) => internal_error_response(),
            }
        },
        OperationType::Unknown => text_response(400, "Unknown operation type"),
    }
}

} // verus!
