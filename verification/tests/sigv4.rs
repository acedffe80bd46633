use ofuton::sigv4::{
    get_components, get_query_string, internal_verify, signature_verification, SigRequest,
    SignatureVerificationState,
};
use sha2::Digest;

use hmac::Mac;

fn hmac_sha256(key: &[u8], msg: &[u8]) -> Vec<u8> {
    let mut mac = <hmac::Hmac<sha2::Sha256> as hmac::KeyInit>::new_from_slice(key)
        .expect("any key length works");
    mac.update(msg);
    mac.finalize().into_bytes().to_vec()
}

fn hex(bytes: &[u8]) -> String {
    let mut out = String::new();
    for b in bytes {
        out.push_str(&format!("{:02x}", b));
    }
    out
}

/// A request signed by hand with the crates the verifier trusts; the
/// verifier must accept it even though the query carries an
/// `X-Amz-Signature` pair of its own.
fn signed_request(signature_override: Option<&str>) -> SigRequest {
    let access_key = "AKIDEXAMPLE";
    let secret_key = "SECRETKEY";
    let date = "20260101T000000Z";
    let scope_date = "20260101";

    // The canonical pieces, assembled as SigV4 prescribes.
    let canonical_query = "foo=bar"; // the signature pair is excluded
    let canonical_headers = format!("host:localhost\nx-amz-date:{}\n", date);
    let canonical_request = format!(
        "PUT\n/a/b.txt\n{}\n{}\nhost;x-amz-date\nUNSIGNED-PAYLOAD",
        canonical_query, canonical_headers
    );
    let hashed = hex(&sha2::Sha256::digest(canonical_request.as_bytes()));
    let string_to_sign = format!(
        "AWS4-HMAC-SHA256\n{}\n{}/us-east-1/s3/aws4_request\n{}",
        date, scope_date, hashed
    );
    let k_date = hmac_sha256(format!("AWS4{}", secret_key).as_bytes(), scope_date.as_bytes());
    let k_region = hmac_sha256(&k_date, b"us-east-1");
    let k_service = hmac_sha256(&k_region, b"s3");
    let k_signing = hmac_sha256(&k_service, b"aws4_request");
    let signature = hex(&hmac_sha256(&k_signing, string_to_sign.as_bytes()));

    let authorization = format!(
        "AWS4-HMAC-SHA256 Credential={}/{}/us-east-1/s3/aws4_request, SignedHeaders=host;x-amz-date, Signature={}",
        access_key,
        scope_date,
        signature_override.unwrap_or(&signature)
    );

    SigRequest {
        method: "PUT".to_string(),
        path: "/a/b.txt".to_string(),
        query: "X-Amz-Signature=ffffffff&foo=bar".to_string(),
        headers: vec![
            ("Host".to_string(), "localhost".to_string()),
            ("X-Amz-Date".to_string(), date.to_string()),
            ("Authorization".to_string(), authorization),
        ],
    }
}

#[test]
fn valid_signature_verifies() {
    let request = signed_request(None);
    assert!(internal_verify(&request, "AKIDEXAMPLE", "SECRETKEY"));
}

#[test]
fn signature_pair_in_query_is_excluded() {
    // The same request without the extra pair signs to the same value.
    let mut request = signed_request(None);
    request.query = "foo=bar&X-Amz-Signature=0011".to_string();
    assert!(internal_verify(&request, "AKIDEXAMPLE", "SECRETKEY"));
}

#[test]
fn all_zero_signature_is_rejected() {
    let request = signed_request(Some(
        "0000000000000000000000000000000000000000000000000000000000000000",
    ));
    assert!(!internal_verify(&request, "AKIDEXAMPLE", "SECRETKEY"));
}

#[test]
fn wrong_access_key_is_rejected() {
    let request = signed_request(None);
    assert!(!internal_verify(&request, "SOMEONEELSE", "SECRETKEY"));
}

#[test]
fn wrong_secret_is_rejected() {
    let request = signed_request(None);
    assert!(!internal_verify(&request, "AKIDEXAMPLE", "OTHERSECRET"));
}

#[test]
fn missing_authorization_is_rejected() {
    let request = SigRequest {
        method: "PUT".to_string(),
        path: "/a".to_string(),
        query: String::new(),
        headers: vec![("Host".to_string(), "localhost".to_string())],
    };
    assert!(!internal_verify(&request, "AKIDEXAMPLE", "SECRETKEY"));
}

#[test]
fn malformed_credential_is_rejected() {
    let request = SigRequest {
        method: "PUT".to_string(),
        path: "/a".to_string(),
        query: String::new(),
        headers: vec![(
            "Authorization".to_string(),
            "AWS4-HMAC-SHA256 Credential=AKIDEXAMPLE/too/short, SignedHeaders=host, Signature=ab"
                .to_string(),
        )],
    };
    assert!(!internal_verify(&request, "AKIDEXAMPLE", "SECRETKEY"));
}

#[test]
fn middleware_state_drives_verification() {
    let state = SignatureVerificationState {
        key: "AKIDEXAMPLE".to_string(),
        secret: "SECRETKEY".to_string(),
    };
    let request = signed_request(None);
    assert!(signature_verification(&state, &request));
}

#[test]
fn components_are_split_on_commas_and_equals() {
    let comps = get_components(
        "AWS4-HMAC-SHA256 Credential=AKID/d/r/s/aws4_request, SignedHeaders=host, Signature=abc",
    );
    assert_eq!(comps.len(), 3);
    assert_eq!(comps[0].0, "Credential");
    assert_eq!(comps[0].1, "AKID/d/r/s/aws4_request");
    assert_eq!(comps[1].0, "SignedHeaders");
    assert_eq!(comps[1].1, "host");
    assert_eq!(comps[2].0, "Signature");
    assert_eq!(comps[2].1, "abc");
}

#[test]
fn components_without_space_are_empty() {
    assert_eq!(get_components("nospace").len(), 0);
}

#[test]
fn canonical_query_sorts_encodes_and_filters() {
    assert_eq!(
        get_query_string("b=2&a=1&X-Amz-Signature=zz"),
        "a=1&b=2"
    );
    assert_eq!(get_query_string("k=a b"), "k=a%20b");
    assert_eq!(get_query_string(""), "");
    // A pair without `=` is dropped.
    assert_eq!(get_query_string("flag&a=1"), "a=1");
}
