use ofuton::percent::{pct_decode, pct_encode};
use ofuton::disposition::{build_content_disposition_filename, parse_content_disposition};
use ofuton::cli::{normalize_filename, parse_tsv_line, url_path_of};
use ofuton::text::{to_hex_lower, u64_to_dec, parse_u64, string_of, chars_of};

#[test]
fn percent_encode_keeps_unreserved() {
    assert_eq!(pct_encode("AZaz09-._~"), "AZaz09-._~");
}

#[test]
fn percent_encode_escapes_utf8_bytes() {
    assert_eq!(
        pct_encode("\u{65e5}\u{672c}\u{8a9e}.txt"),
        "%E6%97%A5%E6%9C%AC%E8%AA%9E.txt"
    );
    assert_eq!(pct_encode("a b&c"), "a%20b%26c");
}

#[test]
fn percent_decode_reverses_encode() {
    let original = "\u{65e5}\u{672c}\u{8a9e} name&x.txt";
    let decoded = pct_decode(&pct_encode(original)).expect("round trip");
    assert_eq!(decoded, original);
}

#[test]
fn percent_decode_keeps_malformed_escape() {
    assert_eq!(pct_decode("abc%zzdef").expect("decodes"), "abc%zzdef");
}

#[test]
fn percent_decode_rejects_invalid_utf8() {
    assert!(pct_decode("%FF").is_none());
}

#[test]
fn parse_content_disposition_plain_filename() {
    let r = parse_content_disposition("attachment; filename=\"b.txt\"");
    assert_eq!(r.filename.as_deref(), Some("b.txt"));
    assert_eq!(r.encoded_filename, None);
}

#[test]
fn parse_content_disposition_encoded_filename() {
    let r = parse_content_disposition(
        "attachment; filename=\"\u{65e5}\u{672c}\u{8a9e}.txt\"; filename*=utf-8''%E6%97%A5%E6%9C%AC%E8%AA%9E.txt",
    );
    assert_eq!(r.filename.as_deref(), Some("\u{65e5}\u{672c}\u{8a9e}.txt"));
    assert_eq!(
        r.encoded_filename.as_deref(),
        Some("%E6%97%A5%E6%9C%AC%E8%AA%9E.txt")
    );
}

#[test]
fn parse_content_disposition_reencodes_decoded_value() {
    // The client sent the `filename*` value without escapes; the parser
    // stores the encoded form instead.
    let r = parse_content_disposition("attachment; filename*=utf-8''plain name.txt");
    assert_eq!(r.encoded_filename.as_deref(), Some("plain%20name.txt"));
    assert_eq!(r.filename, None);
}

#[test]
fn parse_content_disposition_uppercase_utf8_tag() {
    let r = parse_content_disposition("attachment; filename*=UTF-8''x%20y");
    assert_eq!(r.encoded_filename.as_deref(), Some("x%20y"));
}

#[test]
fn parse_content_disposition_empty_header() {
    let r = parse_content_disposition("");
    assert_eq!(r.filename, None);
    assert_eq!(r.encoded_filename, None);
}

#[test]
fn build_content_disposition_empty_name_emits_nothing() {
    assert_eq!(build_content_disposition_filename(String::new(), None), "");
}

#[test]
fn build_content_disposition_with_encoded() {
    assert_eq!(
        build_content_disposition_filename("b.txt".to_string(), None),
        "filename=\"b.txt\""
    );
    assert_eq!(
        build_content_disposition_filename(
            "\u{65e5}\u{672c}\u{8a9e}.txt".to_string(),
            Some("%E6%97%A5%E6%9C%AC%E8%AA%9E.txt".to_string())
        ),
        "filename=\"\u{65e5}\u{672c}\u{8a9e}.txt\"; filename*=utf-8''%E6%97%A5%E6%9C%AC%E8%AA%9E.txt"
    );
}

#[test]
fn content_disposition_round_trips() {
    let built = build_content_disposition_filename(
        "b.txt".to_string(),
        Some("%E6%97%A5.txt".to_string()),
    );
    let parsed = parse_content_disposition(&built);
    assert_eq!(parsed.filename.as_deref(), Some("b.txt"));
    assert_eq!(parsed.encoded_filename.as_deref(), Some("%E6%97%A5.txt"));
}

#[test]
fn normalize_keeps_attr_chars() {
    let (name, encoded) = normalize_filename("file-1.2_ok~");
    assert_eq!(name, "file-1.2_ok~");
    assert_eq!(encoded, None);
}

#[test]
fn normalize_replaces_others_and_encodes() {
    let (name, encoded) = normalize_filename("\u{65e5}\u{672c}\u{8a9e}.txt");
    assert_eq!(name, "___.txt");
    assert_eq!(encoded.as_deref(), Some("%E6%97%A5%E6%9C%AC%E8%AA%9E.txt"));
    let (name2, encoded2) = normalize_filename("a b,c.png");
    assert_eq!(name2, "a_b_c.png");
    assert_eq!(encoded2.as_deref(), Some("a%20b%2Cc.png"));
}

#[test]
fn tsv_line_with_three_fields() {
    let r = parse_tsv_line("name.png\timage/png\thttps://host/files/name.png").unwrap();
    assert_eq!(r.0, "name.png");
    assert_eq!(r.1, "image/png");
    assert_eq!(r.2, "https://host/files/name.png");
    assert!(parse_tsv_line("only\ttwo").is_none());
    assert!(parse_tsv_line("a\tb\tc\td").is_none());
}

#[test]
fn url_path_extraction() {
    assert_eq!(
        url_path_of("https://host.example/files/a.png?x=1").as_deref(),
        Some("/files/a.png")
    );
    assert_eq!(url_path_of("https://host.example").as_deref(), Some("/"));
    assert_eq!(
        url_path_of("http://h/p#frag").as_deref(),
        Some("/p")
    );
    assert_eq!(url_path_of("not a url"), None);
}

#[test]
fn hex_and_decimal_rendering() {
    assert_eq!(to_hex_lower(&[0xbe, 0xef, 0x00]), "beef00");
    assert_eq!(string_of(&u64_to_dec(0)), "0");
    assert_eq!(string_of(&u64_to_dec(31536000)), "31536000");
    assert_eq!(parse_u64(&chars_of("123")), Some(123));
    assert_eq!(parse_u64(&chars_of("")), None);
    assert_eq!(parse_u64(&chars_of("12x")), None);
    assert_eq!(parse_u64(&chars_of("18446744073709551615")), Some(u64::MAX));
    assert_eq!(parse_u64(&chars_of("18446744073709551616")), None);
}
