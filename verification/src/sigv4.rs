//! AWS Signature Version 4 verification (`AWS4-HMAC-SHA256`).
//!
//! A request is modelled by its method, path, raw query string and header
//! list; the verifier parses the `Authorization` header, rebuilds the
//! canonical request, derives the signing key through the HMAC chain and
//! compares the computed signature with the presented one. Header names are
//! matched case-insensitively.

use vstd::prelude::*;

verus! {

use crate::crypto::{sha256_of, hmac_sha256_of, hmac_sha256, sha256_hex, spec_sha256_hex};
use crate::percent::{spec_pct_encode, pct_encode};
use crate::text::{
    hex_of, to_hex_lower, lower_chars, lex_leq, spec_split, spec_join, spec_find_from, spec_trim,
    lemma_spec_find_from, views_of, chars_of, string_of, split_char, subvec, find_from, trim_ascii,
    eq_ignore_ascii_case, push_char, sort_lex, join_char, chars_eq,
};
use vstd::utf8::encode_utf8;
use vstd::string::StringExecFns;

/// What the verifier sees of an HTTP request: the method name, the URI path
/// with the query string split off, and the headers in order.
pub struct SigRequest {
    pub method: String,
    pub path: String,
    pub query: String,
    pub headers: Vec<(String, String)>,
}

/// The configured credential that write requests must sign with.
#[derive(Clone)]
pub struct SignatureVerificationState {
    pub key: String,
    pub secret: String,
}

// ---------------------------------------------------------------------------
// Headers
// ---------------------------------------------------------------------------

pub open spec fn pair_views(hs: Seq<(String, String)>) -> Seq<(Seq<char>, Seq<char>)> {
    hs.map_values(|p: (String, String)| (p.0@, p.1@))
}

/// The value of the first header whose name matches case-insensitively.
pub open spec fn spec_header_lookup(hs: Seq<(Seq<char>, Seq<char>)>, name: Seq<char>) -> Option<
    Seq<char>,
>
    decreases hs.len(),
{
    if hs.len() == 0 {
        None
    } else if lower_chars(hs.first().0) == lower_chars(name) {
        Some(hs.first().1)
    } else {
        spec_header_lookup(hs.drop_first(), name)
    }
}

pub open spec fn spec_get_header(
    hs: Seq<(Seq<char>, Seq<char>)>,
    name: Seq<char>,
    fallback: Seq<char>,
) -> Seq<char> {
    match spec_header_lookup(hs, name) {
        Some(v) => v,
        None => fallback,
    }
}

/// Look a header up by name, case-insensitively, with an optional fallback.
pub fn get_header(headers: &Vec<(String, String)>, name: &str, fallback: Option<String>) -> (r:
    String)
    ensures
        r@ == spec_get_header(
            pair_views(headers@),
            name@,
            match fallback {
                Some(f) => f@,
                None => Seq::<char>::empty(),
            },
        ),
{
    let ghost hs = pair_views(headers@);
    let name_chars = chars_of(name);
    let n = headers.len();
    let mut i: usize = 0;
    assert(hs.skip(0) == hs);
    while i < n
        invariant_except_break
            spec_header_lookup(hs, name@) == spec_header_lookup(hs.skip(i as int), name@),
        invariant
            i <= n,
            n == headers@.len(),
            hs == pair_views(headers@),
            name_chars@ == name@,
        ensures
            i < n ==> spec_header_lookup(hs, name@) == Some(headers@[i as int].1@),
            i == n ==> spec_header_lookup(hs, name@) is None,
        decreases n - i,
    {
        let ghost mid = hs.skip(i as int);
        proof {
            assert(mid.first() == hs[i as int]);
            assert(mid.drop_first() =~= hs.skip(i + 1));
        }
        let hname = chars_of(headers[i].0.as_str());
        if eq_ignore_ascii_case(&hname, &name_chars) {
            break;
        }
        i = i + 1;
    }
    if i < n {
        headers[i].1.clone()
    } else {
        assert(hs.skip(n as int) =~= Seq::<(Seq<char>, Seq<char>)>::empty());
        match fallback {
            Some(f) => f,
            None => String::new(),
        }
    }
}

// ---------------------------------------------------------------------------
// The Authorization header's components
// ---------------------------------------------------------------------------

/// The `k=v` pair carried by one comma-separated piece, if any: the piece is
/// trimmed and split at its first equals sign.
pub open spec fn piece_component(p: Seq<char>) -> Seq<(Seq<char>, Seq<char>)> {
    let t = spec_trim(p);
    let e = spec_find_from(t, '=', 0);
    if e < t.len() {
        seq![(t.subrange(0, e), t.subrange(e + 1, t.len() as int))]
    } else {
        Seq::<(Seq<char>, Seq<char>)>::empty()
    }
}

pub open spec fn components_of_pieces(ps: Seq<Seq<char>>) -> Seq<(Seq<char>, Seq<char>)>
    decreases ps.len(),
{
    if ps.len() == 0 {
        Seq::<(Seq<char>, Seq<char>)>::empty()
    } else {
        components_of_pieces(ps.drop_last()) + piece_component(ps.last())
    }
}

/// The components of an `Authorization` value: everything after the first
/// space, split on commas, each piece giving a trimmed `k=v` pair.
pub open spec fn spec_get_components(auth: Seq<char>) -> Seq<(Seq<char>, Seq<char>)> {
    let sp = spec_find_from(auth, ' ', 0);
    if sp == auth.len() {
        Seq::<(Seq<char>, Seq<char>)>::empty()
    } else {
        components_of_pieces(spec_split(auth.subrange(sp + 1, auth.len() as int), ','))
    }
}

/// The value for a component key; a later pair wins over an earlier one, as
/// collecting pairs into a map makes it.
pub open spec fn spec_component_lookup(
    comps: Seq<(Seq<char>, Seq<char>)>,
    key: Seq<char>,
) -> Option<Seq<char>>
    decreases comps.len(),
{
    if comps.len() == 0 {
        None
    } else if comps.last().0 == key {
        Some(comps.last().1)
    } else {
        spec_component_lookup(comps.drop_last(), key)
    }
}

/// Split an `Authorization` value into its `k=v` components.
pub fn get_components(authorization: &str) -> (r: Vec<(String, String)>)
    ensures
        pair_views(r@) == spec_get_components(authorization@),
{
    let v = chars_of(authorization);
    let n = v.len();
    let sp = find_from(&v, ' ', 0);
    proof {
        lemma_spec_find_from(v@, ' ', 0);
    }
    let mut out: Vec<(String, String)> = Vec::new();
    if sp == n {
        assert(pair_views(out@) =~= spec_get_components(authorization@));
        return out;
    }
    let rest = subvec(&v, sp + 1, n);
    let pieces = split_char(&rest, ',');
    let ghost pviews = views_of(pieces@);
    let m = pieces.len();
    let mut i: usize = 0;
    assert(pviews.take(0) =~= Seq::<Seq<char>>::empty());
    assert(pair_views(out@) =~= components_of_pieces(pviews.take(0)));
    while i < m
        invariant
            i <= m,
            m == pieces@.len(),
            pviews == views_of(pieces@),
            pair_views(out@) == components_of_pieces(pviews.take(i as int)),
        decreases m - i,
    {
        let ghost old_out = pair_views(out@);
        let piece = &pieces[i];
        let t = trim_ascii(piece);
        proof {
            lemma_spec_find_from(t@, '=', 0);
        }
        let e = find_from(&t, '=', 0);
        let tn = t.len();
        if e < tn {
            let k = string_of(&subvec(&t, 0, e));
            let val = string_of(&subvec(&t, e + 1, tn));
            out.push((k, val));
            assert(pair_views(out@) =~= old_out + piece_component(pviews[i as int]));
        } else {
            assert(piece_component(pviews[i as int]) =~= Seq::<(Seq<char>, Seq<char>)>::empty());
            assert(pair_views(out@) =~= old_out + piece_component(pviews[i as int]));
        }
        proof {
            assert(pviews.take(i + 1).drop_last() =~= pviews.take(i as int));
            assert(pviews.take(i + 1).last() == pviews[i as int]);
        }
        i = i + 1;
    }
    proof {
        assert(pviews.take(m as int) =~= pviews);
        assert(rest@ == v@.subrange(sp + 1, n as int));
    }
    out
}

/// Find a component's value, later pairs overriding earlier ones.
pub fn lookup_component(comps: &Vec<(String, String)>, key: &str) -> (r: Option<String>)
    ensures
        r.deep_view() == spec_component_lookup(pair_views(comps@), key@),
{
    let n = comps.len();
    let mut i: usize = n;
    assert(pair_views(comps@).take(n as int) == pair_views(comps@));
    while i > 0
        invariant_except_break
            spec_component_lookup(pair_views(comps@), key@) == spec_component_lookup(
                pair_views(comps@).take(i as int),
                key@,
            ),
        invariant
            i <= n,
            n == comps@.len(),
        ensures
            i > 0 ==> spec_component_lookup(pair_views(comps@), key@) == Some(
                comps@[i - 1].1@,
            ),
            i == 0 ==> spec_component_lookup(pair_views(comps@), key@) is None,
        decreases i,
    {
        let ghost pre = pair_views(comps@).take(i as int);
        proof {
            assert(pre.last() == pair_views(comps@)[i - 1]);
            assert(pre.drop_last() =~= pair_views(comps@).take(i - 1));
        }
        let k = &comps[i - 1].0;
        let kc = chars_of(k.as_str());
        let keyc = chars_of(key);
        if chars_eq(&kc, &keyc) {
            break;
        }
        i = i - 1;
    }
    if i > 0 {
        Some(comps[i - 1].1.clone())
    } else {
        None
    }
}

// ---------------------------------------------------------------------------
// Canonical query string
// ---------------------------------------------------------------------------

/// The query key that carries the signature itself, excluded from
/// canonicalization.
pub open spec fn amz_signature_key() -> Seq<char> {
    "X-Amz-Signature"@
}

/// The encoded `k=v` rendering of one `&`-separated query piece: nothing for
/// a piece without `=` or for the excluded signature pair, else both halves
/// percent-encoded.
pub open spec fn query_piece_encoded(p: Seq<char>) -> Seq<Seq<char>> {
    let e = spec_find_from(p, '=', 0);
    if e == p.len() {
        Seq::<Seq<char>>::empty()
    } else {
        let k = p.subrange(0, e);
        let v = p.subrange(e + 1, p.len() as int);
        if k == amz_signature_key() {
            Seq::<Seq<char>>::empty()
        } else {
            seq![spec_pct_encode(k) + seq!['='] + spec_pct_encode(v)]
        }
    }
}

pub open spec fn query_encoded_pairs(ps: Seq<Seq<char>>) -> Seq<Seq<char>>
    decreases ps.len(),
{
    if ps.len() == 0 {
        Seq::<Seq<char>>::empty()
    } else {
        query_encoded_pairs(ps.drop_last()) + query_piece_encoded(ps.last())
    }
}

/// The canonical query string: each pair percent-encoded, the pairs sorted,
/// the signature pair left out.
pub open spec fn spec_canonical_query(q: Seq<char>) -> Seq<char> {
    spec_join(
        query_encoded_pairs(spec_split(q, '&')).sort_by(
            |x: Seq<char>, y: Seq<char>| lex_leq(x, y),
        ),
        '&',
    )
}

/// Build the canonical query string.
pub fn get_query_string(query: &str) -> (r: String)
    ensures
        r@ == spec_canonical_query(query@),
{
    let v = chars_of(query);
    let pieces = split_char(&v, '&');
    let ghost pviews = views_of(pieces@);
    let m = pieces.len();
    let mut pairs: Vec<Vec<char>> = Vec::new();
    let mut i: usize = 0;
    assert(pviews.take(0) =~= Seq::<Seq<char>>::empty());
    assert(views_of(pairs@) =~= query_encoded_pairs(pviews.take(0)));
    while i < m
        invariant
            i <= m,
            m == pieces@.len(),
            pviews == views_of(pieces@),
            views_of(pairs@) == query_encoded_pairs(pviews.take(i as int)),
        decreases m - i,
    {
        let ghost old_pairs = views_of(pairs@);
        let piece = &pieces[i];
        proof {
            lemma_spec_find_from(piece@, '=', 0);
        }
        let e = find_from(piece, '=', 0);
        let pn = piece.len();
        if e < pn {
            let k = subvec(piece, 0, e);
            let val = subvec(piece, e + 1, pn);
            let sig_key = chars_of("X-Amz-Signature");
            if !chars_eq(&k, &sig_key) {
                let ek = pct_encode(string_of(&k).as_str());
                let ev = pct_encode(string_of(&val).as_str());
                let mut pair = chars_of(ek.as_str());
                pair.push('=');
                let evc = chars_of(ev.as_str());
                let mut t: usize = 0;
                let tn = evc.len();
                while t < tn
                    invariant
                        t <= tn,
                        tn == evc@.len(),
                        pair@ == ek@ + seq!['='] + evc@.take(t as int),
                    decreases tn - t,
                {
                    let ghost before = pair@;
                    pair.push(evc[t]);
                    assert(before.push(evc@[t as int]) =~= ek@ + seq!['='] + evc@.take(t + 1));
                    t = t + 1;
                }
                assert(evc@.take(tn as int) =~= ev@);
                assert(pair@ =~= spec_pct_encode(k@) + seq!['='] + spec_pct_encode(val@));
                pairs.push(pair);
                assert(views_of(pairs@) =~= old_pairs + query_piece_encoded(pviews[i as int]));
            } else {
                assert(views_of(pairs@) =~= old_pairs + query_piece_encoded(pviews[i as int]));
            }
        } else {
            assert(views_of(pairs@) =~= old_pairs + query_piece_encoded(pviews[i as int]));
        }
        proof {
            assert(pviews.take(i + 1).drop_last() =~= pviews.take(i as int));
            assert(pviews.take(i + 1).last() == pviews[i as int]);
        }
        i = i + 1;
    }
    assert(pviews.take(m as int) =~= pviews);
    let sorted = sort_lex(pairs);
    let joined = join_char(&sorted, '&');
    string_of(&joined)
}

// ---------------------------------------------------------------------------
// String to sign
// ---------------------------------------------------------------------------

/// The canonical header lines for the signed header names, in the given
/// order: `name:value\n` each, values looked up case-insensitively.
pub open spec fn spec_canonical_headers(
    hs: Seq<(Seq<char>, Seq<char>)>,
    signed: Seq<Seq<char>>,
) -> Seq<char>
    decreases signed.len(),
{
    if signed.len() == 0 {
        Seq::<char>::empty()
    } else {
        signed.first() + seq![':'] + spec_get_header(hs, signed.first(), Seq::<char>::empty())
            + seq!['\n'] + spec_canonical_headers(hs, signed.drop_first())
    }
}

/// The canonical request: method, path, canonical query, canonical headers,
/// the signed-header list and the content hash, newline-separated.
pub open spec fn spec_canonical_request(
    method: Seq<char>,
    path: Seq<char>,
    query: Seq<char>,
    hs: Seq<(Seq<char>, Seq<char>)>,
    signed: Seq<Seq<char>>,
) -> Seq<char> {
    method + seq!['\n'] + path + seq!['\n'] + spec_canonical_query(query) + seq!['\n']
        + spec_canonical_headers(hs, signed) + seq!['\n'] + spec_join(signed, ';') + seq!['\n']
        + spec_get_header(hs, "X-Amz-Content-Sha256"@, "UNSIGNED-PAYLOAD"@)
}

/// The string to sign: the scheme name, the request date, the credential
/// scope and the hex SHA-256 of the canonical request, newline-separated.
pub open spec fn spec_string_to_sign(
    method: Seq<char>,
    path: Seq<char>,
    query: Seq<char>,
    hs: Seq<(Seq<char>, Seq<char>)>,
    creds: Seq<Seq<char>>,
    signed: Seq<Seq<char>>,
) -> Seq<char> {
    "AWS4-HMAC-SHA256"@ + seq!['\n'] + spec_get_header(hs, "X-Amz-Date"@, Seq::<char>::empty())
        + seq!['\n'] + (creds[1] + seq!['/'] + creds[2] + seq!['/'] + creds[3] + seq!['/']
        + creds[4]) + seq!['\n'] + spec_sha256_hex(
        spec_canonical_request(method, path, query, hs, signed),
    )
}

fn append_chars(out: &mut String, piece: &Vec<char>)
    ensures
        final(out)@ == old(out)@ + piece@,
{
    let n = piece.len();
    let ghost base = out@;
    let mut k: usize = 0;
    assert(base + piece@.take(0) =~= base);
    while k < n
        invariant
            k <= n,
            n == piece@.len(),
            out@ == base + piece@.take(k as int),
        decreases n - k,
    {
        let ghost before = out@;
        push_char(out, piece[k]);
        assert(before.push(piece@[k as int]) =~= base + piece@.take(k + 1));
        k = k + 1;
    }
    assert(piece@.take(n as int) =~= piece@);
}

/// Build the string to sign for a request, given the credential scope parts
/// and the signed header names.
pub fn get_string_to_sign(
    request: &SigRequest,
    creds: &Vec<Vec<char>>,
    signed: &Vec<Vec<char>>,
) -> (r: String)
    requires
        creds@.len() == 5,
    ensures
        r@ == spec_string_to_sign(
            request.method@,
            request.path@,
            request.query@,
            pair_views(request.headers@),
            views_of(creds@),
            views_of(signed@),
        ),
{
    let ghost hs = pair_views(request.headers@);
    // Canonical headers, walking the signed names in order.
    let mut canonical_headers = String::new();
    let m = signed.len();
    let mut i: usize = 0;
    assert(views_of(signed@).skip(0) == views_of(signed@));
    while i < m
        invariant
            i <= m,
            m == signed@.len(),
            hs == pair_views(request.headers@),
            spec_canonical_headers(hs, views_of(signed@)) == canonical_headers@
                + spec_canonical_headers(hs, views_of(signed@).skip(i as int)),
        decreases m - i,
    {
        let ghost mid = views_of(signed@).skip(i as int);
        proof {
            assert(mid.first() == views_of(signed@)[i as int]);
            assert(mid.drop_first() =~= views_of(signed@).skip(i + 1));
        }
        let name = string_of(&signed[i]);
        let value = get_header(&request.headers, name.as_str(), None);
        append_chars(&mut canonical_headers, &signed[i]);
        push_char(&mut canonical_headers, ':');
        canonical_headers.append(value.as_str());
        push_char(&mut canonical_headers, '\n');
        i = i + 1;
    }
    assert(views_of(signed@).skip(m as int) =~= Seq::<Seq<char>>::empty());

    let content_hash = get_header(
        &request.headers,
        "X-Amz-Content-Sha256",
        Some(String::from_str("UNSIGNED-PAYLOAD")),
    );
    let canonical_query = get_query_string(request.query.as_str());

    let mut canonical_request = String::new();
    canonical_request.append(request.method.as_str());
    push_char(&mut canonical_request, '\n');
    canonical_request.append(request.path.as_str());
    push_char(&mut canonical_request, '\n');
    canonical_request.append(canonical_query.as_str());
    push_char(&mut canonical_request, '\n');
    canonical_request.append(canonical_headers.as_str());
    push_char(&mut canonical_request, '\n');
    let signed_joined = join_char(signed, ';');
    append_chars(&mut canonical_request, &signed_joined);
    push_char(&mut canonical_request, '\n');
    canonical_request.append(content_hash.as_str());
    assert(canonical_request@ =~= spec_canonical_request(
        request.method@,
        request.path@,
        request.query@,
        hs,
        views_of(signed@),
    ));

    let request_hash = sha256_hex(canonical_request.as_str());

    let mut out = String::new();
    out.append("AWS4-HMAC-SHA256");
    push_char(&mut out, '\n');
    let date = get_header(&request.headers, "X-Amz-Date", None);
    out.append(date.as_str());
    push_char(&mut out, '\n');
    append_chars(&mut out, &creds[1]);
    push_char(&mut out, '/');
    append_chars(&mut out, &creds[2]);
    push_char(&mut out, '/');
    append_chars(&mut out, &creds[3]);
    push_char(&mut out, '/');
    append_chars(&mut out, &creds[4]);
    push_char(&mut out, '\n');
    out.append(request_hash.as_str());
    assert(out@ =~= spec_string_to_sign(
        request.method@,
        request.path@,
        request.query@,
        hs,
        views_of(creds@),
        views_of(signed@),
    ));
    out
}

// ---------------------------------------------------------------------------
// Verification
// ---------------------------------------------------------------------------

/// The SigV4 signing key: the secret run through the HMAC chain over date,
/// region, service and the terminator.
pub open spec fn spec_signing_key(secret: Seq<char>, creds: Seq<Seq<char>>) -> Seq<u8> {
    let k_date = hmac_sha256_of(encode_utf8("AWS4"@ + secret), encode_utf8(creds[1]));
    let k_region = hmac_sha256_of(k_date, encode_utf8(creds[2]));
    let k_service = hmac_sha256_of(k_region, encode_utf8(creds[3]));
    hmac_sha256_of(k_service, encode_utf8(creds[4]))
}

/// The signature the server computes for a request.
pub open spec fn spec_expected_signature(
    method: Seq<char>,
    path: Seq<char>,
    query: Seq<char>,
    hs: Seq<(Seq<char>, Seq<char>)>,
    secret: Seq<char>,
    creds: Seq<Seq<char>>,
    signed: Seq<Seq<char>>,
) -> Seq<char> {
    hex_of(
        hmac_sha256_of(
            spec_signing_key(secret, creds),
            encode_utf8(spec_string_to_sign(method, path, query, hs, creds, signed)),
        ),
    )
}

/// Whether a request passes SigV4 verification: a well-formed `Authorization`
/// header whose credential names the configured access key and whose
/// signature equals the one computed from the secret.
pub open spec fn spec_verify(
    method: Seq<char>,
    path: Seq<char>,
    query: Seq<char>,
    hs: Seq<(Seq<char>, Seq<char>)>,
    access_key: Seq<char>,
    secret_key: Seq<char>,
) -> bool {
    let auth = spec_get_header(hs, "Authorization"@, Seq::<char>::empty());
    if auth.len() == 0 {
        false
    } else {
        let comps = spec_get_components(auth);
        let signature = match spec_component_lookup(comps, "Signature"@) {
            Some(s) => s,
            None => Seq::<char>::empty(),
        };
        let creds = spec_split(
            match spec_component_lookup(comps, "Credential"@) {
                Some(c) => c,
                None => Seq::<char>::empty(),
            },
            '/',
        );
        if signature.len() == 0 || creds.len() != 5 {
            false
        } else if creds[0] != access_key {
            false
        } else {
            let signed = spec_split(
                match spec_component_lookup(comps, "SignedHeaders"@) {
                    Some(s) => s,
                    None => Seq::<char>::empty(),
                },
                ';',
            );
            spec_expected_signature(method, path, query, hs, secret_key, creds, signed)
                == signature
        }
    }
}

/// Verify a request's SigV4 signature against the configured credential.
pub fn internal_verify(request: &SigRequest, access_key: &str, secret_key: &str) -> (r: bool)
    ensures
        r == spec_verify(
            request.method@,
            request.path@,
            request.query@,
            pair_views(request.headers@),
            access_key@,
            secret_key@,
        ),
{
    let ghost hs = pair_views(request.headers@);
    let authorization = get_header(&request.headers, "Authorization", None);
    if authorization.as_str().is_empty() {
        return false;
    }

    let components = get_components(authorization.as_str());
    let signature = match lookup_component(&components, "Signature") {
        Some(s) => s,
        None => String::new(),
    };
    let credential = match lookup_component(&components, "Credential") {
        Some(c) => c,
        None => String::new(),
    };
    let cred_chars = chars_of(credential.as_str());
    let creds = split_char(&cred_chars, '/');

    if signature.as_str().is_empty() || creds.len() != 5 {
        return false;
    }
    let key_chars = chars_of(access_key);
    if !chars_eq(&creds[0], &key_chars) {
        return false;
    }

    let signed_headers = match lookup_component(&components, "SignedHeaders") {
        Some(s) => s,
        None => String::new(),
    };
    let signed_chars = chars_of(signed_headers.as_str());
    let signed = split_char(&signed_chars, ';');

    let string_to_sign = get_string_to_sign(request, &creds, &signed);

    let mut first_key = String::from_str("AWS4");
    first_key.append(secret_key);
    let date_key = hmac_sha256(&first_key.as_str().as_bytes_vec(), string_of(&creds[1]).as_str());
    let region_key = hmac_sha256(&date_key, string_of(&creds[2]).as_str());
    let service_key = hmac_sha256(&region_key, string_of(&creds[3]).as_str());
    let signing_key = hmac_sha256(&service_key, string_of(&creds[4]).as_str());
    let signature_bytes = hmac_sha256(&signing_key, string_to_sign.as_str());
    let calculated = to_hex_lower(signature_bytes.as_slice());

    let calc_chars = chars_of(calculated.as_str());
    let sig_chars = chars_of(signature.as_str());
    chars_eq(&calc_chars, &sig_chars)
}

/// The middleware decision for a write request: pass it on, or answer `403`.
pub fn signature_verification(signatures: &SignatureVerificationState, request: &SigRequest) -> (r:
    bool)
    ensures
        r == spec_verify(
            request.method@,
            request.path@,
            request.query@,
            pair_views(request.headers@),
            signatures.key@,
            signatures.secret@,
        ),
{
    internal_verify(request, signatures.key.as_str(), signatures.secret.as_str())
}

/// A `X-Amz-Signature` pair appended to a query string leaves the canonical
/// query unchanged: the pair that carries the signature never takes part in
/// what is signed.
pub proof fn lemma_signature_query_param_ignored(q: Seq<char>, v: Seq<char>)
    requires
        forall|i: int| 0 <= i < v.len() ==> v[i] != '&',
    ensures
        spec_canonical_query(q + seq!['&'] + (amz_signature_key() + seq!['='] + v))
            == spec_canonical_query(q),
{
    reveal_strlit("X-Amz-Signature");
    let key = amz_signature_key();
    let b = key + seq!['='] + v;
    assert(forall|i: int| 0 <= i < key.len() ==> key[i] != '&' && key[i] != '=');
    assert(forall|i: int| 0 <= i < b.len() ==> b[i] != '&') by {
        assert(forall|i: int| 0 <= i < key.len() ==> b[i] == key[i]);
        assert(b[key.len() as int] == '=');
        assert(forall|i: int| key.len() + 1 <= i < b.len() ==> b[i] == v[i - key.len() - 1]);
    }
    crate::text::lemma_split_no_sep(b, '&');
    crate::text::lemma_split_sep_concat(q, b, '&');
    assert(spec_split(q + seq!['&'] + b, '&') == spec_split(q, '&') + seq![b]);
    // The appended piece encodes to nothing: its key is the excluded one.
    assert(query_piece_encoded(b) =~= Seq::<Seq<char>>::empty()) by {
        assert(b[15] == '=');
        assert(forall|j: int| 0 <= j < 15 ==> b[j] != '=');
        crate::text::lemma_find_from_exact(b, '=', 0, 15);
        assert(b.subrange(0, 15) =~= key);
    }
    let ps = spec_split(q, '&');
    assert((ps + seq![b]).drop_last() =~= ps);
    assert((ps + seq![b]).last() == b);
    assert(query_encoded_pairs(ps + seq![b]) =~= query_encoded_pairs(ps));
}

} // verus!
