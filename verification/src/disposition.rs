//! The `Content-Disposition` filename codec (RFC 5987 / RFC 8187 style).
//!
//! Parsing reads an inbound header: it looks for a `filename*=utf-8''…`
//! parameter (the `utf` tag case-insensitive, the dash optional) and,
//! independently, for the first `;`-separated part that begins with
//! `filename=`. When the `filename*` value percent-decodes to itself the
//! client sent it unencoded by mistake, and the encoded form is stored
//! instead.
//!
//! Building renders the stored pair back into `filename="…"` followed, when
//! an encoded form exists, by `; filename*=utf-8''…`.

use vstd::prelude::*;

verus! {

use crate::percent::{spec_pct_decode, spec_pct_encode, pct_decode, pct_encode};
use crate::text::{
    spec_split, spec_find_from, spec_trim, spec_trim_start, spec_trim_end, spec_trim_quotes,
    spec_trim_quotes_start, spec_trim_quotes_end, spec_starts_with, lower_char, views_of,
    lemma_spec_find_from, lemma_find_from_exact, chars_of, string_of, split_char, match_at, subvec,
    find_from, trim_ascii, trim_quotes, char_to_lower, push_char,
};
use vstd::string::StringExecFns;

/// The filenames carried by a `Content-Disposition` header: the display name
/// and the percent-encoded form for `filename*`.
pub struct ContentDisposition {
    pub filename: Option<String>,
    pub encoded_filename: Option<String>,
}

// ---------------------------------------------------------------------------
// Specification
// ---------------------------------------------------------------------------

/// The characters `filename*=`.
pub open spec fn enc_marker() -> Seq<char> {
    seq!['f', 'i', 'l', 'e', 'n', 'a', 'm', 'e', '*', '=']
}

/// The characters `filename=`.
pub open spec fn filename_marker() -> Seq<char> {
    seq!['f', 'i', 'l', 'e', 'n', 'a', 'm', 'e', '=']
}

/// The characters `; filename*=utf-8''`, as the builder emits them.
pub open spec fn enc_infix() -> Seq<char> {
    seq![';', ' ', 'f', 'i', 'l', 'e', 'n', 'a', 'm', 'e', '*', '=', 'u', 't', 'f', '-', '8', '\'', '\'']
}

/// If `filename*=` followed by a `utf-8''` tag stands at index `i`, the index
/// just after the tag; `-1` otherwise.
pub open spec fn enc_tag_end(s: Seq<char>, i: int) -> int {
    if !(0 <= i && i + 10 <= s.len() && s.subrange(i, i + 10) == enc_marker()) {
        -1
    } else {
        let k = i + 10;
        if !(k + 3 <= s.len() && lower_char(s[k]) == 'u' && lower_char(s[k + 1]) == 't'
            && lower_char(s[k + 2]) == 'f') {
            -1
        } else {
            let m = if k + 3 < s.len() && s[k + 3] == '-' {
                k + 4
            } else {
                k + 3
            };
            if m + 3 <= s.len() && s[m] == '8' && s[m + 1] == '\'' && s[m + 2] == '\'' {
                m + 3
            } else {
                -1
            }
        }
    }
}

/// The first index at or after `i` where an encoded-filename tag stands, or
/// `-1` when there is none.
pub open spec fn spec_find_enc_tag(s: Seq<char>, i: int) -> int
    decreases s.len() - i,
{
    if !(0 <= i && i < s.len()) {
        -1
    } else if enc_tag_end(s, i) >= 0 {
        i
    } else {
        spec_find_enc_tag(s, i + 1)
    }
}

/// The encoded filename that parsing stores: the captured `filename*` value
/// itself when decoding changes it, its encoded form when it was sent
/// already decoded, and nothing when it does not decode.
pub open spec fn spec_parse_encoded(s: Seq<char>) -> Option<Seq<char>> {
    let i = spec_find_enc_tag(s, 0);
    if i < 0 {
        None
    } else {
        let j = enc_tag_end(s, i);
        let raw = s.subrange(j, spec_find_from(s, ';', j));
        match spec_pct_decode(raw) {
            Some(d) => if d != raw {
                Some(raw)
            } else {
                Some(spec_pct_encode(raw))
            },
            None => None,
        }
    }
}

/// Whether a `;`-separated part carries the plain `filename=` parameter.
pub open spec fn is_filename_piece(p: Seq<char>) -> bool {
    spec_starts_with(spec_trim(p), filename_marker())
}

pub open spec fn spec_first_filename_piece(parts: Seq<Seq<char>>, k: int) -> int
    decreases parts.len() - k,
{
    if !(0 <= k && k < parts.len()) {
        -1
    } else if is_filename_piece(parts[k]) {
        k
    } else {
        spec_first_filename_piece(parts, k + 1)
    }
}

/// The value of a `filename=` part: what stands between the first `=` and
/// the next `=` or the end, without surrounding quotes.
pub open spec fn spec_filename_value(p: Seq<char>) -> Seq<char> {
    let e1 = spec_find_from(p, '=', 0);
    let e2 = spec_find_from(p, '=', e1 + 1);
    spec_trim_quotes(p.subrange(e1 + 1, e2))
}

/// The display filename that parsing stores.
pub open spec fn spec_parse_filename(s: Seq<char>) -> Option<Seq<char>> {
    let parts = spec_split(s, ';');
    let k = spec_first_filename_piece(parts, 0);
    if k < 0 {
        None
    } else {
        Some(spec_filename_value(parts[k]))
    }
}

/// What building renders: nothing for an empty name, else `filename="…"`
/// with the optional `; filename*=utf-8''…` tail.
pub open spec fn spec_build_cd(f: Seq<char>, ef: Option<Seq<char>>) -> Seq<char> {
    if f.len() == 0 {
        Seq::<char>::empty()
    } else {
        let base = filename_marker() + seq!['"'] + f + seq!['"'];
        match ef {
            Some(e) => base + enc_infix() + e,
            None => base,
        }
    }
}

// ---------------------------------------------------------------------------
// Executable parser
// ---------------------------------------------------------------------------

fn enc_marker_vec() -> (r: Vec<char>)
    ensures
        r@ == enc_marker(),
{
    let mut r: Vec<char> = Vec::new();
    r.push('f');
    r.push('i');
    r.push('l');
    r.push('e');
    r.push('n');
    r.push('a');
    r.push('m');
    r.push('e');
    r.push('*');
    r.push('=');
    assert(r@ =~= enc_marker());
    r
}

fn filename_marker_vec() -> (r: Vec<char>)
    ensures
        r@ == filename_marker(),
{
    let mut r: Vec<char> = Vec::new();
    r.push('f');
    r.push('i');
    r.push('l');
    r.push('e');
    r.push('n');
    r.push('a');
    r.push('m');
    r.push('e');
    r.push('=');
    assert(r@ =~= filename_marker());
    r
}

fn enc_tag_end_at(v: &Vec<char>, i: usize, marker: &Vec<char>) -> (r: Option<usize>)
    requires
        i < v@.len(),
        marker@ == enc_marker(),
    ensures
        r matches Some(j) ==> enc_tag_end(v@, i as int) == j,
        r is None ==> enc_tag_end(v@, i as int) == -1,
{
    let n = v.len();
    if !match_at(v, i, marker) {
        return None;
    }
    assert(i + 10 <= n);
    let k = i + 10;
    if n - k < 3 {
        return None;
    }
    if !(char_to_lower(v[k]) == 'u' && char_to_lower(v[k + 1]) == 't' && char_to_lower(v[k + 2])
        == 'f') {
        return None;
    }
    let m = if k + 3 < n && v[k + 3] == '-' {
        k + 4
    } else {
        k + 3
    };
    if n - m >= 3 && v[m] == '8' && v[m + 1] == '\'' && v[m + 2] == '\'' {
        Some(m + 3)
    } else {
        None
    }
}

/// Read the filenames out of a `Content-Disposition` header value.
pub fn parse_content_disposition(content_disposition: &str) -> (r: ContentDisposition)
    ensures
        r.filename.deep_view() == spec_parse_filename(content_disposition@),
        r.encoded_filename.deep_view() == spec_parse_encoded(content_disposition@),
{
    let v = chars_of(content_disposition);
    let n = v.len();
    let marker = enc_marker_vec();

    // The encoded form, from the first `filename*=utf-8''` tag.
    let mut encoded_filename: Option<String> = None;
    let mut i: usize = 0;
    let mut tag: Option<(usize, usize)> = None;
    while i < n
        invariant_except_break
            i <= n,
            tag is None,
            spec_find_enc_tag(v@, 0) == spec_find_enc_tag(v@, i as int),
        invariant
            n == v@.len(),
            marker@ == enc_marker(),
        ensures
            tag is None ==> spec_find_enc_tag(v@, 0) == -1,
            tag matches Some((a, b)) ==> spec_find_enc_tag(v@, 0) == a && enc_tag_end(
                v@,
                a as int,
            ) == b && a < n && b <= n,
        decreases n - i,
    {
        match enc_tag_end_at(&v, i, &marker) {
            Some(j) => {
                assert(j <= n) by {
                    assert(enc_tag_end(v@, i as int) == j);
                }
                assert(spec_find_enc_tag(v@, i as int) == i);
                tag = Some((i, j));
                break;
            },
            None => {
                i = i + 1;
            },
        }
    }
    match tag {
        Some((_a, j)) => {
            let cap = find_from(&v, ';', j);
            proof {
                lemma_spec_find_from(v@, ';', j as int);
            }
            let raw_vec = subvec(&v, j, cap);
            let raw = string_of(&raw_vec);
            match pct_decode(raw.as_str()) {
                Some(d) => {
                    if !crate::text::str_eq(d.as_str(), raw.as_str()) {
                        encoded_filename = Some(raw);
                    } else {
                        encoded_filename = Some(pct_encode(raw.as_str()));
                    }
                },
                None => {},
            }
        },
        None => {
            assert(spec_find_enc_tag(v@, n as int) == -1);
        },
    }

    // The display filename, from the first `filename=` part.
    let mut filename: Option<String> = None;
    let pieces = split_char(&v, ';');
    let fmarker = filename_marker_vec();
    let m = pieces.len();
    let mut k: usize = 0;
    while k < m
        invariant_except_break
            k <= m,
            filename is None,
            spec_first_filename_piece(views_of(pieces@), 0) == spec_first_filename_piece(
                views_of(pieces@),
                k as int,
            ),
        invariant
            m == pieces@.len(),
            fmarker@ == filename_marker(),
            views_of(pieces@) == spec_split(v@, ';'),
        ensures
            filename is None ==> spec_first_filename_piece(views_of(pieces@), 0) == -1,
            filename matches Some(f) ==> {
                let kk = spec_first_filename_piece(views_of(pieces@), 0);
                0 <= kk < m && f@ == spec_filename_value(views_of(pieces@)[kk])
            },
        decreases m - k,
    {
        let piece = &pieces[k];
        let trimmed = trim_ascii(piece);
        if match_at(&trimmed, 0, &fmarker) {
            assert(is_filename_piece(views_of(pieces@)[k as int]));
            proof {
                lemma_trim_has_eq(piece@);
                lemma_spec_find_from(piece@, '=', 0);
            }
            let e1 = find_from(piece, '=', 0);
            proof {
                lemma_spec_find_from(piece@, '=', e1 + 1);
            }
            let e2 = find_from(piece, '=', e1 + 1);
            assert(spec_first_filename_piece(views_of(pieces@), k as int) == k);
            let value = trim_quotes(&subvec(piece, e1 + 1, e2));
            filename = Some(string_of(&value));
            break;
        } else {
            assert(!is_filename_piece(views_of(pieces@)[k as int]));
            k = k + 1;
        }
    }
    if filename.is_none() {
        assert(spec_first_filename_piece(views_of(pieces@), m as int) == -1);
    }

    ContentDisposition { filename, encoded_filename }
}

/// A part that begins (after trimming) with `filename=` holds an `=` sign.
proof fn lemma_trim_has_eq(p: Seq<char>)
    requires
        spec_starts_with(spec_trim(p), filename_marker()),
    ensures
        spec_find_from(p, '=', 0) < p.len(),
{
    let t = spec_trim(p);
    assert(t[8] == '=');
    lemma_trim_start_suffix(p);
    let ts = spec_trim_start(p);
    lemma_trim_end_prefix(ts);
    let a = choose|a: int| 0 <= a <= p.len() && ts == p.subrange(a, p.len() as int);
    let b = choose|b: int| 0 <= b <= ts.len() && t == ts.subrange(0, b);
    assert(p[a + 8] == '=');
    lemma_spec_find_from(p, '=', 0);
    if spec_find_from(p, '=', 0) == p.len() {
        assert(p[a + 8] != '=');
    }
}

proof fn lemma_trim_start_suffix(s: Seq<char>)
    ensures
        exists|a: int|
            0 <= a <= s.len() && spec_trim_start(s) == s.subrange(a, s.len() as int),
    decreases s.len(),
{
    if s.len() > 0 && crate::text::is_ascii_space(s.first()) {
        lemma_trim_start_suffix(s.drop_first());
        let t = s.drop_first();
        let a = choose|a: int|
            0 <= a <= t.len() && spec_trim_start(t) == t.subrange(a, t.len() as int);
        assert(t.subrange(a, t.len() as int) =~= s.subrange(a + 1, s.len() as int));
    } else {
        assert(spec_trim_start(s) == s.subrange(0, s.len() as int)) by {
            assert(s.subrange(0, s.len() as int) =~= s);
        }
    }
}

proof fn lemma_trim_end_prefix(s: Seq<char>)
    ensures
        exists|b: int| 0 <= b <= s.len() && spec_trim_end(s) == s.subrange(0, b),
    decreases s.len(),
{
    if s.len() > 0 && crate::text::is_ascii_space(s.last()) {
        lemma_trim_end_prefix(s.drop_last());
        let t = s.drop_last();
        let b = choose|b: int| 0 <= b <= t.len() && spec_trim_end(t) == t.subrange(0, b);
        assert(t.subrange(0, b) =~= s.subrange(0, b));
    } else {
        assert(spec_trim_end(s) == s.subrange(0, s.len() as int)) by {
            assert(s.subrange(0, s.len() as int) =~= s);
        }
    }
}

// ---------------------------------------------------------------------------
// Executable builder
// ---------------------------------------------------------------------------

/// Render the stored filenames for an outbound `Content-Disposition` header.
pub fn build_content_disposition_filename(filename: String, encoded_filename: Option<String>) -> (r:
    String)
    ensures
        r@ == spec_build_cd(filename@, encoded_filename.deep_view()),
{
    if filename.as_str().is_empty() {
        return String::new();
    }
    let mut out = String::new();
    let fvec = chars_of(filename.as_str());
    let mvec = filename_marker_vec();
    let mut parts: Vec<char> = Vec::new();
    out.append(string_of(&mvec).as_str());
    push_char(&mut out, '"');
    out.append(filename.as_str());
    push_char(&mut out, '"');
    assert(out@ =~= filename_marker() + seq!['"'] + filename@ + seq!['"']);
    match encoded_filename {
        Some(e) => {
            let ivec = enc_infix_vec();
            out.append(string_of(&ivec).as_str());
            out.append(e.as_str());
            assert(out@ =~= (filename_marker() + seq!['"'] + filename@ + seq!['"']) + enc_infix()
                + e@);
        },
        None => {},
    }
    out
}

// ---------------------------------------------------------------------------
// Round trip
// ---------------------------------------------------------------------------

proof fn lemma_find_enc_tag_step(s: Seq<char>, start: int, t: int)
    requires
        0 <= start <= t < s.len(),
        forall|j: int| start <= j < t ==> enc_tag_end(s, j) == -1,
        enc_tag_end(s, t) >= 0,
    ensures
        spec_find_enc_tag(s, start) == t,
    decreases t - start,
{
    if start < t {
        lemma_find_enc_tag_step(s, start + 1, t);
    }
}

proof fn lemma_find_enc_tag_absent(s: Seq<char>, start: int)
    requires
        0 <= start <= s.len(),
        forall|j: int| start <= j < s.len() ==> enc_tag_end(s, j) == -1,
    ensures
        spec_find_enc_tag(s, start) == -1,
    decreases s.len() - start,
{
    if start < s.len() {
        lemma_find_enc_tag_absent(s, start + 1);
    }
}

/// The unquoted value of the piece `filename="f"` is `f` again, when `f`
/// holds no quote, separator or equals sign.
proof fn lemma_filename_piece_value(f: Seq<char>)
    requires
        f.len() > 0,
        forall|i: int| 0 <= i < f.len() ==> f[i] != ';' && f[i] != '"' && f[i] != '=',
    ensures
        is_filename_piece(filename_marker() + seq!['"'] + f + seq!['"']),
        spec_filename_value(filename_marker() + seq!['"'] + f + seq!['"']) == f,
{
    let a = filename_marker() + seq!['"'] + f + seq!['"'];
    let la = a.len() as int;
    assert(la == 11 + f.len());
    // `a` is already trimmed: no whitespace at either end.
    assert(a.first() == 'f');
    assert(a.last() == '"');
    assert(spec_trim(a) == a);
    assert(a.subrange(0, 9) =~= filename_marker());
    assert(is_filename_piece(a));
    // The first equals sign is the marker's, the value runs to the end.
    assert(a[8] == '=');
    assert(forall|j: int| 0 <= j < 8 ==> a[j] == filename_marker()[j]);
    lemma_find_from_exact(a, '=', 0, 8);
    assert(forall|j: int| 9 <= j < la ==> a[j] != '=') by {
        assert(a[9] == '"');
        assert(a[la - 1] == '"');
        assert(forall|j: int| 10 <= j < la - 1 ==> a[j] == f[j - 10]);
    }
    crate::text::lemma_find_from_none(a, '=', 9);
    let inner = a.subrange(9, la);
    assert(inner =~= seq!['"'] + f + seq!['"']);
    // Quote trimming peels exactly the two quotes.
    assert(inner.first() == '"');
    assert(inner.drop_first() =~= f + seq!['"']);
    assert(spec_trim_quotes_start(inner) == spec_trim_quotes_start(f + seq!['"']));
    assert((f + seq!['"']).first() == f[0]);
    assert(f[0] != '"');
    assert(spec_trim_quotes_start(f + seq!['"']) == f + seq!['"']);
    assert((f + seq!['"']).last() == '"');
    assert((f + seq!['"']).drop_last() =~= f);
    assert(spec_trim_quotes_end(f + seq!['"']) == spec_trim_quotes_end(f));
    assert(f.last() != '"');
    assert(spec_trim_quotes_end(f) == f);
}

/// The round trip for a bare name: `filename="f"` parses back to `f` and
/// carries no encoded form.
#[verifier::rlimit(60)]
proof fn lemma_round_trip_plain(f: Seq<char>)
    requires
        f.len() > 0,
        forall|i: int| 0 <= i < f.len() ==> f[i] != ';' && f[i] != '"' && f[i] != '=',
    ensures
        spec_parse_filename(spec_build_cd(f, Option::<Seq<char>>::None)) == Some(f),
        spec_parse_encoded(spec_build_cd(f, Option::<Seq<char>>::None)) is None,
{
    let a = filename_marker() + seq!['"'] + f + seq!['"'];
    let la = a.len() as int;
    assert(la == 11 + f.len());
    lemma_filename_piece_value(f);
    let s = spec_build_cd(f, Option::<Seq<char>>::None);
    assert(s == a);
    // filename: one piece, and it matches.
    crate::text::lemma_split_no_sep(a, ';');
    assert(spec_split(s, ';') == seq![a]);
    assert(spec_first_filename_piece(seq![a], 0) == 0);
    assert(spec_parse_filename(s) == Some(f));
    // encoded: no tag anywhere, since no `=` stands at offset 9 of any
    // window.
    assert(forall|j: int| 0 <= j < la ==> enc_tag_end(s, j) == -1) by {
        assert forall|j: int| 0 <= j < la implies enc_tag_end(s, j) == -1 by {
            if j + 10 <= la {
                assert(s[j + 9] != '=') by {
                    assert(forall|p: int| 9 <= p < la ==> a[p] != '=');
                }
                assert(s.subrange(j, j + 10)[9] == s[j + 9]);
                assert(s.subrange(j, j + 10) != enc_marker());
            }
        }
    }
    lemma_find_enc_tag_absent(s, 0);
    assert(spec_parse_encoded(s) is None);
}

/// The round trip for a name with an encoded form: the emitted header parses
/// back to `f`, and the captured `filename*` value is treated as the parser
/// treats any captured value.
#[verifier::rlimit(80)]
proof fn lemma_round_trip_encoded(f: Seq<char>, e: Seq<char>)
    requires
        f.len() > 0,
        forall|i: int| 0 <= i < f.len() ==> f[i] != ';' && f[i] != '"' && f[i] != '=',
        forall|i: int| 0 <= i < e.len() ==> e[i] != ';',
    ensures
        spec_parse_filename(spec_build_cd(f, Some(e))) == Some(f),
        spec_parse_encoded(spec_build_cd(f, Some(e))) == match spec_pct_decode(e) {
            Some(d) => if d != e {
                Some(e)
            } else {
                Some(spec_pct_encode(e))
            },
            None => Option::<Seq<char>>::None,
        },
{
    let a = filename_marker() + seq!['"'] + f + seq!['"'];
    let la = a.len() as int;
    assert(la == 11 + f.len());
    lemma_filename_piece_value(f);
    assert(forall|i: int| 0 <= i < la ==> a[i] != ';') by {
        assert(forall|j: int| 10 <= j < la - 1 ==> a[j] == f[j - 10]);
        assert(a[9] == '"' && a[la - 1] == '"');
        assert(forall|j: int| 0 <= j < 9 ==> a[j] == filename_marker()[j]);
    }
    let s = spec_build_cd(f, Some(e));
    let b = enc_infix().drop_first() + e;
    assert(s =~= a + seq![';'] + b);
    // filename: two pieces, the first matches.
    crate::text::lemma_split_no_sep(a, ';');
    assert(forall|i: int| 0 <= i < b.len() ==> b[i] != ';') by {
        assert(forall|i: int| 0 <= i < 18 ==> b[i] == enc_infix()[i + 1]);
        assert(forall|i: int| 18 <= i < b.len() ==> b[i] == e[i - 18]);
    }
    crate::text::lemma_split_no_sep(b, ';');
    crate::text::lemma_split_sep_concat(a, b, ';');
    assert(spec_split(s, ';') == seq![a] + seq![b]);
    assert((seq![a] + seq![b])[0] == a);
    assert(spec_first_filename_piece(seq![a] + seq![b], 0) == 0);
    assert(spec_parse_filename(s) == Some(f));
    // encoded: the one tag stands two characters into the infix.
    let i0 = la + 2;
    let ls = s.len() as int;
    assert(ls == la + 19 + e.len());
    assert(forall|p: int| 0 <= p < 19 ==> s[la + p] == enc_infix()[p]);
    assert(forall|p: int| 0 <= p < e.len() ==> s[la + 19 + p] == e[p]);
    assert(forall|p: int| 0 <= p < la ==> s[p] == a[p]);
    // Where `=` can stand below the tag's own equals sign.
    assert(forall|p: int| 9 <= p < la + 11 && p != la + 11 ==> s[p] != '=') by {
        assert(forall|p: int| 9 <= p < la ==> a[p] != '=');
        assert(forall|p: int| 0 <= p < 11 ==> enc_infix()[p] != '=');
    }
    assert(forall|j: int| 0 <= j < i0 ==> enc_tag_end(s, j) == -1) by {
        assert forall|j: int| 0 <= j < i0 implies enc_tag_end(s, j) == -1 by {
            assert(j + 9 < la + 11);
            assert(j + 9 >= 9);
            assert(s[j + 9] != '=');
            if j + 10 <= ls {
                assert(s.subrange(j, j + 10)[9] == s[j + 9]);
                assert(s.subrange(j, j + 10) != enc_marker());
            }
        }
    }
    assert(enc_tag_end(s, i0) == la + 19) by {
        assert(s.subrange(i0, i0 + 10) =~= enc_marker());
        assert(s[i0 + 10] == 'u' && s[i0 + 11] == 't' && s[i0 + 12] == 'f');
        assert(lower_char('u') == 'u' && lower_char('t') == 't' && lower_char('f') == 'f');
        assert(s[i0 + 13] == '-');
        assert(s[i0 + 14] == '8' && s[i0 + 15] == '\'' && s[i0 + 16] == '\'');
    }
    lemma_find_enc_tag_step(s, 0, i0);
    assert(spec_find_enc_tag(s, 0) == i0);
    let j = la + 19;
    assert(forall|p: int| j <= p < ls ==> s[p] != ';') by {
        assert(forall|p: int| j <= p < ls ==> s[p] == e[p - j]);
    }
    crate::text::lemma_find_from_none(s, ';', j);
    assert(s.subrange(j, ls) =~= e);
    match spec_pct_decode(e) {
        Some(d) => {
            if d != e {
                assert(spec_parse_encoded(s) == Some(e));
            } else {
                assert(spec_parse_encoded(s) == Some(spec_pct_encode(e)));
            }
        },
        None => {
            assert(spec_parse_encoded(s) is None);
        },
    }
}

/// Parsing what the builder produced yields the same pair back: the round
/// trip of the `Content-Disposition` codec.
///
/// The name must be free of `;`, `"` and `=`, which the emitted syntax cannot
/// carry, and an encoded form must be free of `;` (the emitted syntax ends
/// the captured value there) and either change under percent-decoding (the
/// normal case for a properly encoded value) or be kept fixed by
/// percent-encoding; it must not decode to invalid UTF-8.
pub proof fn lemma_content_disposition_round_trip(f: Seq<char>, ef: Option<Seq<char>>)
    requires
        f.len() > 0,
        forall|i: int| 0 <= i < f.len() ==> f[i] != ';' && f[i] != '"' && f[i] != '=',
        ef matches Some(e) ==> (forall|i: int| 0 <= i < e.len() ==> e[i] != ';')
            && match spec_pct_decode(e) {
            Some(d) => d != e || spec_pct_encode(e) == e,
            None => false,
        },
    ensures
        spec_parse_filename(spec_build_cd(f, ef)) == Some(f),
        spec_parse_encoded(spec_build_cd(f, ef)) == ef,
{
    match ef {
        None => {
            lemma_round_trip_plain(f);
        },
        Some(e) => {
            lemma_round_trip_encoded(f, e);
        },
    }
}

fn enc_infix_vec() -> (r: Vec<char>)
    ensures
        r@ == enc_infix(),
{
    let mut r: Vec<char> = Vec::new();
    r.push(';');
    r.push(' ');
    r.push('f');
    r.push('i');
    r.push('l');
    r.push('e');
    r.push('n');
    r.push('a');
    r.push('m');
    r.push('e');
    r.push('*');
    r.push('=');
    r.push('u');
    r.push('t');
    r.push('f');
    r.push('-');
    r.push('8');
    r.push('\'');
    r.push('\'');
    assert(r@ =~= enc_infix());
    r
}

} // verus!
