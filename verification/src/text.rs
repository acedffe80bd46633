//! Small string and byte utilities shared by the codec and signature modules:
//! lowercase hex encoding, ASCII case folding, splitting and joining, and the
//! few `String` primitives that the standard library provides.

use vstd::prelude::*;

verus! {

use vstd::string::StringSliceAdditionalSpecFns;
use vstd::multiset::Multiset;
use vstd::string::StrSliceExecFns;
use vstd::string::StringExecFns;

// ---------------------------------------------------------------------------
// Trusted primitives over std's String
// ---------------------------------------------------------------------------

/// Relies on String::push: appends the character to the end of the string.
#[verifier::external_body]
pub fn push_char(s: &mut String, c: char)
    ensures
        final(s)@ == old(s)@.push(c),
{
    s.push(c);
}

/// Relies on String::from_utf8: accepts exactly the valid UTF-8 byte
/// sequences and keeps the bytes unchanged.
#[verifier::external_body]
pub fn string_from_utf8(v: Vec<u8>) -> (r: Option<String>)
    ensures
        r is Some <==> vstd::utf8::valid_utf8(v@),
        r matches Some(s) ==> vstd::utf8::encode_utf8(s@) == v@,
{
    match String::from_utf8(v) {
        Ok(s) => Some(s),
        Err(_) => None,
    }
}

// ---------------------------------------------------------------------------
// Hex encoding (lowercase)
// ---------------------------------------------------------------------------

pub open spec fn spec_hex_char(n: u8) -> char {
    if n == 0 {
        '0'
    } else if n == 1 {
        '1'
    } else if n == 2 {
        '2'
    } else if n == 3 {
        '3'
    } else if n == 4 {
        '4'
    } else if n == 5 {
        '5'
    } else if n == 6 {
        '6'
    } else if n == 7 {
        '7'
    } else if n == 8 {
        '8'
    } else if n == 9 {
        '9'
    } else if n == 10 {
        'a'
    } else if n == 11 {
        'b'
    } else if n == 12 {
        'c'
    } else if n == 13 {
        'd'
    } else if n == 14 {
        'e'
    } else {
        'f'
    }
}

/// Lowercase hex rendering of a byte sequence, two digits per byte.
pub open spec fn hex_of(data: Seq<u8>) -> Seq<char>
    decreases data.len(),
{
    if data.len() == 0 {
        Seq::<char>::empty()
    } else {
        seq![spec_hex_char(data.first() / 16), spec_hex_char(data.first() % 16)]
            + hex_of(data.drop_first())
    }
}

fn hex_char(n: u8) -> (c: char)
    requires
        n < 16,
    ensures
        c == spec_hex_char(n),
{
    if n == 0 {
        '0'
    } else if n == 1 {
        '1'
    } else if n == 2 {
        '2'
    } else if n == 3 {
        '3'
    } else if n == 4 {
        '4'
    } else if n == 5 {
        '5'
    } else if n == 6 {
        '6'
    } else if n == 7 {
        '7'
    } else if n == 8 {
        '8'
    } else if n == 9 {
        '9'
    } else if n == 10 {
        'a'
    } else if n == 11 {
        'b'
    } else if n == 12 {
        'c'
    } else if n == 13 {
        'd'
    } else if n == 14 {
        'e'
    } else {
        'f'
    }
}

/// Render a byte slice as lowercase hex.
pub fn to_hex_lower(data: &[u8]) -> (r: String)
    ensures
        r@ == hex_of(data@),
{
    let mut r = String::new();
    let n = data.len();
    assert(data@.skip(0) == data@);
    for i in 0..n
        invariant
            n == data@.len(),
            hex_of(data@) =~= r@ + hex_of(data@.skip(i as int)),
            r@.len() == 2 * i,
    {
        let b = data[i];
        push_char(&mut r, hex_char(b / 16));
        push_char(&mut r, hex_char(b % 16));
        assert(data@.skip(i as int).drop_first() == data@.skip(i + 1));
    }
    r
}

pub proof fn lemma_hex_of_len(data: Seq<u8>)
    ensures
        hex_of(data).len() == 2 * data.len(),
    decreases data.len(),
{
    if data.len() > 0 {
        lemma_hex_of_len(data.drop_first());
    }
}

// ---------------------------------------------------------------------------
// Conversions between String, Vec<char> and bytes
// ---------------------------------------------------------------------------

/// Whether two character vectors hold the same characters.
pub fn chars_eq(a: &Vec<char>, b: &Vec<char>) -> (r: bool)
    ensures
        r == (a@ == b@),
{
    if a.len() != b.len() {
        return false;
    }
    let n = a.len();
    for i in 0..n
        invariant
            n == a@.len() && n == b@.len(),
            forall|j: int| 0 <= j < i ==> a@[j] == b@[j],
    {
        if a[i] != b[i] {
            return false;
        }
    }
    assert(a@ =~= b@);
    true
}

/// Whether two strings hold the same characters.
pub fn str_eq(a: &str, b: &str) -> (r: bool)
    ensures
        r == (a@ == b@),
{
    let ac = chars_of(a);
    let bc = chars_of(b);
    chars_eq(&ac, &bc)
}

/// Collect the characters of a string slice into a vector.
pub fn chars_of(s: &str) -> (r: Vec<char>)
    ensures
        r@ == s@,
{
    let n = s.unicode_len();
    let mut r: Vec<char> = Vec::new();
    for i in 0..n
        invariant
            n == s@.len(),
            r@ == s@.subrange(0, i as int),
    {
        r.push(s.get_char(i));
        assert(s@.subrange(0, i as int).push(s@[i as int]) == s@.subrange(0, i + 1));
    }
    assert(s@.subrange(0, n as int) == s@);
    r
}

/// Build a string out of a vector of characters.
pub fn string_of(v: &Vec<char>) -> (r: String)
    ensures
        r@ == v@,
{
    let mut r = String::new();
    let n = v.len();
    for i in 0..n
        invariant
            n == v@.len(),
            r@ == v@.subrange(0, i as int),
    {
        push_char(&mut r, v[i]);
        assert(v@.subrange(0, i as int).push(v@[i as int]) == v@.subrange(0, i + 1));
    }
    assert(v@.subrange(0, n as int) == v@);
    r
}

// ---------------------------------------------------------------------------
// ASCII case folding, for case-insensitive header names
// ---------------------------------------------------------------------------

pub open spec fn lower_char(c: char) -> char {
    if 'A' <= c && c <= 'Z' {
        (((c as u32) + 32) as u8) as char
    } else {
        c
    }
}

pub open spec fn lower_chars(s: Seq<char>) -> Seq<char> {
    s.map_values(|c: char| lower_char(c))
}

pub fn char_to_lower(c: char) -> (r: char)
    ensures
        r == lower_char(c),
{
    if 'A' <= c && c <= 'Z' {
        assert((c as u32) + 32 <= 122) by {
            assert('A' as u32 == 65 && 'Z' as u32 == 90);
        }
        (((c as u32) + 32) as u8) as char
    } else {
        c
    }
}

/// Case-insensitive (ASCII) equality of two character vectors.
pub fn eq_ignore_ascii_case(a: &Vec<char>, b: &Vec<char>) -> (r: bool)
    ensures
        r == (lower_chars(a@) == lower_chars(b@)),
{
    if a.len() != b.len() {
        assert(lower_chars(a@).len() != lower_chars(b@).len());
        return false;
    }
    let n = a.len();
    for i in 0..n
        invariant
            n == a@.len() && n == b@.len(),
            forall|j: int| 0 <= j < i ==> lower_char(a@[j]) == lower_char(b@[j]),
    {
        if char_to_lower(a[i]) != char_to_lower(b[i]) {
            assert(lower_chars(a@)[i as int] != lower_chars(b@)[i as int]);
            return false;
        }
    }
    assert(lower_chars(a@) =~= lower_chars(b@));
    true
}

// ---------------------------------------------------------------------------
// Splitting and joining on a separator character
// ---------------------------------------------------------------------------

/// The pieces of `s` between occurrences of `sep`; always at least one piece.
pub open spec fn spec_split(s: Seq<char>, sep: char) -> Seq<Seq<char>>
    decreases s.len(),
{
    if s.len() == 0 {
        seq![Seq::<char>::empty()]
    } else {
        let rest = spec_split(s.drop_last(), sep);
        if s.last() == sep {
            rest.push(Seq::<char>::empty())
        } else {
            rest.update(rest.len() - 1, rest.last().push(s.last()))
        }
    }
}

pub proof fn lemma_spec_split_len(s: Seq<char>, sep: char)
    ensures
        spec_split(s, sep).len() >= 1,
    decreases s.len(),
{
    if s.len() > 0 {
        lemma_spec_split_len(s.drop_last(), sep);
    }
}

/// A string without the separator splits into itself alone.
pub proof fn lemma_split_no_sep(s: Seq<char>, sep: char)
    requires
        forall|i: int| 0 <= i < s.len() ==> s[i] != sep,
    ensures
        spec_split(s, sep) == seq![s],
    decreases s.len(),
{
    if s.len() == 0 {
        assert(spec_split(s, sep) =~~= seq![s]);
    } else {
        let d = s.drop_last();
        lemma_split_no_sep(d, sep);
        let rest = spec_split(d, sep);
        assert(rest.last() == d);
        assert(d.push(s.last()) =~= s);
        assert(rest.update(0, s) =~~= seq![s]);
    }
}

/// Splitting distributes over a separator between two halves.
pub proof fn lemma_split_sep_concat(a: Seq<char>, b: Seq<char>, sep: char)
    ensures
        spec_split(a + seq![sep] + b, sep) == spec_split(a, sep) + spec_split(b, sep),
    decreases b.len(),
{
    let s = a + seq![sep] + b;
    if b.len() == 0 {
        assert(s =~= a.push(sep));
        assert(s.last() == sep);
        assert(s.drop_last() =~= a);
        assert(spec_split(b, sep) == seq![Seq::<char>::empty()]);
        assert(spec_split(s, sep) =~~= spec_split(a, sep) + spec_split(b, sep));
    } else {
        lemma_split_sep_concat(a, b.drop_last(), sep);
        assert(s.last() == b.last());
        assert(s.drop_last() =~= a + seq![sep] + b.drop_last());
        let ra = spec_split(a, sep);
        let rd = spec_split(b.drop_last(), sep);
        lemma_spec_split_len(b.drop_last(), sep);
        lemma_spec_split_len(a, sep);
        let rest = ra + rd;
        if b.last() == sep {
            assert(spec_split(s, sep) == rest.push(Seq::<char>::empty()));
            assert(spec_split(b, sep) == rd.push(Seq::<char>::empty()));
            assert(rest.push(Seq::<char>::empty()) =~~= ra + rd.push(Seq::<char>::empty()));
        } else {
            assert(rest.last() == rd.last());
            assert(spec_split(s, sep) == rest.update(
                rest.len() - 1,
                rest.last().push(b.last()),
            ));
            assert(spec_split(b, sep) == rd.update(rd.len() - 1, rd.last().push(b.last())));
            assert(rest.update(rest.len() - 1, rd.last().push(b.last())) =~~= ra + rd.update(
                rd.len() - 1,
                rd.last().push(b.last()),
            ));
        }
    }
}

/// The views of a sequence of character vectors.
pub open spec fn views_of(vs: Seq<Vec<char>>) -> Seq<Seq<char>> {
    vs.map_values(|v: Vec<char>| v@)
}

/// Split a character vector on a separator.
pub fn split_char(s: &Vec<char>, sep: char) -> (r: Vec<Vec<char>>)
    ensures
        views_of(r@) == spec_split(s@, sep),
{
    let mut pieces: Vec<Vec<char>> = Vec::new();
    let mut cur: Vec<char> = Vec::new();
    let n = s.len();
    assert(s@.subrange(0, 0) =~= Seq::<char>::empty());
    assert(views_of(pieces@).push(cur@) =~= spec_split(s@.subrange(0, 0), sep));
    for i in 0..n
        invariant
            n == s@.len(),
            spec_split(s@.subrange(0, i as int), sep) == views_of(pieces@).push(cur@),
    {
        let ghost prefix = s@.subrange(0, i as int);
        let ghost old_pieces = views_of(pieces@);
        let ghost old_cur = cur@;
        proof {
            assert(s@.subrange(0, i + 1).drop_last() =~= prefix);
            assert(s@.subrange(0, i + 1).last() == s@[i as int]);
        }
        if s[i] == sep {
            pieces.push(cur);
            cur = Vec::new();
            proof {
                assert(views_of(pieces@) =~= old_pieces.push(old_cur));
                assert(views_of(pieces@).push(cur@) =~= spec_split(prefix, sep).push(
                    Seq::<char>::empty(),
                ));
            }
        } else {
            cur.push(s[i]);
            proof {
                let whole = old_pieces.push(old_cur);
                assert(whole.last() == old_cur);
                assert(whole.update(whole.len() - 1, old_cur.push(s@[i as int])) =~= old_pieces.push(
                    cur@,
                ));
            }
        }
        assert(views_of(pieces@).push(cur@) =~= spec_split(s@.subrange(0, i + 1), sep));
    }
    assert(s@.subrange(0, n as int) =~= s@);
    let ghost old_pieces = views_of(pieces@);
    let ghost old_cur = cur@;
    pieces.push(cur);
    proof {
        assert(views_of(pieces@) =~= old_pieces.push(old_cur));
    }
    pieces
}

// ---------------------------------------------------------------------------
// Decimal numbers
// ---------------------------------------------------------------------------

pub open spec fn is_digit(c: char) -> bool {
    '0' <= c && c <= '9'
}

pub open spec fn digit_val(c: char) -> int {
    c as int - '0' as int
}

/// The value of a digit string, accumulated from `acc`; `None` past a
/// non-digit or beyond `u64`.
pub open spec fn spec_parse_u64_from(s: Seq<char>, acc: u64) -> Option<u64>
    decreases s.len(),
{
    if s.len() == 0 {
        Some(acc)
    } else if !is_digit(s.first()) {
        None
    } else if acc * 10 + digit_val(s.first()) > u64::MAX {
        None
    } else {
        spec_parse_u64_from(s.drop_first(), (acc * 10 + digit_val(s.first())) as u64)
    }
}

/// The number a decimal string denotes; `None` when empty, non-numeric or
/// too large.
pub open spec fn spec_parse_u64(s: Seq<char>) -> Option<u64> {
    if s.len() == 0 {
        None
    } else {
        spec_parse_u64_from(s, 0)
    }
}

/// Parse a decimal string as a `u64`.
pub fn parse_u64(v: &Vec<char>) -> (r: Option<u64>)
    ensures
        r == spec_parse_u64(v@),
{
    let n = v.len();
    if n == 0 {
        return None;
    }
    let mut acc: u64 = 0;
    let mut i: usize = 0;
    assert(v@.skip(0) == v@);
    while i < n
        invariant
            i <= n,
            n == v@.len(),
            spec_parse_u64_from(v@, 0) == spec_parse_u64_from(v@.skip(i as int), acc),
        decreases n - i,
    {
        let ghost mid = v@.skip(i as int);
        proof {
            assert(mid.first() == v@[i as int]);
            assert(mid.drop_first() =~= v@.skip(i + 1));
        }
        let c = v[i];
        if !('0' <= c && c <= '9') {
            assert(spec_parse_u64_from(mid, acc) is None);
            return None;
        }
        let d = (c as u32 - '0' as u32) as u64;
        assert(d == digit_val(c) && d <= 9);
        if acc > (u64::MAX - d) / 10 {
            assert(acc * 10 + digit_val(c) > u64::MAX) by (nonlinear_arith)
                requires
                    acc > (u64::MAX - d) / 10,
                    d == digit_val(c),
                    0 <= d <= 9,
            ;
            assert(spec_parse_u64_from(mid, acc) is None);
            return None;
        }
        assert(acc * 10 + digit_val(c) <= u64::MAX) by (nonlinear_arith)
            requires
                acc <= (u64::MAX - d) / 10,
                d == digit_val(c),
                0 <= d <= 9,
        ;
        acc = acc * 10 + d;
        i = i + 1;
    }
    assert(v@.skip(n as int) =~= Seq::<char>::empty());
    Some(acc)
}

/// The decimal rendering of a number.
pub open spec fn spec_u64_dec(n: u64) -> Seq<char>
    decreases n,
{
    if n < 10 {
        seq![spec_hex_char(n as u8)]
    } else {
        spec_u64_dec(n / 10).push(spec_hex_char((n % 10) as u8))
    }
}

/// Render a number in decimal.
pub fn u64_to_dec(n: u64) -> (r: Vec<char>)
    ensures
        r@ == spec_u64_dec(n),
    decreases n,
{
    if n < 10 {
        let mut r: Vec<char> = Vec::new();
        r.push(hex_char(n as u8));
        assert(r@ =~= seq![spec_hex_char(n as u8)]);
        r
    } else {
        let mut r = u64_to_dec(n / 10);
        r.push(hex_char((n % 10) as u8));
        r
    }
}

// ---------------------------------------------------------------------------
// Lexicographic order on character sequences, and sorting
// ---------------------------------------------------------------------------

/// Lexicographic order by code point; the order `String`'s own comparison
/// uses, since UTF-8 preserves code-point order.
pub open spec fn lex_leq(a: Seq<char>, b: Seq<char>) -> bool
    decreases a.len(),
{
    if a.len() == 0 {
        true
    } else if b.len() == 0 {
        false
    } else if a.first() != b.first() {
        a.first() < b.first()
    } else {
        lex_leq(a.drop_first(), b.drop_first())
    }
}

pub proof fn lemma_lex_refl(a: Seq<char>)
    ensures
        lex_leq(a, a),
    decreases a.len(),
{
    if a.len() > 0 {
        lemma_lex_refl(a.drop_first());
    }
}

pub proof fn lemma_lex_antisym(a: Seq<char>, b: Seq<char>)
    requires
        lex_leq(a, b),
        lex_leq(b, a),
    ensures
        a == b,
    decreases a.len(),
{
    if a.len() == 0 {
        assert(b.len() == 0);
        assert(a =~= b);
    } else {
        lemma_lex_antisym(a.drop_first(), b.drop_first());
        assert(a =~= seq![a.first()] + a.drop_first());
        assert(b =~= seq![b.first()] + b.drop_first());
    }
}

pub proof fn lemma_lex_total(a: Seq<char>, b: Seq<char>)
    ensures
        lex_leq(a, b) || lex_leq(b, a),
    decreases a.len(),
{
    if a.len() > 0 && b.len() > 0 && a.first() == b.first() {
        lemma_lex_total(a.drop_first(), b.drop_first());
    }
}

pub proof fn lemma_lex_trans(a: Seq<char>, b: Seq<char>, c: Seq<char>)
    requires
        lex_leq(a, b),
        lex_leq(b, c),
    ensures
        lex_leq(a, c),
    decreases a.len(),
{
    if a.len() > 0 && b.len() > 0 && c.len() > 0 && a.first() == b.first() && b.first()
        == c.first() {
        lemma_lex_trans(a.drop_first(), b.drop_first(), c.drop_first());
    }
}

pub proof fn lemma_lex_total_ordering()
    ensures
        vstd::relations::total_ordering(|x: Seq<char>, y: Seq<char>| lex_leq(x, y)),
{
    let leq = |x: Seq<char>, y: Seq<char>| lex_leq(x, y);
    assert forall|x: Seq<char>| #[trigger] leq(x, x) by {
        lemma_lex_refl(x);
    }
    assert forall|x: Seq<char>, y: Seq<char>| #[trigger] leq(x, y) && #[trigger] leq(y, x)
        implies x == y by {
        lemma_lex_antisym(x, y);
    }
    assert forall|x: Seq<char>, y: Seq<char>, z: Seq<char>|
        #[trigger] leq(x, y) && #[trigger] leq(y, z) implies leq(x, z) by {
        lemma_lex_trans(x, y, z);
    }
    assert forall|x: Seq<char>, y: Seq<char>| #[trigger] leq(x, y) || #[trigger] leq(y, x) by {
        lemma_lex_total(x, y);
    }
}

/// Compare two character vectors lexicographically.
pub fn lex_leq_exec(a: &Vec<char>, b: &Vec<char>) -> (r: bool)
    ensures
        r == lex_leq(a@, b@),
{
    let na = a.len();
    let nb = b.len();
    let mut i: usize = 0;
    assert(a@.skip(0) == a@ && b@.skip(0) == b@);
    loop
        invariant
            i <= na && i <= nb,
            na == a@.len() && nb == b@.len(),
            lex_leq(a@, b@) == lex_leq(a@.skip(i as int), b@.skip(i as int)),
        decreases na - i,
    {
        let ghost sa = a@.skip(i as int);
        let ghost sb = b@.skip(i as int);
        if i == na {
            assert(sa.len() == 0);
            return true;
        }
        if i == nb {
            assert(sb.len() == 0 && sa.len() > 0);
            return false;
        }
        proof {
            assert(sa.first() == a@[i as int]);
            assert(sb.first() == b@[i as int]);
            assert(sa.drop_first() =~= a@.skip(i + 1));
            assert(sb.drop_first() =~= b@.skip(i + 1));
        }
        if a[i] != b[i] {
            return a[i] < b[i];
        }
        i = i + 1;
    }
}

/// Sort character vectors lexicographically; the result is the
/// specification-level `sort_by` of the input's views.
pub fn sort_lex(v: Vec<Vec<char>>) -> (r: Vec<Vec<char>>)
    ensures
        views_of(r@) == views_of(v@).sort_by(|x: Seq<char>, y: Seq<char>| lex_leq(x, y)),
{
    let ghost leq = |x: Seq<char>, y: Seq<char>| lex_leq(x, y);
    proof {
        lemma_lex_total_ordering();
        views_of(v@).lemma_sort_by_ensures(leq);
    }
    let mut src = v;
    let mut out: Vec<Vec<char>> = Vec::new();
    proof {
        lemma_empty_to_multiset::<Seq<char>>();
        assert(views_of(out@) =~= Seq::<Seq<char>>::empty());
        assert(views_of(out@).to_multiset().add(views_of(src@).to_multiset()) =~= views_of(
            v@,
        ).to_multiset());
    }
    while src.len() > 0
        invariant
            views_of(out@).to_multiset().add(views_of(src@).to_multiset()) == views_of(
                v@,
            ).to_multiset(),
            vstd::relations::sorted_by(views_of(out@), |x: Seq<char>, y: Seq<char>| lex_leq(x, y)),
            forall|p: int, q: int|
                0 <= p < views_of(out@).len() && 0 <= q < views_of(src@).len() ==> lex_leq(
                    views_of(out@)[p],
                    views_of(src@)[q],
                ),
        decreases src@.len(),
    {
        // Find the least remaining element.
        let n = src.len();
        let mut m: usize = 0;
        let mut j: usize = 1;
        proof {
            lemma_lex_refl(src@[0]@);
        }
        while j < n
            invariant
                m < j <= n,
                n == src@.len(),
                forall|q: int| 0 <= q < j ==> lex_leq(src@[m as int]@, src@[q]@),
            decreases n - j,
        {
            if !lex_leq_exec(&src[m], &src[j]) {
                proof {
                    lemma_lex_total(src@[m as int]@, src@[j as int]@);
                    assert forall|q: int| 0 <= q < j + 1 implies lex_leq(
                        src@[j as int]@,
                        src@[q]@,
                    ) by {
                        if q == j {
                            lemma_lex_refl(src@[j as int]@);
                        } else {
                            lemma_lex_trans(src@[j as int]@, src@[m as int]@, src@[q]@);
                        }
                    }
                }
                m = j;
            }
            j = j + 1;
        }
        let ghost old_out = views_of(out@);
        let ghost old_src = views_of(src@);
        let x = src.remove(m);
        out.push(x);
        proof {
            broadcast use vstd::seq_lib::group_to_multiset_ensures;

            assert(views_of(out@) =~= old_out.push(x@));
            assert(views_of(src@) =~= old_src.remove(m as int));
            assert(old_src[m as int] == x@);
            assert(views_of(out@).to_multiset() =~= old_out.to_multiset().insert(x@));
            assert(views_of(src@).to_multiset() =~= old_src.to_multiset().remove(x@));
            assert(old_src.to_multiset().count(x@) > 0) by {
                assert(old_src.contains(x@));
            }
            assert(views_of(out@).to_multiset().add(views_of(src@).to_multiset()) =~= old_out
                .to_multiset().add(old_src.to_multiset()));
            // The pushed element keeps the output sorted and below the rest.
            assert(forall|q: int| 0 <= q < old_src.len() ==> lex_leq(x@, old_src[q]));
            assert forall|p: int, q: int|
                0 <= p < views_of(out@).len() && 0 <= q < views_of(src@).len() implies lex_leq(
                views_of(out@)[p],
                views_of(src@)[q],
            ) by {
                let vq = views_of(src@)[q];
                assert(old_src.remove(m as int)[q] == if q < m {
                    old_src[q]
                } else {
                    old_src[q + 1]
                });
                if p < old_out.len() {
                    assert(lex_leq(views_of(out@)[p], vq));
                } else {
                    assert(views_of(out@)[p] == x@);
                }
            }
        }
    }
    proof {
        let leq2 = |x: Seq<char>, y: Seq<char>| lex_leq(x, y);
        assert(views_of(src@) =~= Seq::<Seq<char>>::empty());
        lemma_empty_to_multiset::<Seq<char>>();
        assert(views_of(out@).to_multiset() =~= views_of(v@).to_multiset());
        vstd::seq_lib::lemma_sorted_unique(
            views_of(out@),
            views_of(v@).sort_by(leq2),
            leq2,
        );
    }
    out
}

/// Concatenation of the pieces with `sep` between them.
pub open spec fn spec_join(parts: Seq<Seq<char>>, sep: char) -> Seq<char>
    decreases parts.len(),
{
    if parts.len() == 0 {
        Seq::<char>::empty()
    } else if parts.len() == 1 {
        parts[0]
    } else {
        parts[0] + seq![sep] + spec_join(parts.drop_first(), sep)
    }
}

/// The empty sequence carries the empty multiset.
pub proof fn lemma_empty_to_multiset<A>()
    ensures
        Seq::<A>::empty().to_multiset() == Multiset::<A>::empty(),
{
    broadcast use vstd::seq_lib::group_to_multiset_ensures;
    broadcast use vstd::multiset::group_multiset_axioms;

    let m = Seq::<A>::empty().to_multiset();
    assert(m.len() == 0);
    assert forall|x: A| m.count(x) == 0 by {
        vstd::multiset::axiom_count_le_len(m, x);
    }
    assert(m =~= Multiset::<A>::empty());
}

/// Joining one more piece appends a separator and the piece.
pub proof fn lemma_join_push(ps: Seq<Seq<char>>, x: Seq<char>, sep: char)
    ensures
        ps.len() == 0 ==> spec_join(ps.push(x), sep) == x,
        ps.len() > 0 ==> spec_join(ps.push(x), sep) == spec_join(ps, sep) + seq![sep] + x,
    decreases ps.len(),
{
    if ps.len() == 0 {
        assert(spec_join(ps.push(x), sep) == ps.push(x)[0]);
        assert(ps.push(x)[0] == x);
    } else {
        lemma_join_push(ps.drop_first(), x, sep);
        assert(ps.push(x).drop_first() =~= ps.drop_first().push(x));
        assert(ps.push(x)[0] == ps[0]);
        if ps.len() == 1 {
            assert(ps.drop_first().len() == 0);
            assert(spec_join(ps, sep) == ps[0]);
        } else {
            assert((ps[0] + seq![sep] + (spec_join(ps.drop_first(), sep) + seq![sep] + x)) =~= (
            ps[0] + seq![sep] + spec_join(ps.drop_first(), sep)) + seq![sep] + x);
        }
    }
}

/// Join character vectors with a separator.
pub fn join_char(parts: &Vec<Vec<char>>, sep: char) -> (r: Vec<char>)
    ensures
        r@ == spec_join(views_of(parts@), sep),
{
    let mut r: Vec<char> = Vec::new();
    let n = parts.len();
    let mut i: usize = 0;
    assert(views_of(parts@).take(0) =~= Seq::<Seq<char>>::empty());
    while i < n
        invariant
            i <= n,
            n == parts@.len(),
            r@ == spec_join(views_of(parts@).take(i as int), sep),
        decreases n - i,
    {
        let ghost prefix = views_of(parts@).take(i as int);
        let ghost base0 = r@;
        if i > 0 {
            r.push(sep);
        }
        let ghost base = r@;
        let piece = &parts[i];
        let mut k: usize = 0;
        let pn = piece.len();
        while k < pn
            invariant
                k <= pn,
                pn == piece@.len(),
                piece@ == parts@[i as int]@,
                r@ == base + piece@.take(k as int),
            decreases pn - k,
        {
            let ghost before = r@;
            r.push(piece[k]);
            assert(before.push(piece@[k as int]) =~= base + piece@.take(k + 1));
            k = k + 1;
        }
        proof {
            assert(piece@.take(pn as int) =~= piece@);
            lemma_join_push(prefix, piece@, sep);
            assert(views_of(parts@).take(i + 1) =~= prefix.push(piece@));
            if i > 0 {
                assert(r@ =~= spec_join(prefix, sep) + seq![sep] + piece@);
            } else {
                assert(prefix.len() == 0);
                assert(r@ =~= piece@);
            }
        }
        i = i + 1;
    }
    assert(views_of(parts@).take(n as int) =~= views_of(parts@));
    r
}

// ---------------------------------------------------------------------------
// Searching, prefixes and trimming
// ---------------------------------------------------------------------------

/// Index of the first occurrence of `c` at or after `start`, or the length of
/// `s` when there is none.
pub open spec fn spec_find_from(s: Seq<char>, c: char, start: int) -> int
    decreases s.len() - start,
{
    if start < 0 || start >= s.len() {
        s.len() as int
    } else if s[start] == c {
        start
    } else {
        spec_find_from(s, c, start + 1)
    }
}

pub proof fn lemma_spec_find_from(s: Seq<char>, c: char, start: int)
    requires
        0 <= start <= s.len(),
    ensures
        start <= spec_find_from(s, c, start) <= s.len(),
        forall|j: int| start <= j < spec_find_from(s, c, start) ==> s[j] != c,
        spec_find_from(s, c, start) < s.len() ==> s[spec_find_from(s, c, start)] == c,
    decreases s.len() - start,
{
    if start < s.len() && s[start] != c {
        lemma_spec_find_from(s, c, start + 1);
    }
}

/// Find the first occurrence of `c` at or after `start`.
pub fn find_from(v: &Vec<char>, c: char, start: usize) -> (r: usize)
    requires
        start <= v@.len(),
    ensures
        r == spec_find_from(v@, c, start as int),
{
    let n = v.len();
    let mut i = start;
    while i < n
        invariant
            start <= i <= n,
            n == v@.len(),
            spec_find_from(v@, c, start as int) == spec_find_from(v@, c, i as int),
        decreases n - i,
    {
        if v[i] == c {
            return i;
        }
        i = i + 1;
    }
    n
}

pub proof fn lemma_find_from_exact(s: Seq<char>, c: char, start: int, t: int)
    requires
        0 <= start <= t < s.len(),
        forall|j: int| start <= j < t ==> s[j] != c,
        s[t] == c,
    ensures
        spec_find_from(s, c, start) == t,
    decreases t - start,
{
    if start < t {
        lemma_find_from_exact(s, c, start + 1, t);
    }
}

pub proof fn lemma_find_from_none(s: Seq<char>, c: char, start: int)
    requires
        0 <= start <= s.len(),
        forall|j: int| start <= j < s.len() ==> s[j] != c,
    ensures
        spec_find_from(s, c, start) == s.len(),
{
    lemma_spec_find_from(s, c, start);
}

pub open spec fn spec_starts_with(s: Seq<char>, p: Seq<char>) -> bool {
    p.len() <= s.len() && s.subrange(0, p.len() as int) == p
}

/// Whether `pat` occurs in `v` starting at index `i`.
pub fn match_at(v: &Vec<char>, i: usize, pat: &Vec<char>) -> (r: bool)
    requires
        i <= v@.len(),
    ensures
        r == (i + pat@.len() <= v@.len() && v@.subrange(i as int, i + pat@.len()) == pat@),
{
    let m = pat.len();
    let n = v.len();
    if n - i < m {
        return false;
    }
    for k in 0..m
        invariant
            i + m <= n,
            n == v@.len(),
            m == pat@.len(),
            forall|j: int| 0 <= j < k ==> v@[i + j] == pat@[j],
    {
        if v[i + k] != pat[k] {
            assert(v@.subrange(i as int, i + pat@.len())[k as int] != pat@[k as int]);
            return false;
        }
    }
    assert(v@.subrange(i as int, i + pat@.len()) =~= pat@);
    true
}

/// Copy of the elements of `v` between `a` and `b`.
pub fn subvec(v: &Vec<char>, a: usize, b: usize) -> (r: Vec<char>)
    requires
        a <= b <= v@.len(),
    ensures
        r@ == v@.subrange(a as int, b as int),
{
    let mut r: Vec<char> = Vec::new();
    let mut k = a;
    while k < b
        invariant
            a <= k <= b <= v@.len(),
            r@ == v@.subrange(a as int, k as int),
        decreases b - k,
    {
        r.push(v[k]);
        assert(v@.subrange(a as int, k as int).push(v@[k as int]) =~= v@.subrange(a as int, k + 1));
        k = k + 1;
    }
    r
}

pub open spec fn is_ascii_space(c: char) -> bool {
    c == ' ' || c == '\t' || c == '\r' || c == '\n'
}

pub open spec fn spec_trim_start(s: Seq<char>) -> Seq<char>
    decreases s.len(),
{
    if s.len() > 0 && is_ascii_space(s.first()) {
        spec_trim_start(s.drop_first())
    } else {
        s
    }
}

pub open spec fn spec_trim_end(s: Seq<char>) -> Seq<char>
    decreases s.len(),
{
    if s.len() > 0 && is_ascii_space(s.last()) {
        spec_trim_end(s.drop_last())
    } else {
        s
    }
}

/// The string without its leading and trailing ASCII whitespace.
pub open spec fn spec_trim(s: Seq<char>) -> Seq<char> {
    spec_trim_end(spec_trim_start(s))
}

fn is_space_char(c: char) -> (r: bool)
    ensures
        r == is_ascii_space(c),
{
    c == ' ' || c == '\t' || c == '\r' || c == '\n'
}

/// Trim ASCII whitespace from both ends.
pub fn trim_ascii(v: &Vec<char>) -> (r: Vec<char>)
    ensures
        r@ == spec_trim(v@),
{
    let n = v.len();
    let mut i: usize = 0;
    assert(v@.subrange(0, n as int) =~= v@);
    while i < n && is_space_char(v[i])
        invariant
            i <= n,
            n == v@.len(),
            spec_trim_start(v@) == spec_trim_start(v@.subrange(i as int, n as int)),
        decreases n - i,
    {
        proof {
            assert(v@.subrange(i as int, n as int).drop_first() =~= v@.subrange(i + 1, n as int));
        }
        i = i + 1;
    }
    proof {
        if i < n {
            assert(v@.subrange(i as int, n as int).first() == v@[i as int]);
        }
        assert(spec_trim_start(v@) == v@.subrange(i as int, n as int));
    }
    let mut j: usize = n;
    while j > i && is_space_char(v[j - 1])
        invariant
            i <= j <= n,
            n == v@.len(),
            spec_trim_start(v@) == v@.subrange(i as int, n as int),
            spec_trim_end(v@.subrange(i as int, n as int)) == spec_trim_end(
                v@.subrange(i as int, j as int),
            ),
        decreases j,
    {
        proof {
            assert(v@.subrange(i as int, j as int).last() == v@[j - 1]);
            assert(v@.subrange(i as int, j as int).drop_last() =~= v@.subrange(
                i as int,
                j - 1,
            ));
        }
        j = j - 1;
    }
    proof {
        if j > i {
            assert(v@.subrange(i as int, j as int).last() == v@[j - 1]);
        }
        assert(v@.subrange(i as int, j as int).len() == j - i);
        assert(spec_trim(v@) == v@.subrange(i as int, j as int));
    }
    let mut r: Vec<char> = Vec::new();
    let mut k = i;
    while k < j
        invariant
            i <= k <= j <= n,
            n == v@.len(),
            r@ == v@.subrange(i as int, k as int),
        decreases j - k,
    {
        r.push(v[k]);
        assert(v@.subrange(i as int, k as int).push(v@[k as int]) =~= v@.subrange(
            i as int,
            k + 1,
        ));
        k = k + 1;
    }
    r
}

pub open spec fn spec_trim_quotes_start(s: Seq<char>) -> Seq<char>
    decreases s.len(),
{
    if s.len() > 0 && s.first() == '"' {
        spec_trim_quotes_start(s.drop_first())
    } else {
        s
    }
}

pub open spec fn spec_trim_quotes_end(s: Seq<char>) -> Seq<char>
    decreases s.len(),
{
    if s.len() > 0 && s.last() == '"' {
        spec_trim_quotes_end(s.drop_last())
    } else {
        s
    }
}

/// The string without its leading and trailing double quotes.
pub open spec fn spec_trim_quotes(s: Seq<char>) -> Seq<char> {
    spec_trim_quotes_end(spec_trim_quotes_start(s))
}

/// Trim double quotes from both ends.
pub fn trim_quotes(v: &Vec<char>) -> (r: Vec<char>)
    ensures
        r@ == spec_trim_quotes(v@),
{
    let n = v.len();
    let mut i: usize = 0;
    assert(v@.subrange(0, n as int) =~= v@);
    while i < n && v[i] == '"'
        invariant
            i <= n,
            n == v@.len(),
            spec_trim_quotes_start(v@) == spec_trim_quotes_start(v@.subrange(i as int, n as int)),
        decreases n - i,
    {
        proof {
            assert(v@.subrange(i as int, n as int).drop_first() =~= v@.subrange(i + 1, n as int));
        }
        i = i + 1;
    }
    proof {
        if i < n {
            assert(v@.subrange(i as int, n as int).first() == v@[i as int]);
        }
        assert(spec_trim_quotes_start(v@) == v@.subrange(i as int, n as int));
    }
    let mut j: usize = n;
    while j > i && v[j - 1] == '"'
        invariant
            i <= j <= n,
            n == v@.len(),
            spec_trim_quotes_start(v@) == v@.subrange(i as int, n as int),
            spec_trim_quotes_end(v@.subrange(i as int, n as int)) == spec_trim_quotes_end(
                v@.subrange(i as int, j as int),
            ),
        decreases j,
    {
        proof {
            assert(v@.subrange(i as int, j as int).last() == v@[j - 1]);
            assert(v@.subrange(i as int, j as int).drop_last() =~= v@.subrange(
                i as int,
                j - 1,
            ));
        }
        j = j - 1;
    }
    proof {
        if j > i {
            assert(v@.subrange(i as int, j as int).last() == v@[j - 1]);
        }
        assert(v@.subrange(i as int, j as int).len() == j - i);
        assert(spec_trim_quotes(v@) == v@.subrange(i as int, j as int));
    }
    let mut r: Vec<char> = Vec::new();
    let mut k = i;
    while k < j
        invariant
            i <= k <= j <= n,
            n == v@.len(),
            r@ == v@.subrange(i as int, k as int),
        decreases j - k,
    {
        r.push(v[k]);
        assert(v@.subrange(i as int, k as int).push(v@[k as int]) =~= v@.subrange(
            i as int,
            k + 1,
        ));
        k = k + 1;
    }
    r
}

} // verus!
