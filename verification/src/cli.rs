//! The administrative commands' data rules: importing legacy metadata from
//! a TSV export, and migrating a legacy object directory into the bucket.
//!
//! Reading files and talking to the database stay outside; what lives here
//! is what those tools decide: how a display name is normalized to the
//! RFC 8187 `attr-char` set, how a record line and an object URL are read,
//! and what row a migrated file gets.

use vstd::prelude::*;

verus! {

use crate::metadata::ObjectRecord;
use crate::percent::{pct_encode, spec_pct_encode};
use crate::crypto::{blake3_hex, spec_blake3_hex};
use crate::text::{
    spec_split, spec_find_from, lemma_spec_find_from, views_of, chars_of, string_of, split_char,
    subvec, find_from, push_char,
};
use vstd::string::StringExecFns;

/// The administrative subcommands.
pub enum MigrationCommand {
    /// Walk a legacy object directory into the bucket.
    Migrate { old_dir: String },
    /// Read display names and media types from a TSV export.
    Import { metadata_path: String },
}

/// One file of a legacy directory, ready to insert and move.
pub struct MigrateObject {
    /// Where the file lies now.
    pub path: String,
    /// The content address it moves to.
    pub internal_filename: String,
    /// The row inserted for it.
    pub model: ObjectRecord,
}

/// How many rows a migration inserts per batch.
pub const MIGRATE_BATCH_SIZE: usize = 50;

/// How many records an import updates per transaction.
pub const IMPORT_CHUNK_SIZE: usize = 100;

// ---------------------------------------------------------------------------
// Filename normalization
// ---------------------------------------------------------------------------

/// The RFC 8187 `attr-char` set: ASCII letters and digits and
/// `! # $ & + - . ^ _ ` | ~`.
pub open spec fn is_attr_char(c: char) -> bool {
    ('A' <= c && c <= 'Z') || ('a' <= c && c <= 'z') || ('0' <= c && c <= '9') || c == '!' || c
        == '#' || c == '$' || c == '&' || c == '+' || c == '-' || c == '.' || c == '^' || c == '_'
        || c == '`' || c == '|' || c == '~'
}

/// The name with every character outside `attr-char` replaced by `_`.
pub open spec fn spec_normalize_name(s: Seq<char>) -> Seq<char> {
    s.map_values(
        |c: char|
            if is_attr_char(c) {
                c
            } else {
                '_'
            },
    )
}

pub open spec fn spec_all_attr_chars(s: Seq<char>) -> bool {
    forall|i: int| 0 <= i < s.len() ==> is_attr_char(#[trigger] s[i])
}

fn char_is_attr(c: char) -> (r: bool)
    ensures
        r == is_attr_char(c),
{
    ('A' <= c && c <= 'Z') || ('a' <= c && c <= 'z') || ('0' <= c && c <= '9') || c == '!' || c
        == '#' || c == '$' || c == '&' || c == '+' || c == '-' || c == '.' || c == '^' || c == '_'
        || c == '`' || c == '|' || c == '~'
}

/// Normalize a display name: a name made of `attr-char`s stays as it is
/// with no encoded form; any other name has the offending characters
/// replaced by `_` and carries its percent-encoded original. So the encoded
/// form is stored exactly when the raw name holds a character outside the
/// set.
pub fn normalize_filename(name: &str) -> (r: (String, Option<String>))
    ensures
        spec_all_attr_chars(name@) ==> r.0@ == name@ && r.1 is None,
        !spec_all_attr_chars(name@) ==> r.0@ == spec_normalize_name(name@) && r.1.deep_view()
            == Some(spec_pct_encode(name@)),
{
    let v = chars_of(name);
    let n = v.len();
    let mut all_attr = true;
    for i in 0..n
        invariant
            n == v@.len(),
            v@ == name@,
            all_attr == (forall|j: int| 0 <= j < i ==> is_attr_char(#[trigger] v@[j])),
    {
        if !char_is_attr(v[i]) {
            all_attr = false;
            assert(!is_attr_char(v@[i as int]));
        }
        proof {
            if all_attr {
                assert(forall|j: int| 0 <= j < i + 1 ==> is_attr_char(#[trigger] v@[j]));
            }
        }
    }
    if all_attr {
        (string_of(&v), None)
    } else {
        let mut out: Vec<char> = Vec::new();
        for i in 0..n
            invariant
                n == v@.len(),
                v@ == name@,
                out@ == spec_normalize_name(name@).take(i as int),
        {
            let ghost pre = out@;
            if char_is_attr(v[i]) {
                out.push(v[i]);
            } else {
                out.push('_');
            }
            proof {
                assert(pre.push(spec_normalize_name(name@)[i as int]) =~= spec_normalize_name(
                    name@,
                ).take(i + 1));
            }
        }
        assert(spec_normalize_name(name@).take(n as int) =~= spec_normalize_name(name@));
        (string_of(&out), Some(pct_encode(name)))
    }
}

// ---------------------------------------------------------------------------
// The TSV import
// ---------------------------------------------------------------------------

/// The fields of one headerless TSV line: display name, media type and the
/// object's public URL. A line with any other number of fields is refused.
pub open spec fn spec_parse_tsv_line(line: Seq<char>) -> Option<
    (Seq<char>, Seq<char>, Seq<char>),
> {
    let fields = spec_split(line, '\t');
    if fields.len() == 3 {
        Some((fields[0], fields[1], fields[2]))
    } else {
        None
    }
}

pub fn parse_tsv_line(line: &str) -> (r: Option<(String, String, String)>)
    ensures
        r matches Some(t) ==> spec_parse_tsv_line(line@) == Some((t.0@, t.1@, t.2@)),
        r is None ==> spec_parse_tsv_line(line@) is None,
{
    let v = chars_of(line);
    let fields = split_char(&v, '\t');
    if fields.len() == 3 {
        let a = string_of(&fields[0]);
        let b = string_of(&fields[1]);
        let c = string_of(&fields[2]);
        proof {
            assert(views_of(fields@)[0] == fields@[0]@);
            assert(views_of(fields@)[1] == fields@[1]@);
            assert(views_of(fields@)[2] == fields@[2]@);
        }
        Some((a, b, c))
    } else {
        None
    }
}

// ---------------------------------------------------------------------------
// Object URLs
// ---------------------------------------------------------------------------

/// The path of an absolute URL `scheme://authority/path[?query][#fragment]`:
/// what stands from the first slash after the authority up to the query or
/// fragment; `/` when the authority ends the URL; nothing when no `://`
/// marks it absolute.
pub open spec fn spec_url_path(url: Seq<char>) -> Option<Seq<char>> {
    let m = spec_find_marker(url, 0);
    if m < 0 {
        None
    } else {
        let rest = url.subrange(m + 3, url.len() as int);
        let s = spec_find_from(rest, '/', 0);
        if s == rest.len() {
            Some(seq!['/'])
        } else {
            let tail = rest.subrange(s, rest.len() as int);
            let q = spec_find_from(tail, '?', 0);
            let h = spec_find_from(tail, '#', 0);
            let stop = if q < h {
                q
            } else {
                h
            };
            Some(tail.subrange(0, stop))
        }
    }
}

/// The first index where `://` stands, or `-1`.
pub open spec fn spec_find_marker(s: Seq<char>, i: int) -> int
    decreases s.len() - i,
{
    if !(0 <= i && i + 3 <= s.len()) {
        -1
    } else if s[i] == ':' && s[i + 1] == '/' && s[i + 2] == '/' {
        i
    } else {
        spec_find_marker(s, i + 1)
    }
}

/// Read the path component out of an absolute URL.
pub fn url_path_of(url: &str) -> (r: Option<String>)
    ensures
        r.deep_view() == spec_url_path(url@),
{
    let v = chars_of(url);
    let n = v.len();
    let mut i: usize = 0;
    let mut marker: Option<usize> = None;
    while n >= 3 && i <= n - 3
        invariant_except_break
            i <= n,
            marker is None,
            spec_find_marker(v@, 0) == spec_find_marker(v@, i as int),
        invariant
            n == v@.len(),
            v@ == url@,
        ensures
            marker matches Some(m) ==> spec_find_marker(v@, 0) == m && m + 3 <= n,
            marker is None ==> spec_find_marker(v@, 0) == -1,
        decreases n - i,
    {
        if v[i] == ':' && v[i + 1] == '/' && v[i + 2] == '/' {
            assert(spec_find_marker(v@, i as int) == i);
            marker = Some(i);
            break;
        }
        i = i + 1;
    }
    let m = match marker {
        Some(m) => m,
        None => {
            return None;
        },
    };
    let rest = subvec(&v, m + 3, n);
    proof {
        lemma_spec_find_from(rest@, '/', 0);
    }
    let s = find_from(&rest, '/', 0);
    let rn = rest.len();
    if s == rn {
        let mut slash: Vec<char> = Vec::new();
        slash.push('/');
        assert(slash@ =~= seq!['/']);
        return Some(string_of(&slash));
    }
    let tail = subvec(&rest, s, rn);
    proof {
        lemma_spec_find_from(tail@, '?', 0);
        lemma_spec_find_from(tail@, '#', 0);
    }
    let q = find_from(&tail, '?', 0);
    let h = find_from(&tail, '#', 0);
    let stop = if q < h {
        q
    } else {
        h
    };
    Some(string_of(&subvec(&tail, 0, stop)))
}

// ---------------------------------------------------------------------------
// Migration rows
// ---------------------------------------------------------------------------

/// The leading-slash object path of a legacy file's relative path.
pub open spec fn spec_migrate_path(relative: Seq<char>) -> Seq<char> {
    seq!['/'] + relative
}

/// The row a migrated legacy file gets: its path under a leading slash, the
/// BLAKE3 content address of that path, its on-disk size and guessed media
/// type, and no display name yet (the import fills those in later).
pub fn migrate_object_row(relative_path: &str, content_size: u64, mime_type: String) -> (r:
    ObjectRecord)
    ensures
        r@.path == spec_migrate_path(relative_path@),
        r@.internal_filename == spec_blake3_hex(spec_migrate_path(relative_path@)),
        r@.content_size == content_size,
        r@.mime_type == mime_type@,
        r@.filename is None,
        r@.encoded_filename is None,
{
    let mut path = String::new();
    push_char(&mut path, '/');
    path.append(relative_path);
    assert(path@ =~= spec_migrate_path(relative_path@));
    let internal_filename = blake3_hex(path.as_str());
    ObjectRecord {
        path,
        content_size,
        mime_type,
        internal_filename,
        filename: None,
        encoded_filename: None,
    }
}

} // verus!
