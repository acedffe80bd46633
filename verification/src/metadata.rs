//! The metadata store: one row per stored object, keyed by its logical path.
//!
//! The table enforces the unique-path rule: an insert that would duplicate a
//! path fails and changes nothing, which is what makes racing writes to one
//! path collide instead of both succeeding.

use vstd::prelude::*;

verus! {

/// One persisted object row.
pub struct ObjectRecord {
    /// Logical key as clients see it, with its leading slash.
    pub path: String,
    /// Authoritative byte count of the stored blob.
    pub content_size: u64,
    /// Media type served back on reads.
    pub mime_type: String,
    /// The 64-hex-character content address of the blob on disk.
    pub internal_filename: String,
    /// Unencoded display name for `Content-Disposition`.
    pub filename: Option<String>,
    /// Percent-encoded form for `filename*=UTF-8''…`.
    pub encoded_filename: Option<String>,
}

/// The mathematical shadow of a row.
pub struct ObjectRecordV {
    pub path: Seq<char>,
    pub content_size: u64,
    pub mime_type: Seq<char>,
    pub internal_filename: Seq<char>,
    pub filename: Option<Seq<char>>,
    pub encoded_filename: Option<Seq<char>>,
}

impl View for ObjectRecord {
    type V = ObjectRecordV;

    open spec fn view(&self) -> ObjectRecordV {
        ObjectRecordV {
            path: self.path@,
            content_size: self.content_size,
            mime_type: self.mime_type@,
            internal_filename: self.internal_filename@,
            filename: self.filename.deep_view(),
            encoded_filename: self.encoded_filename.deep_view(),
        }
    }
}

impl Clone for ObjectRecord {
    fn clone(&self) -> (r: Self)
        ensures
            r@ == self@,
    {
        ObjectRecord {
            path: self.path.clone(),
            content_size: self.content_size,
            mime_type: self.mime_type.clone(),
            internal_filename: self.internal_filename.clone(),
            filename: clone_opt(&self.filename),
            encoded_filename: clone_opt(&self.encoded_filename),
        }
    }
}

fn clone_opt(o: &Option<String>) -> (r: Option<String>)
    ensures
        r.deep_view() == o.deep_view(),
{
    match o {
        Some(s) => Some(s.clone()),
        None => None,
    }
}

pub open spec fn record_views(rows: Seq<ObjectRecord>) -> Seq<ObjectRecordV> {
    rows.map_values(|r: ObjectRecord| r@)
}

/// The first row stored under a path.
pub open spec fn spec_meta_lookup(rows: Seq<ObjectRecordV>, path: Seq<char>) -> Option<
    ObjectRecordV,
>
    decreases rows.len(),
{
    if rows.len() == 0 {
        None
    } else if rows.first().path == path {
        Some(rows.first())
    } else {
        spec_meta_lookup(rows.drop_first(), path)
    }
}

/// No two rows share a path.
pub open spec fn paths_unique(rows: Seq<ObjectRecordV>) -> bool {
    forall|i: int, j: int|
        0 <= i < j < rows.len() ==> (#[trigger] rows[i]).path != (#[trigger] rows[j]).path
}

/// Why a metadata operation failed.
#[derive(Debug)]
pub enum MetaError {
    /// An insert would duplicate a path.
    Conflict,
    /// The row to read or delete is not there.
    NotFound,
}

/// The rows of the `object` table, unique by path.
pub struct MetadataTable {
    rows: Vec<ObjectRecord>,
}

impl View for MetadataTable {
    type V = Seq<ObjectRecordV>;

    closed spec fn view(&self) -> Seq<ObjectRecordV> {
        record_views(self.rows@)
    }
}

impl MetadataTable {
    pub open spec fn wf(&self) -> bool {
        paths_unique(self@)
    }

    /// An empty table.
    pub fn new() -> (r: Self)
        ensures
            r@ == Seq::<ObjectRecordV>::empty(),
            r.wf(),
    {
        let r = MetadataTable { rows: Vec::new() };
        assert(r@ =~= Seq::<ObjectRecordV>::empty());
        r
    }

    /// Fetch the row for a path.
    pub fn get_by_path(&self, path: &str) -> (r: Option<ObjectRecord>)
        ensures
            r matches Some(row) ==> spec_meta_lookup(self@, path@) == Some(row@),
            r is None ==> spec_meta_lookup(self@, path@) is None,
    {
        let n = self.rows.len();
        let mut i: usize = 0;
        assert(self@.skip(0) == self@);
        while i < n
            invariant_except_break
                spec_meta_lookup(self@, path@) == spec_meta_lookup(self@.skip(i as int), path@),
            invariant
                i <= n,
                n == self.rows@.len(),
            ensures
                i < n ==> spec_meta_lookup(self@, path@) == Some(self.rows@[i as int]@),
                i == n ==> spec_meta_lookup(self@, path@) is None,
            decreases n - i,
        {
            let ghost mid = self@.skip(i as int);
            proof {
                assert(mid.first() == self@[i as int]);
                assert(mid.drop_first() =~= self@.skip(i + 1));
            }
            if crate::text::str_eq(self.rows[i].path.as_str(), path) {
                break;
            }
            i = i + 1;
        }
        if i < n {
            Some(self.rows[i].clone())
        } else {
            assert(self@.skip(n as int) =~= Seq::<ObjectRecordV>::empty());
            None
        }
    }

    /// Insert a row; a duplicate path is refused and the table kept as it
    /// was.
    pub fn insert(&mut self, row: ObjectRecord) -> (r: Result<(), MetaError>)
        requires
            old(self).wf(),
        ensures
            final(self).wf(),
            r is Ok <==> spec_meta_lookup(old(self)@, row@.path) is None,
            r is Ok ==> final(self)@ == old(self)@.push(row@),
            r is Err ==> final(self)@ == old(self)@ && r == Err::<(), MetaError>(
                MetaError::Conflict,
            ),
    {
        let existing = self.get_by_path(row.path.as_str());
        if existing.is_some() {
            return Err(MetaError::Conflict);
        }
        proof {
            lemma_lookup_none_no_path(self@, row@.path);
        }
        let ghost old_rows = self@;
        self.rows.push(row);
        proof {
            assert(self@ =~= old_rows.push(row@));
            assert forall|i: int, j: int| 0 <= i < j < self@.len() implies (
            #[trigger] self@[i]).path != (#[trigger] self@[j]).path by {
                if j < old_rows.len() {
                } else {
                    assert(self@[j] == row@);
                }
            }
        }
        Ok(())
    }

    /// Insert several rows in one transaction: all or none. It succeeds
    /// exactly when the rows' paths are fresh and mutually distinct — so an
    /// empty batch always succeeds and changes nothing.
    pub fn insert_many(&mut self, rows: Vec<ObjectRecord>) -> (r: Result<(), MetaError>)
        requires
            old(self).wf(),
        ensures
            final(self).wf(),
            r is Ok <==> paths_unique(old(self)@ + record_views(rows@)),
            r is Ok ==> final(self)@ == old(self)@ + record_views(rows@),
            r is Err ==> final(self)@ == old(self)@ && r == Err::<(), MetaError>(
                MetaError::Conflict,
            ),
    {
        let ghost base = self@;
        let mut staged = MetadataTable { rows: Vec::new() };
        let mut all: Vec<ObjectRecord> = Vec::new();
        let n = self.rows.len();
        let mut i: usize = 0;
        while i < n
            invariant
                i <= n,
                n == self.rows@.len(),
                all@.len() == i,
                forall|j: int| 0 <= j < i ==> all@[j]@ == self.rows@[j]@,
            decreases n - i,
        {
            all.push(self.rows[i].clone());
            i = i + 1;
        }
        let m = rows.len();
        let mut k: usize = 0;
        while k < m
            invariant
                k <= m,
                m == rows@.len(),
                all@.len() == n + k,
                n == self.rows@.len(),
                forall|j: int| 0 <= j < n ==> all@[j]@ == self.rows@[j]@,
                forall|j: int| n <= j < n + k ==> all@[j]@ == rows@[j - n]@,
            decreases m - k,
        {
            all.push(rows[k].clone());
            k = k + 1;
        }
        // Re-check uniqueness over the union by inserting into a scratch
        // table.
        let total = all.len();
        let mut t: usize = 0;
        let ghost all_views = record_views(all@);
        assert(staged@ =~= all_views.take(0));
        assert(record_views(all@) =~= self@ + record_views(rows@));
        while t < total
            invariant
                t <= total,
                total == all@.len(),
                staged.wf(),
                staged@ == record_views(all@).take(t as int),
                self@ == old(self)@,
                old(self).wf(),
                record_views(all@) == old(self)@ + record_views(rows@),
            decreases total - t,
        {
            let ghost pre = staged@;
            let row = all[t].clone();
            let res = staged.insert(row);
            if res.is_err() {
                proof {
                    // The refused path already stands earlier in the batch,
                    // so the combined paths are not unique.
                    let combined = record_views(all@);
                    assert(spec_meta_lookup(pre, combined[t as int].path) is Some);
                    lemma_lookup_some_index(pre, combined[t as int].path);
                    let tpath = combined[t as int].path;
                    let j = choose|j: int| 0 <= j < pre.len() && (#[trigger] pre[j]).path == tpath;
                    assert(combined[j].path == combined[t as int].path);
                    assert(!paths_unique(combined));
                    assert(self@ == old(self)@);
                    assert(paths_unique(self@));
                }
                return Err(MetaError::Conflict);
            }
            proof {
                assert(record_views(all@).take(t + 1).drop_last() =~= record_views(all@).take(
                    t as int,
                ));
                assert(staged@ =~= pre.push(all@[t as int]@));
                assert(staged@ =~= record_views(all@).take(t + 1));
            }
            t = t + 1;
        }
        proof {
            assert(record_views(all@).take(total as int) =~= record_views(all@));
            assert(record_views(all@) =~= base + record_views(rows@));
        }
        self.rows = staged.rows;
        proof {
            assert(self@ == staged@);
        }
        Ok(())
    }

    /// Delete the row stored under a path.
    pub fn delete(&mut self, path: &str) -> (r: Result<(), MetaError>)
        requires
            old(self).wf(),
        ensures
            final(self).wf(),
            r is Ok <==> spec_meta_lookup(old(self)@, path@) is Some,
            r is Ok ==> final(self)@ == spec_meta_remove(old(self)@, path@),
            r is Err ==> final(self)@ == old(self)@ && r == Err::<(), MetaError>(
                MetaError::NotFound,
            ),
    {
        let n = self.rows.len();
        let mut i: usize = 0;
        assert(self@.skip(0) == self@);
        while i < n
            invariant_except_break
                spec_meta_lookup(self@, path@) == spec_meta_lookup(self@.skip(i as int), path@),
                spec_meta_remove(self@, path@) =~= self@.take(i as int) + spec_meta_remove(
                    self@.skip(i as int),
                    path@,
                ),
                forall|j: int| 0 <= j < i ==> self@[j].path != path@,
            invariant
                i <= n,
                n == self.rows@.len(),
                self@ == old(self)@,
                old(self).wf(),
            ensures
                i < n ==> spec_meta_lookup(self@, path@) is Some && spec_meta_remove(self@, path@)
                    =~= self@.take(i as int) + self@.skip(i + 1) && self@[i as int].path == path@,
                i == n ==> spec_meta_lookup(self@, path@) is None,
            decreases n - i,
        {
            let ghost mid = self@.skip(i as int);
            proof {
                assert(mid.first() == self@[i as int]);
                assert(mid.drop_first() =~= self@.skip(i + 1));
            }
            if crate::text::str_eq(self.rows[i].path.as_str(), path) {
                proof {
                    assert(mid.first().path == path@);
                    assert(paths_unique(self@));
                    assert forall|j: int| 0 <= j < self@.skip(i + 1).len() implies (
                    #[trigger] self@.skip(i + 1)[j]).path != path@ by {
                        assert(self@.skip(i + 1)[j] == self@[i + 1 + j]);
                        assert(self@[i as int].path != self@[i + 1 + j].path);
                    }
                    lemma_remove_absent(self@.skip(i + 1), path@);
                }
                break;
            }
            proof {
                assert(self@.take(i + 1) =~= self@.take(i as int).push(self@[i as int]));
                assert(self@.take(i as int) + (seq![self@[i as int]] + spec_meta_remove(
                    self@.skip(i + 1),
                    path@,
                )) =~= self@.take(i + 1) + spec_meta_remove(self@.skip(i + 1), path@));
            }
            i = i + 1;
        }
        if i < n {
            let ghost old_view = self@;
            self.rows.remove(i);
            proof {
                assert(self@ =~= old_view.take(i as int) + old_view.skip(i + 1));
                assert(paths_unique(self@)) by {
                    assert(forall|j: int|
                        0 <= j < self@.len() ==> #[trigger] self@[j] == if j < i {
                            old_view[j]
                        } else {
                            old_view[j + 1]
                        });
                }
            }
            Ok(())
        } else {
            assert(self@.skip(n as int) =~= Seq::<ObjectRecordV>::empty());
            Err(MetaError::NotFound)
        }
    }
}

/// What deleting a path leaves: every row but those under it.
pub open spec fn spec_meta_remove(rows: Seq<ObjectRecordV>, path: Seq<char>) -> Seq<ObjectRecordV>
    decreases rows.len(),
{
    if rows.len() == 0 {
        rows
    } else if rows.first().path == path {
        spec_meta_remove(rows.drop_first(), path)
    } else {
        seq![rows.first()] + spec_meta_remove(rows.drop_first(), path)
    }
}

/// Removing a path that occurs nowhere changes nothing.
pub proof fn lemma_remove_absent(rows: Seq<ObjectRecordV>, path: Seq<char>)
    requires
        forall|i: int| 0 <= i < rows.len() ==> (#[trigger] rows[i]).path != path,
    ensures
        spec_meta_remove(rows, path) == rows,
    decreases rows.len(),
{
    if rows.len() > 0 {
        assert(forall|i: int|
            0 <= i < rows.drop_first().len() ==> (#[trigger] rows.drop_first()[i]).path != path);
        lemma_remove_absent(rows.drop_first(), path);
        assert(seq![rows.first()] + rows.drop_first() =~= rows);
    }
}

/// After removing a path, its lookup fails.
pub proof fn lemma_remove_lookup_none(rows: Seq<ObjectRecordV>, path: Seq<char>)
    ensures
        spec_meta_lookup(spec_meta_remove(rows, path), path) is None,
    decreases rows.len(),
{
    if rows.len() > 0 {
        lemma_remove_lookup_none(rows.drop_first(), path);
        if rows.first().path != path {
            let r = seq![rows.first()] + spec_meta_remove(rows.drop_first(), path);
            assert(r.first() == rows.first());
            assert(r.drop_first() =~= spec_meta_remove(rows.drop_first(), path));
        }
    }
}

/// A path that lookup finds occurs at some index.
pub proof fn lemma_lookup_some_index(rows: Seq<ObjectRecordV>, path: Seq<char>)
    requires
        spec_meta_lookup(rows, path) is Some,
    ensures
        exists|i: int| 0 <= i < rows.len() && (#[trigger] rows[i]).path == path,
    decreases rows.len(),
{
    if rows.first().path == path {
        assert(rows[0].path == path);
    } else {
        lemma_lookup_some_index(rows.drop_first(), path);
        let j = choose|j: int|
            0 <= j < rows.drop_first().len() && (#[trigger] rows.drop_first()[j]).path == path;
        assert(rows[j + 1].path == path);
    }
}

/// A path that fails lookup occurs in no row.
pub proof fn lemma_lookup_none_no_path(rows: Seq<ObjectRecordV>, path: Seq<char>)
    requires
        spec_meta_lookup(rows, path) is None,
    ensures
        forall|i: int| 0 <= i < rows.len() ==> (#[trigger] rows[i]).path != path,
    decreases rows.len(),
{
    if rows.len() > 0 {
        lemma_lookup_none_no_path(rows.drop_first(), path);
        assert(forall|i: int| 1 <= i < rows.len() ==> rows[i] == rows.drop_first()[i - 1]);
    }
}

/// A successful lookup returns a row with the looked-up path.
pub proof fn lemma_lookup_finds_path(rows: Seq<ObjectRecordV>, path: Seq<char>)
    requires
        spec_meta_lookup(rows, path) is Some,
    ensures
        spec_meta_lookup(rows, path)->0.path == path,
    decreases rows.len(),
{
    if rows.len() > 0 && rows.first().path != path {
        lemma_lookup_finds_path(rows.drop_first(), path);
    }
}

} // verus!
