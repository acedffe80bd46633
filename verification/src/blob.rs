//! The blob store: finalized objects addressed by their content hash, and
//! the per-upload directories of numbered part files that multipart uploads
//! stream into.
//!
//! Merging concatenates a session's part files in numeric part order into
//! the final object, and the merged size is exactly the sum of the part
//! sizes.

use vstd::prelude::*;

verus! {

use vstd::string::StringExecFns;

/// Why a blob operation failed.
#[derive(Debug)]
pub enum BlobError {
    /// The file or multipart directory is not there.
    NotFound,
    /// Writing would overwrite an existing file or part.
    AlreadyExists,
}

pub open spec fn file_views(fs: Seq<(String, Vec<u8>)>) -> Seq<(Seq<char>, Seq<u8>)> {
    fs.map_values(|p: (String, Vec<u8>)| (p.0@, p.1@))
}

pub open spec fn part_views(ps: Seq<(u64, Vec<u8>)>) -> Seq<(u64, Seq<u8>)> {
    ps.map_values(|p: (u64, Vec<u8>)| (p.0, p.1@))
}

pub open spec fn dir_views(ds: Seq<(String, Vec<(u64, Vec<u8>)>)>) -> Seq<
    (Seq<char>, Seq<(u64, Seq<u8>)>),
> {
    ds.map_values(|p: (String, Vec<(u64, Vec<u8>)>)| (p.0@, part_views(p.1@)))
}

/// The content stored under a filename.
pub open spec fn spec_file_lookup(fs: Seq<(Seq<char>, Seq<u8>)>, name: Seq<char>) -> Option<Seq<u8>>
    decreases fs.len(),
{
    if fs.len() == 0 {
        None
    } else if fs.first().0 == name {
        Some(fs.first().1)
    } else {
        spec_file_lookup(fs.drop_first(), name)
    }
}

/// The part files of a multipart directory.
pub open spec fn spec_dir_lookup(
    ds: Seq<(Seq<char>, Seq<(u64, Seq<u8>)>)>,
    id: Seq<char>,
) -> Option<Seq<(u64, Seq<u8>)>>
    decreases ds.len(),
{
    if ds.len() == 0 {
        None
    } else if ds.first().0 == id {
        Some(ds.first().1)
    } else {
        spec_dir_lookup(ds.drop_first(), id)
    }
}

pub open spec fn spec_part_lookup(ps: Seq<(u64, Seq<u8>)>, n: u64) -> Option<Seq<u8>>
    decreases ps.len(),
{
    if ps.len() == 0 {
        None
    } else if ps.first().0 == n {
        Some(ps.first().1)
    } else {
        spec_part_lookup(ps.drop_first(), n)
    }
}

pub open spec fn file_names_unique(fs: Seq<(Seq<char>, Seq<u8>)>) -> bool {
    forall|i: int, j: int|
        0 <= i < j < fs.len() ==> (#[trigger] fs[i]).0 != (#[trigger] fs[j]).0
}

pub open spec fn dir_ids_unique(ds: Seq<(Seq<char>, Seq<(u64, Seq<u8>)>)>) -> bool {
    forall|i: int, j: int|
        0 <= i < j < ds.len() ==> (#[trigger] ds[i]).0 != (#[trigger] ds[j]).0
}

pub open spec fn part_numbers_unique(ps: Seq<(u64, Seq<u8>)>) -> bool {
    forall|i: int, j: int|
        0 <= i < j < ps.len() ==> (#[trigger] ps[i]).0 != (#[trigger] ps[j]).0
}

// ---------------------------------------------------------------------------
// Merging parts in numeric order
// ---------------------------------------------------------------------------

/// The first index holding the smallest part number.
pub open spec fn min_part_index(ps: Seq<(u64, Seq<u8>)>) -> int
    decreases ps.len(),
{
    if ps.len() <= 1 {
        0
    } else {
        let j = min_part_index(ps.drop_first()) + 1;
        if ps[0].0 <= ps[j].0 {
            0
        } else {
            j
        }
    }
}

pub proof fn lemma_min_part_index(ps: Seq<(u64, Seq<u8>)>)
    requires
        ps.len() > 0,
    ensures
        0 <= min_part_index(ps) < ps.len(),
        forall|j: int|
            0 <= j < ps.len() ==> ps[min_part_index(ps)].0 <= (#[trigger] ps[j]).0,
        forall|j: int| 0 <= j < min_part_index(ps) ==> (#[trigger] ps[j]).0 > ps[min_part_index(
            ps,
        )].0,
    decreases ps.len(),
{
    if ps.len() > 1 {
        lemma_min_part_index(ps.drop_first());
        let d = ps.drop_first();
        let md = min_part_index(d);
        let mi = min_part_index(ps);
        assert(d[md] == ps[md + 1]);
        assert forall|j: int| 0 <= j < ps.len() implies ps[mi].0 <= (#[trigger] ps[j]).0 by {
            if j > 0 {
                assert(d[j - 1] == ps[j]);
                assert(d[md].0 <= d[j - 1].0);
            }
        }
        assert forall|j: int| 0 <= j < mi implies (#[trigger] ps[j]).0 > ps[mi].0 by {
            if j > 0 {
                assert(d[j - 1] == ps[j]);
                assert(d[j - 1].0 > d[md].0);
            }
        }
    }
}

/// The concatenation of the part contents, smallest part number first.
pub open spec fn spec_merge_parts(ps: Seq<(u64, Seq<u8>)>) -> Seq<u8>
    decreases ps.len(),
    via spec_merge_parts_decreases
{
    if ps.len() == 0 {
        Seq::<u8>::empty()
    } else {
        ps[min_part_index(ps)].1 + spec_merge_parts(ps.remove(min_part_index(ps)))
    }
}

#[via_fn]
proof fn spec_merge_parts_decreases(ps: Seq<(u64, Seq<u8>)>) {
    if ps.len() > 0 {
        lemma_min_part_index(ps);
    }
}

/// The sum of the part sizes.
pub open spec fn spec_total_size(ps: Seq<(u64, Seq<u8>)>) -> int
    decreases ps.len(),
{
    if ps.len() == 0 {
        0int
    } else {
        ps.first().1.len() + spec_total_size(ps.drop_first())
    }
}

proof fn lemma_total_size_remove(ps: Seq<(u64, Seq<u8>)>, i: int)
    requires
        0 <= i < ps.len(),
    ensures
        spec_total_size(ps) == ps[i].1.len() + spec_total_size(ps.remove(i)),
    decreases ps.len(),
{
    if i == 0 {
        assert(ps.remove(0) =~= ps.drop_first());
    } else {
        lemma_total_size_remove(ps.drop_first(), i - 1);
        assert(ps.remove(i).drop_first() =~= ps.drop_first().remove(i - 1));
        assert(ps.remove(i).first() == ps.first());
        assert(ps.remove(i).len() == ps.len() - 1);
    }
}

/// The merged object is exactly as large as its parts together: the sum of
/// the part file sizes.
pub proof fn lemma_merged_size_is_sum(ps: Seq<(u64, Seq<u8>)>)
    ensures
        spec_merge_parts(ps).len() == spec_total_size(ps),
    decreases ps.len(),
{
    if ps.len() > 0 {
        lemma_min_part_index(ps);
        let i = min_part_index(ps);
        lemma_merged_size_is_sum(ps.remove(i));
        lemma_total_size_remove(ps, i);
        assert(ps.remove(i).len() == ps.len() - 1);
    }
}

// ---------------------------------------------------------------------------
// The store
// ---------------------------------------------------------------------------

/// The bucket directory: finalized objects and in-progress multipart
/// directories.
pub struct BlobStore {
    files: Vec<(String, Vec<u8>)>,
    multipart: Vec<(String, Vec<(u64, Vec<u8>)>)>,
}

/// The mathematical shadow of the bucket.
pub struct BlobStoreV {
    pub files: Seq<(Seq<char>, Seq<u8>)>,
    pub multipart: Seq<(Seq<char>, Seq<(u64, Seq<u8>)>)>,
}

impl View for BlobStore {
    type V = BlobStoreV;

    closed spec fn view(&self) -> BlobStoreV {
        BlobStoreV { files: file_views(self.files@), multipart: dir_views(self.multipart@) }
    }
}

impl BlobStore {
    pub open spec fn wf(&self) -> bool {
        &&& file_names_unique(self@.files)
        &&& dir_ids_unique(self@.multipart)
        &&& forall|i: int|
            0 <= i < self@.multipart.len() ==> part_numbers_unique(
                (#[trigger] self@.multipart[i]).1,
            )
    }

    pub fn new() -> (r: Self)
        ensures
            r@.files == Seq::<(Seq<char>, Seq<u8>)>::empty(),
            r@.multipart == Seq::<(Seq<char>, Seq<(u64, Seq<u8>)>)>::empty(),
            r.wf(),
    {
        let r = BlobStore { files: Vec::new(), multipart: Vec::new() };
        assert(r@.files =~= Seq::<(Seq<char>, Seq<u8>)>::empty());
        assert(r@.multipart =~= Seq::<(Seq<char>, Seq<(u64, Seq<u8>)>)>::empty());
        r
    }

    /// Discard every multipart directory, as startup does with orphaned
    /// sessions.
    pub fn clear_multipart(&mut self)
        requires
            old(self).wf(),
        ensures
            final(self).wf(),
            final(self)@.files == old(self)@.files,
            final(self)@.multipart == Seq::<(Seq<char>, Seq<(u64, Seq<u8>)>)>::empty(),
    {
        self.multipart = Vec::new();
        assert(self@.multipart =~= Seq::<(Seq<char>, Seq<(u64, Seq<u8>)>)>::empty());
    }

    fn find_file(&self, name: &str) -> (r: usize)
        ensures
            r <= self@.files.len(),
            r < self@.files.len() ==> self@.files[r as int].0 == name@ && spec_file_lookup(
                self@.files,
                name@,
            ) == Some(self@.files[r as int].1),
            r == self@.files.len() ==> spec_file_lookup(self@.files, name@) is None,
    {
        let n = self.files.len();
        let mut i: usize = 0;
        assert(self@.files.skip(0) == self@.files);
        while i < n
            invariant_except_break
                spec_file_lookup(self@.files, name@) == spec_file_lookup(
                    self@.files.skip(i as int),
                    name@,
                ),
            invariant
                i <= n,
                n == self.files@.len(),
            ensures
                i < n ==> self@.files[i as int].0 == name@ && spec_file_lookup(self@.files, name@)
                    == Some(self@.files[i as int].1),
                i == n ==> spec_file_lookup(self@.files, name@) is None,
            decreases n - i,
        {
            let ghost mid = self@.files.skip(i as int);
            proof {
                assert(mid.first() == self@.files[i as int]);
                assert(mid.drop_first() =~= self@.files.skip(i + 1));
            }
            if crate::text::str_eq(self.files[i].0.as_str(), name) {
                break;
            }
            i = i + 1;
        }
        if i == n {
            assert(self@.files.skip(n as int) =~= Seq::<(Seq<char>, Seq<u8>)>::empty());
        }
        i
    }

    fn find_dir(&self, id: &str) -> (r: usize)
        ensures
            r <= self@.multipart.len(),
            r < self@.multipart.len() ==> self@.multipart[r as int].0 == id@ && spec_dir_lookup(
                self@.multipart,
                id@,
            ) == Some(self@.multipart[r as int].1),
            r == self@.multipart.len() ==> spec_dir_lookup(self@.multipart, id@) is None,
    {
        let n = self.multipart.len();
        let mut i: usize = 0;
        assert(self@.multipart.skip(0) == self@.multipart);
        while i < n
            invariant_except_break
                spec_dir_lookup(self@.multipart, id@) == spec_dir_lookup(
                    self@.multipart.skip(i as int),
                    id@,
                ),
            invariant
                i <= n,
                n == self.multipart@.len(),
            ensures
                i < n ==> self@.multipart[i as int].0 == id@ && spec_dir_lookup(
                    self@.multipart,
                    id@,
                ) == Some(self@.multipart[i as int].1),
                i == n ==> spec_dir_lookup(self@.multipart, id@) is None,
            decreases n - i,
        {
            let ghost mid = self@.multipart.skip(i as int);
            proof {
                assert(mid.first() == self@.multipart[i as int]);
                assert(mid.drop_first() =~= self@.multipart.skip(i + 1));
            }
            if crate::text::str_eq(self.multipart[i].0.as_str(), id) {
                break;
            }
            i = i + 1;
        }
        if i == n {
            assert(self@.multipart.skip(n as int) =~= Seq::<
                (Seq<char>, Seq<(u64, Seq<u8>)>),
            >::empty());
        }
        i
    }

    /// Whether a finalized object is stored under this name.
    pub fn has_object(&self, internal_filename: &str) -> (r: bool)
        ensures
            r == (spec_file_lookup(self@.files, internal_filename@) is Some),
    {
        self.find_file(internal_filename) < self.files.len()
    }

    /// Whether a multipart directory exists for this upload ID.
    pub fn has_multipart_dir(&self, upload_id: &str) -> (r: bool)
        ensures
            r == (spec_dir_lookup(self@.multipart, upload_id@) is Some),
    {
        self.find_dir(upload_id) < self.multipart.len()
    }

    /// Read a finalized object's bytes.
    pub fn read_object(&self, internal_filename: &str) -> (r: Result<Vec<u8>, BlobError>)
        ensures
            r matches Ok(d) ==> spec_file_lookup(self@.files, internal_filename@) == Some(d@),
            r is Err ==> spec_file_lookup(self@.files, internal_filename@) is None && r == Err::<
                Vec<u8>,
                BlobError,
            >(BlobError::NotFound),
    {
        let i = self.find_file(internal_filename);
        if i < self.files.len() {
            Ok(clone_bytes(&self.files[i].1))
        } else {
            Err(BlobError::NotFound)
        }
    }

    /// Write a finalized object; an existing file is never overwritten.
    pub fn write_object(&mut self, internal_filename: &str, data: Vec<u8>) -> (r: Result<
        (),
        BlobError,
    >)
        requires
            old(self).wf(),
        ensures
            final(self).wf(),
            r is Ok <==> spec_file_lookup(old(self)@.files, internal_filename@) is None,
            r is Ok ==> final(self)@.files == old(self)@.files.push((internal_filename@, data@))
                && final(self)@.multipart == old(self)@.multipart,
            r is Err ==> final(self)@ == old(self)@ && r == Err::<(), BlobError>(
                BlobError::AlreadyExists,
            ),
    {
        let i = self.find_file(internal_filename);
        if i < self.files.len() {
            return Err(BlobError::AlreadyExists);
        }
        let ghost old_files = self@.files;
        let name = String::from_str(internal_filename);
        self.files.push((name, data));
        proof {
            assert(self@.files =~= old_files.push((internal_filename@, data@)));
            assert(self@.multipart =~= old(self)@.multipart);
            lemma_file_absent_unique(old_files, internal_filename@, data@);
        }
        Ok(())
    }

    /// Write one part file of a multipart upload, creating its directory on
    /// first use; an existing part is never overwritten.
    pub fn write_part(&mut self, upload_id: &str, number: u64, data: Vec<u8>) -> (r: Result<
        (),
        BlobError,
    >)
        requires
            old(self).wf(),
        ensures
            final(self).wf(),
            final(self)@.files == old(self)@.files,
            ({
                let parts = spec_dir_lookup(old(self)@.multipart, upload_id@);
                match parts {
                    None => r is Ok && spec_dir_lookup(final(self)@.multipart, upload_id@) == Some(
                        seq![(number, data@)],
                    ),
                    Some(ps) => {
                        if spec_part_lookup(ps, number) is Some {
                            r == Err::<(), BlobError>(BlobError::AlreadyExists) && final(self)@
                                == old(self)@
                        } else {
                            r is Ok && spec_dir_lookup(final(self)@.multipart, upload_id@) == Some(
                                ps.push((number, data@)),
                            )
                        }
                    },
                }
            }),
            r is Ok ==> forall|other: Seq<char>|
                other != upload_id@ ==> #[trigger] spec_dir_lookup(final(self)@.multipart, other)
                    == spec_dir_lookup(old(self)@.multipart, other),
    {
        let i = self.find_dir(upload_id);
        let ghost old_dirs = self@.multipart;
        if i < self.multipart.len() {
            // Look for the part inside the existing directory.
            let parts_len = self.multipart[i].1.len();
            let ghost ps = self@.multipart[i as int].1;
            let mut k: usize = 0;
            assert(ps.skip(0) == ps);
            while k < parts_len
                invariant_except_break
                    spec_part_lookup(ps, number) == spec_part_lookup(ps.skip(k as int), number),
                invariant
                    k <= parts_len,
                    i < self.multipart@.len(),
                    parts_len == self.multipart@[i as int].1@.len(),
                    ps == self@.multipart[i as int].1,
                    self@.multipart == old_dirs,
                ensures
                    k < parts_len ==> spec_part_lookup(ps, number) is Some,
                    k == parts_len ==> spec_part_lookup(ps, number) is None,
                decreases parts_len - k,
            {
                let ghost mid = ps.skip(k as int);
                proof {
                    assert(mid.first() == ps[k as int]);
                    assert(mid.drop_first() =~= ps.skip(k + 1));
                }
                if self.multipart[i].1[k].0 == number {
                    break;
                }
                k = k + 1;
            }
            if k < parts_len {
                return Err(BlobError::AlreadyExists);
            }
            let ghost old_parts_vec = self.multipart@[i as int].1@;
            let data_pair = (number, data);
            vec_push_part(&mut self.multipart, i, data_pair);
            proof {
                assert(self@.multipart[i as int].1 =~= ps.push((number, data@)));
                assert(forall|j: int|
                    0 <= j < self@.multipart.len() && j != i ==> #[trigger] self@.multipart[j]
                        == old_dirs[j]);
                lemma_dir_update_lookup(old_dirs, self@.multipart, i as int, upload_id@);
                assert(part_numbers_unique(self@.multipart[i as int].1)) by {
                    lemma_part_absent_unique(ps, number);
                }
                assert(self@.files =~= old(self)@.files);
            }
            Ok(())
        } else {
            let ghost old_view = self@.multipart;
            let id = String::from_str(upload_id);
            let mut parts: Vec<(u64, Vec<u8>)> = Vec::new();
            parts.push((number, data));
            let ghost new_parts = part_views(parts@);
            self.multipart.push((id, parts));
            proof {
                assert(new_parts =~= seq![(number, data@)]);
                assert(self@.multipart =~= old_view.push((upload_id@, new_parts)));
                lemma_dir_push_lookup(old_view, upload_id@, new_parts);
                assert forall|p: int, q: int| 0 <= p < q < self@.multipart.len() implies (
                #[trigger] self@.multipart[p]).0 != (#[trigger] self@.multipart[q]).0 by {
                    if q == self@.multipart.len() - 1 {
                        lemma_dir_absent_no_id(old_view, upload_id@, p);
                    }
                }
                assert(self@.files =~= old(self)@.files);
            }
            Ok(())
        }
    }

    /// Merge a session's part files, smallest part number first, into the
    /// final object, and hand back its size. The multipart directory must
    /// exist and the target must not.
    pub fn merge_partial_uploads(&mut self, upload_id: &str, internal_filename: &str) -> (r: Result<
        u64,
        BlobError,
    >)
        requires
            old(self).wf(),
        ensures
            final(self).wf(),
            final(self)@.multipart == old(self)@.multipart,
            spec_dir_lookup(old(self)@.multipart, upload_id@) is None ==> r == Err::<u64, BlobError>(
                BlobError::NotFound,
            ) && final(self)@ == old(self)@,
            spec_dir_lookup(old(self)@.multipart, upload_id@) is Some && spec_file_lookup(
                old(self)@.files,
                internal_filename@,
            ) is Some ==> r == Err::<u64, BlobError>(BlobError::AlreadyExists) && final(self)@ == old(
                self,
            )@,
            spec_dir_lookup(old(self)@.multipart, upload_id@) is Some && spec_file_lookup(
                old(self)@.files,
                internal_filename@,
            ) is None ==> ({
                let ps = spec_dir_lookup(old(self)@.multipart, upload_id@)->0;
                &&& r matches Ok(size) && size == spec_merge_parts(ps).len()
                &&& final(self)@.files == old(self)@.files.push(
                    (internal_filename@, spec_merge_parts(ps)),
                )
            }),
    {
        let d = self.find_dir(upload_id);
        if d == self.multipart.len() {
            return Err(BlobError::NotFound);
        }
        let f = self.find_file(internal_filename);
        if f < self.files.len() {
            return Err(BlobError::AlreadyExists);
        }
        let ghost ps0 = self@.multipart[d as int].1;
        // Copy the parts out, then drain them smallest number first.
        let mut remaining: Vec<(u64, Vec<u8>)> = Vec::new();
        let total = self.multipart[d].1.len();
        let mut t: usize = 0;
        while t < total
            invariant
                t <= total,
                d < self.multipart@.len(),
                total == self.multipart@[d as int].1@.len(),
                ps0 == self@.multipart[d as int].1,
                part_views(remaining@) == ps0.take(t as int),
            decreases total - t,
        {
            let ghost pre = part_views(remaining@);
            let number = self.multipart[d].1[t].0;
            let bytes = clone_bytes(&self.multipart[d].1[t].1);
            remaining.push((number, bytes));
            proof {
                assert(part_views(remaining@) =~= pre.push(ps0[t as int]));
                assert(ps0.take(t + 1) =~= ps0.take(t as int).push(ps0[t as int]));
            }
            t = t + 1;
        }
        assert(ps0.take(total as int) =~= ps0);
        let mut out: Vec<u8> = Vec::new();
        while remaining.len() > 0
            invariant
                out@ + spec_merge_parts(part_views(remaining@)) == spec_merge_parts(ps0),
            decreases remaining@.len(),
        {
            let ghost ps = part_views(remaining@);
            proof {
                lemma_min_part_index(ps);
            }
            let n = remaining.len();
            let mut m: usize = 0;
            let mut j: usize = 1;
            while j < n
                invariant
                    m < j <= n,
                    n == remaining@.len(),
                    ps == part_views(remaining@),
                    forall|q: int| 0 <= q < j ==> ps[m as int].0 <= (#[trigger] ps[q]).0,
                    forall|q: int| 0 <= q < m ==> (#[trigger] ps[q]).0 > ps[m as int].0,
                decreases n - j,
            {
                if remaining[j].0 < remaining[m].0 {
                    m = j;
                }
                j = j + 1;
            }
            proof {
                let mi = min_part_index(ps);
                if m < mi {
                    assert(ps[m as int].0 > ps[mi].0);
                    assert(ps[mi].0 >= ps[m as int].0);
                } else if mi < (m as int) {
                    assert(ps[mi].0 > ps[m as int].0);
                    assert(ps[m as int].0 >= ps[mi].0);
                }
                assert(m as int == mi);
            }
            let (_num, bytes) = remaining.remove(m);
            let ghost old_out = out@;
            append_bytes(&mut out, &bytes);
            proof {
                assert(part_views(remaining@) =~= ps.remove(m as int));
                assert(out@ =~= old_out + ps[m as int].1);
            }
        }
        assert(part_views(remaining@) =~= Seq::<(u64, Seq<u8>)>::empty());
        assert(out@ == spec_merge_parts(ps0));
        let ghost old_files = self@.files;
        let size = out.len() as u64;
        let name = String::from_str(internal_filename);
        self.files.push((name, out));
        proof {
            assert(self@.files =~= old_files.push((internal_filename@, spec_merge_parts(ps0))));
            lemma_file_absent_unique(old_files, internal_filename@, spec_merge_parts(ps0));
            assert(self@.multipart =~= old(self)@.multipart);
        }
        Ok(size)
    }

    /// Delete a finalized object or a whole multipart directory.
    pub fn delete_object(&mut self, internal_path: &str, is_multipart: bool) -> (r: Result<
        (),
        BlobError,
    >)
        requires
            old(self).wf(),
        ensures
            final(self).wf(),
            is_multipart ==> {
                &&& final(self)@.files == old(self)@.files
                &&& (r is Ok <==> spec_dir_lookup(old(self)@.multipart, internal_path@) is Some)
                &&& r is Err ==> final(self)@ == old(self)@ && r == Err::<(), BlobError>(
                    BlobError::NotFound,
                )
                &&& r is Ok ==> spec_dir_lookup(final(self)@.multipart, internal_path@) is None && (
                forall|other: Seq<char>|
                    other != internal_path@ ==> #[trigger] spec_dir_lookup(
                        final(self)@.multipart,
                        other,
                    ) == spec_dir_lookup(old(self)@.multipart, other))
            },
            !is_multipart ==> {
                &&& final(self)@.multipart == old(self)@.multipart
                &&& (r is Ok <==> spec_file_lookup(old(self)@.files, internal_path@) is Some)
                &&& r is Err ==> final(self)@ == old(self)@ && r == Err::<(), BlobError>(
                    BlobError::NotFound,
                )
                &&& r is Ok ==> spec_file_lookup(final(self)@.files, internal_path@) is None && (
                forall|other: Seq<char>|
                    other != internal_path@ ==> #[trigger] spec_file_lookup(
                        final(self)@.files,
                        other,
                    ) == spec_file_lookup(old(self)@.files, other))
            },
    {
        if is_multipart {
            let i = self.find_dir(internal_path);
            if i == self.multipart.len() {
                return Err(BlobError::NotFound);
            }
            let ghost old_view = self@.multipart;
            self.multipart.remove(i);
            proof {
                assert(self@.multipart =~= old_view.take(i as int) + old_view.skip(i + 1));
                lemma_dir_remove(old_view, i as int, internal_path@);
                assert(self@.files =~= old(self)@.files);
            }
            Ok(())
        } else {
            let i = self.find_file(internal_path);
            if i == self.files.len() {
                return Err(BlobError::NotFound);
            }
            let ghost old_view = self@.files;
            self.files.remove(i);
            proof {
                assert(self@.files =~= old_view.take(i as int) + old_view.skip(i + 1));
                lemma_file_remove(old_view, i as int, internal_path@);
                assert(self@.multipart =~= old(self)@.multipart);
            }
            Ok(())
        }
    }
}

/// Where a stored name lives under the bucket directory: multipart entries
/// under `.multipart/`, finalized objects at the top.
pub open spec fn spec_resolve_path(
    bucket: Seq<char>,
    internal_path: Seq<char>,
    is_multipart: bool,
) -> Seq<char> {
    if is_multipart {
        bucket + "/.multipart/"@ + internal_path
    } else {
        bucket + "/"@ + internal_path
    }
}

/// Resolve a stored name against the bucket directory.
pub fn resolve_path(bucket_path: &str, internal_path: &str, is_multipart: bool) -> (r: String)
    ensures
        r@ == spec_resolve_path(bucket_path@, internal_path@, is_multipart),
{
    let mut r = String::new();
    r.append(bucket_path);
    if is_multipart {
        r.append("/.multipart/");
    } else {
        r.append("/");
    }
    r.append(internal_path);
    r
}

// ---------------------------------------------------------------------------
// Helpers
// ---------------------------------------------------------------------------

/// Push a part onto the directory at `i`, in place.
fn vec_push_part(
    dirs: &mut Vec<(String, Vec<(u64, Vec<u8>)>)>,
    i: usize,
    pair: (u64, Vec<u8>),
)
    requires
        i < old(dirs)@.len(),
    ensures
        final(dirs)@.len() == old(dirs)@.len(),
        final(dirs)@[i as int].0 == old(dirs)@[i as int].0,
        final(dirs)@[i as int].1@ == old(dirs)@[i as int].1@.push(pair),
        forall|j: int|
            0 <= j < old(dirs)@.len() && j != i ==> final(dirs)@[j] == #[trigger] old(dirs)@[j],
{
    let pairs = &mut dirs[i].1;
    pairs.push(pair);
}

fn clone_bytes(v: &Vec<u8>) -> (r: Vec<u8>)
    ensures
        r@ == v@,
{
    let mut r: Vec<u8> = Vec::new();
    let n = v.len();
    for i in 0..n
        invariant
            n == v@.len(),
            r@ == v@.take(i as int),
    {
        r.push(v[i]);
        assert(v@.take(i as int).push(v@[i as int]) =~= v@.take(i + 1));
    }
    assert(v@.take(n as int) =~= v@);
    r
}

fn append_bytes(out: &mut Vec<u8>, v: &Vec<u8>)
    ensures
        final(out)@ == old(out)@ + v@,
{
    let ghost base = out@;
    let n = v.len();
    for i in 0..n
        invariant
            n == v@.len(),
            out@ == base + v@.take(i as int),
    {
        out.push(v[i]);
        assert((base + v@.take(i as int)).push(v@[i as int]) =~= base + v@.take(i + 1));
    }
    assert(base + v@.take(n as int) =~= base + v@);
}

// ---------------------------------------------------------------------------
// Lookup lemmas
// ---------------------------------------------------------------------------

/// A fresh part is found again after pushing it.
pub proof fn lemma_part_push_found(ps: Seq<(u64, Seq<u8>)>, n: u64, data: Seq<u8>)
    requires
        spec_part_lookup(ps, n) is None,
    ensures
        spec_part_lookup(ps.push((n, data)), n) == Some(data),
    decreases ps.len(),
{
    if ps.len() == 0 {
        assert(ps.push((n, data)).first() == (n, data));
    } else {
        lemma_part_push_found(ps.drop_first(), n, data);
        assert(ps.push((n, data)).first() == ps.first());
        assert(ps.push((n, data)).drop_first() =~= ps.drop_first().push((n, data)));
    }
}

proof fn lemma_file_absent_unique(fs: Seq<(Seq<char>, Seq<u8>)>, name: Seq<char>, data: Seq<u8>)
    requires
        file_names_unique(fs),
        spec_file_lookup(fs, name) is None,
    ensures
        file_names_unique(fs.push((name, data))),
    decreases fs.len(),
{
    assert forall|p: int| 0 <= p < fs.len() implies (#[trigger] fs[p]).0 != name by {
        lemma_file_no_lookup_no_name(fs, name, p);
    }
    let pushed = fs.push((name, data));
    assert forall|p: int, q: int| 0 <= p < q < pushed.len() implies (#[trigger] pushed[p]).0 != (
    #[trigger] pushed[q]).0 by {
        if q == pushed.len() - 1 {
            assert(pushed[q].0 == name);
            assert(pushed[p] == fs[p]);
        }
    }
}

proof fn lemma_file_no_lookup_no_name(fs: Seq<(Seq<char>, Seq<u8>)>, name: Seq<char>, p: int)
    requires
        0 <= p < fs.len(),
        spec_file_lookup(fs, name) is None,
    ensures
        fs[p].0 != name,
    decreases fs.len(),
{
    if p > 0 {
        lemma_file_no_lookup_no_name(fs.drop_first(), name, p - 1);
        assert(fs.drop_first()[p - 1] == fs[p]);
    }
}

proof fn lemma_part_absent_unique(ps: Seq<(u64, Seq<u8>)>, n: u64)
    requires
        part_numbers_unique(ps),
        spec_part_lookup(ps, n) is None,
    ensures
        forall|data: Seq<u8>| part_numbers_unique(ps.push((n, data))),
{
    assert forall|p: int| 0 <= p < ps.len() implies (#[trigger] ps[p]).0 != n by {
        lemma_part_no_lookup_no_number(ps, n, p);
    }
    assert forall|data: Seq<u8>| #[trigger] part_numbers_unique(ps.push((n, data))) by {
        let pushed = ps.push((n, data));
        assert forall|p: int, q: int| 0 <= p < q < pushed.len() implies (#[trigger] pushed[p]).0
            != (#[trigger] pushed[q]).0 by {
            if q == pushed.len() - 1 {
                assert(pushed[p] == ps[p]);
                assert(pushed[q].0 == n);
            }
        }
    }
}

proof fn lemma_part_no_lookup_no_number(ps: Seq<(u64, Seq<u8>)>, n: u64, p: int)
    requires
        0 <= p < ps.len(),
        spec_part_lookup(ps, n) is None,
    ensures
        ps[p].0 != n,
    decreases ps.len(),
{
    if p > 0 {
        lemma_part_no_lookup_no_number(ps.drop_first(), n, p - 1);
        assert(ps.drop_first()[p - 1] == ps[p]);
    }
}

proof fn lemma_dir_absent_no_id(ds: Seq<(Seq<char>, Seq<(u64, Seq<u8>)>)>, id: Seq<char>, p: int)
    requires
        0 <= p < ds.len(),
        spec_dir_lookup(ds, id) is None,
    ensures
        ds[p].0 != id,
    decreases ds.len(),
{
    if p > 0 {
        lemma_dir_absent_no_id(ds.drop_first(), id, p - 1);
        assert(ds.drop_first()[p - 1] == ds[p]);
    }
}

proof fn lemma_dir_push_lookup(
    ds: Seq<(Seq<char>, Seq<(u64, Seq<u8>)>)>,
    id: Seq<char>,
    parts: Seq<(u64, Seq<u8>)>,
)
    requires
        spec_dir_lookup(ds, id) is None,
    ensures
        spec_dir_lookup(ds.push((id, parts)), id) == Some(parts),
        forall|other: Seq<char>|
            other != id ==> #[trigger] spec_dir_lookup(ds.push((id, parts)), other)
                == spec_dir_lookup(ds, other),
    decreases ds.len(),
{
    let p = ds.push((id, parts));
    if ds.len() == 0 {
        assert(p.first() == (id, parts));
        assert(p.drop_first() =~= ds);
    } else {
        lemma_dir_push_lookup(ds.drop_first(), id, parts);
        assert(p.first() == ds.first());
        assert(p.drop_first() =~= ds.drop_first().push((id, parts)));
        assert(ds.first().0 != id);
        assert forall|other: Seq<char>| other != id implies #[trigger] spec_dir_lookup(p, other)
            == spec_dir_lookup(ds, other) by {
            if ds.first().0 != other {
                assert(spec_dir_lookup(ds.drop_first().push((id, parts)), other)
                    == spec_dir_lookup(ds.drop_first(), other));
            }
        }
    }
}

/// Updating the parts of the directory at `i` changes that ID's lookup and
/// no other.
proof fn lemma_dir_update_lookup(
    ds: Seq<(Seq<char>, Seq<(u64, Seq<u8>)>)>,
    ds2: Seq<(Seq<char>, Seq<(u64, Seq<u8>)>)>,
    i: int,
    id: Seq<char>,
)
    requires
        dir_ids_unique(ds),
        0 <= i < ds.len(),
        ds2.len() == ds.len(),
        ds[i].0 == id,
        ds2[i].0 == id,
        forall|j: int| 0 <= j < ds.len() && j != i ==> #[trigger] ds2[j] == ds[j],
    ensures
        dir_ids_unique(ds2),
        spec_dir_lookup(ds2, id) == Some(ds2[i].1),
        forall|other: Seq<char>|
            other != id ==> #[trigger] spec_dir_lookup(ds2, other) == spec_dir_lookup(ds, other),
    decreases ds.len(),
{
    assert(forall|p: int| 0 <= p < ds2.len() ==> (#[trigger] ds2[p]).0 == ds[p].0);
    assert(dir_ids_unique(ds2));
    if i == 0 {
        assert(ds2.first().0 == id);
        assert forall|other: Seq<char>| other != id implies #[trigger] spec_dir_lookup(ds2, other)
            == spec_dir_lookup(ds, other) by {
            assert(ds2.drop_first() =~= ds.drop_first());
        }
    } else {
        assert(forall|p: int, q: int|
            0 <= p < q < ds.drop_first().len() ==> (#[trigger] ds.drop_first()[p]).0 != (
            #[trigger] ds.drop_first()[q]).0);
        assert forall|j: int|
            0 <= j < ds.drop_first().len() && j != i - 1 implies #[trigger] ds2.drop_first()[j]
            == ds.drop_first()[j] by {
            assert(ds2.drop_first()[j] == ds2[j + 1]);
            assert(ds.drop_first()[j] == ds[j + 1]);
        }
        assert(ds.drop_first()[i - 1].0 == id);
        assert(ds2.drop_first()[i - 1].0 == id);
        lemma_dir_update_lookup(ds.drop_first(), ds2.drop_first(), i - 1, id);
        assert(ds2.first() == ds.first());
        assert(ds.first().0 != id);
        assert(ds2.drop_first()[i - 1] == ds2[i]);
        assert forall|other: Seq<char>| other != id implies #[trigger] spec_dir_lookup(ds2, other)
            == spec_dir_lookup(ds, other) by {
            if ds.first().0 != other {
                assert(spec_dir_lookup(ds2.drop_first(), other) == spec_dir_lookup(
                    ds.drop_first(),
                    other,
                ));
            }
        }
    }
}

proof fn lemma_dir_remove(ds: Seq<(Seq<char>, Seq<(u64, Seq<u8>)>)>, i: int, id: Seq<char>)
    requires
        dir_ids_unique(ds),
        0 <= i < ds.len(),
        ds[i].0 == id,
    ensures
        dir_ids_unique(ds.take(i) + ds.skip(i + 1)),
        spec_dir_lookup(ds.take(i) + ds.skip(i + 1), id) is None,
        forall|other: Seq<char>|
            other != id ==> #[trigger] spec_dir_lookup(ds.take(i) + ds.skip(i + 1), other)
                == spec_dir_lookup(ds, other),
    decreases ds.len(),
{
    let rest = ds.take(i) + ds.skip(i + 1);
    assert(forall|j: int|
        0 <= j < rest.len() ==> #[trigger] rest[j] == if j < i {
            ds[j]
        } else {
            ds[j + 1]
        });
    assert(dir_ids_unique(rest));
    assert forall|j: int| 0 <= j < rest.len() implies (#[trigger] rest[j]).0 != id by {
        if j < i {
            assert(rest[j] == ds[j]);
        } else {
            assert(rest[j] == ds[j + 1]);
        }
    }
    lemma_dir_all_other_none(rest, id);
    if i == 0 {
        assert(rest =~= ds.drop_first());
        assert forall|other: Seq<char>| other != id implies #[trigger] spec_dir_lookup(rest, other)
            == spec_dir_lookup(ds, other) by {
            assert(ds.first().0 == id);
        }
    } else {
        let d = ds.drop_first();
        assert(d[i - 1].0 == id);
        assert(forall|p: int, q: int|
            0 <= p < q < d.len() ==> (#[trigger] d[p]).0 != (#[trigger] d[q]).0);
        lemma_dir_remove(d, i - 1, id);
        assert(d.take(i - 1) + d.skip(i) =~= rest.drop_first());
        assert(rest.first() == ds.first());
        assert forall|other: Seq<char>| other != id implies #[trigger] spec_dir_lookup(rest, other)
            == spec_dir_lookup(ds, other) by {
            assert(spec_dir_lookup(rest.drop_first(), other) == spec_dir_lookup(d, other));
        }
    }
}

proof fn lemma_dir_all_other_none(ds: Seq<(Seq<char>, Seq<(u64, Seq<u8>)>)>, id: Seq<char>)
    requires
        forall|j: int| 0 <= j < ds.len() ==> (#[trigger] ds[j]).0 != id,
    ensures
        spec_dir_lookup(ds, id) is None,
    decreases ds.len(),
{
    if ds.len() > 0 {
        assert(forall|j: int|
            0 <= j < ds.drop_first().len() ==> (#[trigger] ds.drop_first()[j]).0 != id);
        lemma_dir_all_other_none(ds.drop_first(), id);
    }
}

proof fn lemma_file_remove(fs: Seq<(Seq<char>, Seq<u8>)>, i: int, name: Seq<char>)
    requires
        file_names_unique(fs),
        0 <= i < fs.len(),
        fs[i].0 == name,
    ensures
        file_names_unique(fs.take(i) + fs.skip(i + 1)),
        spec_file_lookup(fs.take(i) + fs.skip(i + 1), name) is None,
        forall|other: Seq<char>|
            other != name ==> #[trigger] spec_file_lookup(fs.take(i) + fs.skip(i + 1), other)
                == spec_file_lookup(fs, other),
    decreases fs.len(),
{
    let rest = fs.take(i) + fs.skip(i + 1);
    assert(forall|j: int|
        0 <= j < rest.len() ==> #[trigger] rest[j] == if j < i {
            fs[j]
        } else {
            fs[j + 1]
        });
    assert(file_names_unique(rest));
    assert forall|j: int| 0 <= j < rest.len() implies (#[trigger] rest[j]).0 != name by {
        if j < i {
            assert(rest[j] == fs[j]);
        } else {
            assert(rest[j] == fs[j + 1]);
        }
    }
    lemma_file_all_other_none(rest, name);
    if i == 0 {
        assert(rest =~= fs.drop_first());
        assert forall|other: Seq<char>| other != name implies #[trigger] spec_file_lookup(
            rest,
            other,
        ) == spec_file_lookup(fs, other) by {
            assert(fs.first().0 == name);
        }
    } else {
        let d = fs.drop_first();
        assert(d[i - 1].0 == name);
        assert(forall|p: int, q: int|
            0 <= p < q < d.len() ==> (#[trigger] d[p]).0 != (#[trigger] d[q]).0);
        lemma_file_remove(d, i - 1, name);
        assert(d.take(i - 1) + d.skip(i) =~= rest.drop_first());
        assert(rest.first() == fs.first());
        assert forall|other: Seq<char>| other != name implies #[trigger] spec_file_lookup(
            rest,
            other,
        ) == spec_file_lookup(fs, other) by {
            assert(spec_file_lookup(rest.drop_first(), other) == spec_file_lookup(d, other));
        }
    }
}

proof fn lemma_file_all_other_none(fs: Seq<(Seq<char>, Seq<u8>)>, name: Seq<char>)
    requires
        forall|j: int| 0 <= j < fs.len() ==> (#[trigger] fs[j]).0 != name,
    ensures
        spec_file_lookup(fs, name) is None,
    decreases fs.len(),
{
    if fs.len() > 0 {
        assert(forall|j: int|
            0 <= j < fs.drop_first().len() ==> (#[trigger] fs.drop_first()[j]).0 != name);
        lemma_file_all_other_none(fs.drop_first(), name);
    }
}

} // verus!
