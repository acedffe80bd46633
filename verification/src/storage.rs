//! The storage façade: metadata rows, blobs and multipart sessions composed
//! into the operations the request handlers call.
//!
//! An object's blob is addressed by the BLAKE3 hash of its path, so distinct
//! paths write distinct files, and writes to one path collide either at the
//! metadata insert or at blob creation. Metadata is written before the blob;
//! a blob-write failure therefore leaves the row behind, which is the
//! documented trade-off of that ordering.

use vstd::prelude::*;

verus! {

use crate::metadata::{
    MetadataTable, ObjectRecord, ObjectRecordV, MetaError, spec_meta_lookup, spec_meta_remove,
};
use crate::blob::{
    BlobStore, BlobError, spec_file_lookup, spec_dir_lookup, spec_part_lookup, spec_merge_parts,
    spec_total_size, lemma_merged_size_is_sum,
};
use crate::registry::{
    SessionRegistry, MultipartUploadItem, MultipartUploadItemV, spec_session_lookup,
    spec_keep_live, spec_expired_ids,
};
use crate::crypto::{blake3_hex, spec_blake3_hex};
use crate::ids::{new_uuid, now_unix};

/// Why a storage operation failed.
#[derive(Debug, PartialEq, Eq, Structural)]
pub enum StorageError {
    /// The object, blob or multipart directory is not there.
    NotFound,
    /// A metadata insert would duplicate a path.
    Conflict,
    /// A blob write would overwrite an existing file or part.
    AlreadyExists,
    /// The upload ID names no live session.
    InvalidUploadId,
}

/// What a read hands back: the row, and the blob when it was asked for.
pub struct ReadObjectData {
    pub metadata: ObjectRecord,
    pub file: Option<Vec<u8>>,
}

/// What a single-shot put carries.
pub struct WriteObjectData {
    pub binary: Vec<u8>,
    pub path: String,
    pub filename: Option<String>,
    pub encoded_filename: Option<String>,
    pub content_size: u64,
    pub mime_type: String,
}

/// The mathematical shadow of a put.
pub struct WriteObjectDataV {
    pub binary: Seq<u8>,
    pub path: Seq<char>,
    pub filename: Option<Seq<char>>,
    pub encoded_filename: Option<Seq<char>>,
    pub content_size: u64,
    pub mime_type: Seq<char>,
}

impl View for WriteObjectData {
    type V = WriteObjectDataV;

    open spec fn view(&self) -> WriteObjectDataV {
        WriteObjectDataV {
            binary: self.binary@,
            path: self.path@,
            filename: self.filename.deep_view(),
            encoded_filename: self.encoded_filename.deep_view(),
            content_size: self.content_size,
            mime_type: self.mime_type@,
        }
    }
}

/// The row a put writes for its data.
pub open spec fn spec_put_row(data: WriteObjectDataV) -> ObjectRecordV {
    ObjectRecordV {
        path: data.path,
        content_size: data.content_size,
        mime_type: data.mime_type,
        internal_filename: spec_blake3_hex(data.path),
        filename: data.filename,
        encoded_filename: data.encoded_filename,
    }
}

/// What a read of `path` finds in the given rows and files.
pub open spec fn spec_get_object(
    meta: Seq<ObjectRecordV>,
    files: Seq<(Seq<char>, Seq<u8>)>,
    path: Seq<char>,
    with_file: bool,
) -> Option<(ObjectRecordV, Option<Seq<u8>>)> {
    match spec_meta_lookup(meta, path) {
        None => None,
        Some(row) => if !with_file {
            Some((row, None))
        } else {
            match spec_file_lookup(files, row.internal_filename) {
                Some(content) => Some((row, Some(content))),
                None => None,
            }
        },
    }
}

/// The storage engine: metadata, blobs and the session registry.
pub struct Storage {
    pub metadata: MetadataTable,
    pub blobs: BlobStore,
    pub sessions: SessionRegistry,
}

impl Storage {
    pub open spec fn wf(&self) -> bool {
        &&& self.metadata.wf()
        &&& self.blobs.wf()
        &&& self.sessions.wf()
    }

    /// A fresh, empty engine.
    pub fn new() -> (r: Self)
        ensures
            r.wf(),
            r.metadata@ == Seq::<ObjectRecordV>::empty(),
            r.blobs@.files == Seq::<(Seq<char>, Seq<u8>)>::empty(),
            r.blobs@.multipart == Seq::<(Seq<char>, Seq<(u64, Seq<u8>)>)>::empty(),
            r.sessions@ == Seq::<(Seq<char>, MultipartUploadItemV)>::empty(),
    {
        Storage { metadata: MetadataTable::new(), blobs: BlobStore::new(), sessions: SessionRegistry::new() }
    }

    /// Startup housekeeping: discard every orphaned multipart directory.
    pub fn initialize(&mut self)
        requires
            old(self).wf(),
        ensures
            final(self).wf(),
            final(self).metadata@ == old(self).metadata@,
            final(self).blobs@.files == old(self).blobs@.files,
            final(self).blobs@.multipart == Seq::<(Seq<char>, Seq<(u64, Seq<u8>)>)>::empty(),
            final(self).sessions@ == old(self).sessions@,
    {
        self.blobs.clear_multipart();
    }

    /// Fetch an object's row, and its bytes when `with_file` asks for them.
    pub fn get_object(&self, path: &str, with_file: bool) -> (r: Result<
        ReadObjectData,
        StorageError,
    >)
        ensures
            r matches Ok(d) ==> spec_get_object(self.metadata@, self.blobs@.files, path@, with_file)
                == Some((d.metadata@, d.file.deep_view())) && (with_file <==> d.file is Some),
            r is Err ==> spec_get_object(self.metadata@, self.blobs@.files, path@, with_file)
                is None && r == Err::<ReadObjectData, StorageError>(StorageError::NotFound),
    {
        let row = match self.metadata.get_by_path(path) {
            Some(row) => row,
            None => {
                return Err(StorageError::NotFound);
            },
        };
        if !with_file {
            return Ok(ReadObjectData { metadata: row, file: None });
        }
        match self.blobs.read_object(row.internal_filename.as_str()) {
            Ok(content) => Ok(ReadObjectData { metadata: row, file: Some(content) }),
            Err(_) => Err(StorageError::NotFound),
        }
    }

    /// Store an object: its row first, then its blob under the BLAKE3 hash
    /// of the path. A failed blob write leaves the row behind.
    pub fn put_object(&mut self, data: WriteObjectData) -> (r: Result<(), StorageError>)
        requires
            old(self).wf(),
        ensures
            final(self).wf(),
            final(self).sessions@ == old(self).sessions@,
            final(self).blobs@.multipart == old(self).blobs@.multipart,
            ({
                let internal = spec_blake3_hex(data@.path);
                let row = spec_put_row(data@);
                &&& (r is Ok <==> spec_meta_lookup(old(self).metadata@, data@.path) is None
                    && spec_file_lookup(old(self).blobs@.files, internal) is None)
                &&& r is Ok ==> final(self).metadata@ == old(self).metadata@.push(row) && final(self).blobs@.files == old(self).blobs@.files.push((internal, data@.binary))
                &&& spec_meta_lookup(old(self).metadata@, data@.path) is Some ==> r == Err::<
                    (),
                    StorageError,
                >(StorageError::Conflict) && final(self).metadata@ == old(self).metadata@ && final(self).blobs@.files == old(self).blobs@.files
                &&& spec_meta_lookup(old(self).metadata@, data@.path) is None && spec_file_lookup(
                    old(self).blobs@.files,
                    internal,
                ) is Some ==> r == Err::<(), StorageError>(StorageError::AlreadyExists) && final(self).metadata@ == old(self).metadata@.push(row) && final(self).blobs@.files == old(
                    self,
                ).blobs@.files
            }),
    {
        let internal = blake3_hex(data.path.as_str());
        let row = ObjectRecord {
            path: data.path,
            content_size: data.content_size,
            mime_type: data.mime_type,
            internal_filename: internal,
            filename: data.filename,
            encoded_filename: data.encoded_filename,
        };
        let internal_copy = row.internal_filename.clone();
        match self.metadata.insert(row) {
            Ok(()) => {},
            Err(_) => {
                return Err(StorageError::Conflict);
            },
        }
        match self.blobs.write_object(internal_copy.as_str(), data.binary) {
            Ok(()) => Ok(()),
            Err(_) => Err(StorageError::AlreadyExists),
        }
    }

    /// Record a fresh multipart session under the given ID and clock
    /// reading. Everything else is untouched.
    pub fn register_session(
        &mut self,
        upload_id: String,
        path: String,
        filename: Option<String>,
        encoded_filename: Option<String>,
        mime_type: String,
        now: i64,
    )
        requires
            old(self).wf(),
        ensures
            final(self).wf(),
            final(self).metadata@ == old(self).metadata@,
            final(self).blobs@ == old(self).blobs@,
            spec_session_lookup(final(self).sessions@, upload_id@) == Some(
                MultipartUploadItemV {
                    path: path@,
                    filename: filename.deep_view(),
                    encoded_filename: encoded_filename.deep_view(),
                    mime_type: mime_type@,
                    last_upload_at: now,
                },
            ),
            forall|other: Seq<char>|
                other != upload_id@ ==> #[trigger] spec_session_lookup(final(self).sessions@, other)
                    == spec_session_lookup(old(self).sessions@, other),
    {
        let item = MultipartUploadItem {
            path,
            filename,
            encoded_filename,
            mime_type,
            last_upload_at: now,
        };
        self.sessions.insert(upload_id, item);
    }

    /// Open a multipart upload: mint an upload ID, register the session and
    /// hand the ID back. The session's clock reading is the wall clock's,
    /// about which nothing further holds.
    pub fn create_multipart_upload(
        &mut self,
        path: String,
        filename: Option<String>,
        encoded_filename: Option<String>,
        mime_type: String,
    ) -> (r: String)
        requires
            old(self).wf(),
        ensures
            final(self).wf(),
            r@.len() == 36,
            final(self).metadata@ == old(self).metadata@,
            final(self).blobs@ == old(self).blobs@,
            spec_session_lookup(final(self).sessions@, r@) matches Some(item) && item.path == path@
                && item.filename == filename.deep_view() && item.encoded_filename
                == encoded_filename.deep_view() && item.mime_type == mime_type@,
            forall|other: Seq<char>|
                other != r@ ==> #[trigger] spec_session_lookup(final(self).sessions@, other)
                    == spec_session_lookup(old(self).sessions@, other),
    {
        let upload_id = new_uuid();
        let id_copy = upload_id.clone();
        let now = now_unix();
        self.register_session(upload_id, path, filename, encoded_filename, mime_type, now);
        id_copy
    }

    /// Store one part of a multipart upload at the given clock reading: the
    /// session must be live; its timestamp advances even when the part
    /// itself is refused as a duplicate.
    pub fn upload_part_at(&mut self, upload_id: &str, number: u16, binary: Vec<u8>, now: i64) -> (r:
        Result<(), StorageError>)
        requires
            old(self).wf(),
        ensures
            final(self).wf(),
            final(self).metadata@ == old(self).metadata@,
            final(self).blobs@.files == old(self).blobs@.files,
            spec_session_lookup(old(self).sessions@, upload_id@) is None ==> r == Err::<
                (),
                StorageError,
            >(StorageError::InvalidUploadId) && final(self).sessions@ == old(self).sessions@
                && final(self).blobs@ == old(self).blobs@,
            spec_session_lookup(old(self).sessions@, upload_id@) is Some ==> ({
                let old_item = spec_session_lookup(old(self).sessions@, upload_id@)->0;
                &&& spec_session_lookup(final(self).sessions@, upload_id@) == Some(
                    MultipartUploadItemV { last_upload_at: now, ..old_item },
                )
                &&& (forall|other: Seq<char>|
                    other != upload_id@ ==> #[trigger] spec_session_lookup(
                        final(self).sessions@,
                        other,
                    ) == spec_session_lookup(old(self).sessions@, other))
                &&& match spec_dir_lookup(old(self).blobs@.multipart, upload_id@) {
                    None => r is Ok && spec_dir_lookup(final(self).blobs@.multipart, upload_id@)
                        == Some(seq![(number as u64, binary@)]),
                    Some(ps) => {
                        if spec_part_lookup(ps, number as u64) is Some {
                            r == Err::<(), StorageError>(StorageError::AlreadyExists) && final(self).blobs@ == old(self).blobs@
                        } else {
                            r is Ok && spec_dir_lookup(final(self).blobs@.multipart, upload_id@)
                                == Some(ps.push((number as u64, binary@)))
                        }
                    },
                }
                &&& r is Ok ==> forall|other: Seq<char>|
                    other != upload_id@ ==> #[trigger] spec_dir_lookup(
                        final(self).blobs@.multipart,
                        other,
                    ) == spec_dir_lookup(old(self).blobs@.multipart, other)
            }),
    {
        if !self.sessions.touch(upload_id, now) {
            return Err(StorageError::InvalidUploadId);
        }
        match self.blobs.write_part(upload_id, number as u64, binary) {
            Ok(()) => Ok(()),
            Err(_) => Err(StorageError::AlreadyExists),
        }
    }

    /// Store one part of a multipart upload, stamped with the wall clock;
    /// beyond the fresh timestamp, everything `upload_part_at` promises
    /// holds.
    pub fn upload_part(&mut self, upload_id: &str, number: u16, binary: Vec<u8>) -> (r: Result<
        (),
        StorageError,
    >)
        requires
            old(self).wf(),
        ensures
            final(self).wf(),
            final(self).metadata@ == old(self).metadata@,
            final(self).blobs@.files == old(self).blobs@.files,
            spec_session_lookup(old(self).sessions@, upload_id@) is None ==> r == Err::<
                (),
                StorageError,
            >(StorageError::InvalidUploadId) && final(self).sessions@ == old(self).sessions@
                && final(self).blobs@ == old(self).blobs@,
            spec_session_lookup(old(self).sessions@, upload_id@) is Some ==> ({
                let old_item = spec_session_lookup(old(self).sessions@, upload_id@)->0;
                &&& spec_session_lookup(final(self).sessions@, upload_id@) matches Some(it)
                    && it.path == old_item.path && it.filename == old_item.filename
                    && it.encoded_filename == old_item.encoded_filename && it.mime_type
                    == old_item.mime_type
                &&& (forall|other: Seq<char>|
                    other != upload_id@ ==> #[trigger] spec_session_lookup(
                        final(self).sessions@,
                        other,
                    ) == spec_session_lookup(old(self).sessions@, other))
                &&& match spec_dir_lookup(old(self).blobs@.multipart, upload_id@) {
                    None => r is Ok && spec_dir_lookup(final(self).blobs@.multipart, upload_id@)
                        == Some(seq![(number as u64, binary@)]),
                    Some(ps) => {
                        if spec_part_lookup(ps, number as u64) is Some {
                            r == Err::<(), StorageError>(StorageError::AlreadyExists) && final(self).blobs@ == old(self).blobs@
                        } else {
                            r is Ok && spec_dir_lookup(final(self).blobs@.multipart, upload_id@)
                                == Some(ps.push((number as u64, binary@)))
                        }
                    },
                }
                &&& r is Ok ==> forall|other: Seq<char>|
                    other != upload_id@ ==> #[trigger] spec_dir_lookup(
                        final(self).blobs@.multipart,
                        other,
                    ) == spec_dir_lookup(old(self).blobs@.multipart, other)
            }),
    {
        let now = now_unix();
        self.upload_part_at(upload_id, number, binary, now)
    }

    /// Close a multipart upload: drop the session, merge its parts into the
    /// final object, write the row with the merged size, and remove the part
    /// directory. The merged size is the sum of the part sizes.
    pub fn complete_multipart_upload(&mut self, upload_id: &str) -> (r: Result<(), StorageError>)
        requires
            old(self).wf(),
        ensures
            final(self).wf(),
            spec_session_lookup(final(self).sessions@, upload_id@) is None,
            spec_session_lookup(old(self).sessions@, upload_id@) is None ==> r == Err::<
                (),
                StorageError,
            >(StorageError::InvalidUploadId) && final(self).metadata@ == old(self).metadata@
                && final(self).blobs@ == old(self).blobs@,
            spec_session_lookup(old(self).sessions@, upload_id@) is Some ==> ({
                let item = spec_session_lookup(old(self).sessions@, upload_id@)->0;
                let internal = spec_blake3_hex(item.path);
                let dir = spec_dir_lookup(old(self).blobs@.multipart, upload_id@);
                &&& (r is Ok <==> dir is Some && spec_file_lookup(old(self).blobs@.files, internal)
                    is None && spec_meta_lookup(old(self).metadata@, item.path) is None)
                &&& r is Ok ==> ({
                    let merged = spec_merge_parts(dir->0);
                    &&& final(self).blobs@.files == old(self).blobs@.files.push(
                        (internal, merged),
                    )
                    &&& spec_dir_lookup(final(self).blobs@.multipart, upload_id@) is None
                    &&& final(self).metadata@ == old(self).metadata@.push(
                        ObjectRecordV {
                            path: item.path,
                            content_size: merged.len() as u64,
                            mime_type: item.mime_type,
                            internal_filename: internal,
                            filename: item.filename,
                            encoded_filename: item.encoded_filename,
                        },
                    )
                    &&& merged.len() == spec_total_size(dir->0)
                })
            }),
            forall|other: Seq<char>|
                other != upload_id@ ==> #[trigger] spec_session_lookup(final(self).sessions@, other)
                    == spec_session_lookup(old(self).sessions@, other),
    {
        let item = match self.sessions.remove(upload_id) {
            Some(item) => item,
            None => {
                return Err(StorageError::InvalidUploadId);
            },
        };
        let internal = blake3_hex(item.path.as_str());
        let size = match self.blobs.merge_partial_uploads(upload_id, internal.as_str()) {
            Ok(size) => size,
            Err(BlobError::NotFound) => {
                return Err(StorageError::NotFound);
            },
            Err(BlobError::AlreadyExists) => {
                return Err(StorageError::AlreadyExists);
            },
        };
        proof {
            let dir = spec_dir_lookup(old(self).blobs@.multipart, upload_id@);
            lemma_merged_size_is_sum(dir->0);
        }
        let row = ObjectRecord {
            path: item.path,
            content_size: size,
            mime_type: item.mime_type,
            internal_filename: internal,
            filename: item.filename,
            encoded_filename: item.encoded_filename,
        };
        match self.metadata.insert(row) {
            Ok(()) => {},
            Err(_) => {
                return Err(StorageError::Conflict);
            },
        }
        match self.blobs.delete_object(upload_id, true) {
            Ok(()) => Ok(()),
            Err(_) => Err(StorageError::NotFound),
        }
    }

    /// Abort a multipart upload: drop the session and its part directory;
    /// a missing directory is tolerated.
    pub fn abort_multipart_upload(&mut self, upload_id: &str) -> (r: Result<(), StorageError>)
        requires
            old(self).wf(),
        ensures
            final(self).wf(),
            r is Ok,
            final(self).metadata@ == old(self).metadata@,
            final(self).blobs@.files == old(self).blobs@.files,
            spec_session_lookup(final(self).sessions@, upload_id@) is None,
            spec_dir_lookup(final(self).blobs@.multipart, upload_id@) is None,
            forall|other: Seq<char>|
                other != upload_id@ ==> #[trigger] spec_session_lookup(final(self).sessions@, other)
                    == spec_session_lookup(old(self).sessions@, other),
            forall|other: Seq<char>|
                other != upload_id@ ==> #[trigger] spec_dir_lookup(
                    final(self).blobs@.multipart,
                    other,
                ) == spec_dir_lookup(old(self).blobs@.multipart, other),
    {
        let _ = self.sessions.remove(upload_id);
        match self.blobs.delete_object(upload_id, true) {
            Ok(()) => Ok(()),
            Err(_) => Ok(()),
        }
    }

    /// Delete an object: its blob first, then its row.
    pub fn delete_object(&mut self, path: &str) -> (r: Result<(), StorageError>)
        requires
            old(self).wf(),
        ensures
            final(self).wf(),
            final(self).sessions@ == old(self).sessions@,
            final(self).blobs@.multipart == old(self).blobs@.multipart,
            spec_meta_lookup(old(self).metadata@, path@) is None ==> r == Err::<(), StorageError>(
                StorageError::NotFound,
            ) && final(self).metadata@ == old(self).metadata@ && final(self).blobs@.files == old(
                self,
            ).blobs@.files,
            spec_meta_lookup(old(self).metadata@, path@) is Some ==> ({
                let row = spec_meta_lookup(old(self).metadata@, path@)->0;
                &&& (r is Ok <==> spec_file_lookup(old(self).blobs@.files, row.internal_filename)
                    is Some)
                &&& r is Ok ==> final(self).metadata@ == spec_meta_remove(
                    old(self).metadata@,
                    path@,
                ) && spec_meta_lookup(final(self).metadata@, path@) is None && spec_file_lookup(
                    final(self).blobs@.files,
                    row.internal_filename,
                ) is None && (forall|other: Seq<char>|
                    other != row.internal_filename ==> #[trigger] spec_file_lookup(
                        final(self).blobs@.files,
                        other,
                    ) == spec_file_lookup(old(self).blobs@.files, other))
                &&& r is Err ==> final(self).metadata@ == old(self).metadata@ && final(self).blobs@.files == old(self).blobs@.files && r == Err::<(), StorageError>(
                    StorageError::NotFound,
                )
            }),
    {
        let row = match self.metadata.get_by_path(path) {
            Some(row) => row,
            None => {
                return Err(StorageError::NotFound);
            },
        };
        proof {
            crate::metadata::lemma_lookup_finds_path(self.metadata@, path@);
        }
        match self.blobs.delete_object(row.internal_filename.as_str(), false) {
            Ok(()) => {},
            Err(_) => {
                return Err(StorageError::NotFound);
            },
        }
        match self.metadata.delete(path) {
            Ok(()) => {},
            Err(_) => {},
        }
        proof {
            crate::metadata::lemma_remove_lookup_none(old(self).metadata@, path@);
        }
        Ok(())
    }

    /// The TTL sweep at time `now`: remove every stale session and its part
    /// directory, and hand the removed IDs back.
    pub fn cleanup_expired(&mut self, now: i64, ttl: i64) -> (r: Vec<String>)
        requires
            old(self).wf(),
        ensures
            final(self).wf(),
            final(self).metadata@ == old(self).metadata@,
            final(self).blobs@.files == old(self).blobs@.files,
            final(self).sessions@ == spec_keep_live(old(self).sessions@, now, ttl),
            r.deep_view() == spec_expired_ids(old(self).sessions@, now, ttl),
            forall|j: int|
                0 <= j < r.deep_view().len() ==> spec_dir_lookup(
                    final(self).blobs@.multipart,
                    #[trigger] r.deep_view()[j],
                ) is None,
    {
        let removed = self.sessions.remove_expired(now, ttl);
        let ghost ids = removed.deep_view();
        let n = removed.len();
        let mut i: usize = 0;
        while i < n
            invariant
                i <= n,
                n == removed@.len(),
                ids == removed.deep_view(),
                self.metadata@ == old(self).metadata@,
                self.blobs@.files == old(self).blobs@.files,
                self.sessions@ == spec_keep_live(old(self).sessions@, now, ttl),
                self.blobs.wf(),
                forall|j: int|
                    0 <= j < i ==> spec_dir_lookup(self.blobs@.multipart, #[trigger] ids[j])
                        is None,
            decreases n - i,
        {
            let ghost pre = self.blobs@.multipart;
            match self.blobs.delete_object(removed[i].as_str(), true) {
                Ok(()) => {},
                Err(_) => {},
            }
            proof {
                assert(spec_dir_lookup(self.blobs@.multipart, ids[i as int]) is None);
                assert forall|j: int| 0 <= j < i + 1 implies spec_dir_lookup(
                    self.blobs@.multipart,
                    #[trigger] ids[j],
                ) is None by {
                    if j < i && ids[j] != ids[i as int] {
                        assert(spec_dir_lookup(self.blobs@.multipart, ids[j]) == spec_dir_lookup(
                            pre,
                            ids[j],
                        ));
                    }
                }
            }
            i = i + 1;
        }
        removed
    }
}

// ---------------------------------------------------------------------------
// Laws
// ---------------------------------------------------------------------------

/// A fresh row is found again: pushing a row for a path that had none makes
/// every later lookup of that path yield exactly it.
pub proof fn lemma_meta_push_found(meta: Seq<ObjectRecordV>, row: ObjectRecordV)
    requires
        spec_meta_lookup(meta, row.path) is None,
    ensures
        spec_meta_lookup(meta.push(row), row.path) == Some(row),
    decreases meta.len(),
{
    if meta.len() == 0 {
        assert(meta.push(row).first() == row);
    } else {
        lemma_meta_push_found(meta.drop_first(), row);
        assert(meta.push(row).first() == meta.first());
        assert(meta.push(row).drop_first() =~= meta.drop_first().push(row));
    }
}

/// A fresh file is found again.
pub proof fn lemma_file_push_found(
    files: Seq<(Seq<char>, Seq<u8>)>,
    name: Seq<char>,
    data: Seq<u8>,
)
    requires
        spec_file_lookup(files, name) is None,
    ensures
        spec_file_lookup(files.push((name, data)), name) == Some(data),
    decreases files.len(),
{
    if files.len() == 0 {
        assert(files.push((name, data)).first() == (name, data));
    } else {
        lemma_file_push_found(files.drop_first(), name, data);
        assert(files.push((name, data)).first() == files.first());
        assert(files.push((name, data)).drop_first() =~= files.drop_first().push((name, data)));
    }
}

/// Put, then get: after a successful `put_object` of `data`, reading
/// `data.path` with its file finds a row whose internal filename is the
/// BLAKE3 hex of the path, and the stored bytes are the put bytes — so when
/// the asserted `content_size` was the body length, the file on disk has
/// exactly `content_size` bytes.
pub proof fn lemma_put_then_get(
    meta: Seq<ObjectRecordV>,
    files: Seq<(Seq<char>, Seq<u8>)>,
    data: WriteObjectDataV,
)
    requires
        spec_meta_lookup(meta, data.path) is None,
        spec_file_lookup(files, spec_blake3_hex(data.path)) is None,
    ensures
        ({
            let row = spec_put_row(data);
            let got = spec_get_object(
                meta.push(row),
                files.push((spec_blake3_hex(data.path), data.binary)),
                data.path,
                true,
            );
            &&& got == Some((row, Some(data.binary)))
            &&& row.internal_filename == spec_blake3_hex(data.path)
            &&& data.content_size == data.binary.len() ==> ({
                let pair = got->0;
                pair.1->0 =~= data.binary && pair.1->0.len() == row.content_size
            })
        }),
{
    let row = spec_put_row(data);
    lemma_meta_push_found(meta, row);
    lemma_file_push_found(files, spec_blake3_hex(data.path), data.binary);
}

/// Two puts of one path cannot both succeed: once a row for the path stands
/// in the table, the success condition of `put_object` — that the path's
/// lookup finds nothing — is false, so the later put reports the conflict.
pub proof fn lemma_concurrent_put_conflict(meta: Seq<ObjectRecordV>, row: ObjectRecordV)
    requires
        spec_meta_lookup(meta, row.path) is None,
    ensures
        spec_meta_lookup(meta.push(row), row.path) is Some,
{
    lemma_meta_push_found(meta, row);
}

} // verus!
