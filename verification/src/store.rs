//! The storage-backend contract and an in-memory reference backend.
//!
//! A backend keeps, per upload identifier, one unit of storage: the byte blob
//! reserved at creation and pre-sized to the declared length, and a sidecar
//! info record `{id, name, length, offset, metadata}`. The contract is stated
//! over that mapping; the engine operations — build, create, patch, delete,
//! info, exists — are its methods. A record whose offset has reached its
//! length is complete and is retained; every later patch on it is refused as
//! a conflict, so completion happens exactly once.

use vstd::prelude::*;

use crate::file_info::Built;
use crate::file_info::Completed;
use crate::file_info::Created;
use crate::file_info::FileInfo;
use crate::file_info::FileInfoView;
use crate::file_info::is_hex_digit_char;
use crate::metadata::Metadata;
use crate::metadata::MetadataError;
use crate::metadata::display_name_of;
use crate::metadata::parse_spec;

verus! {

/// Why a creation failed.
#[derive(Debug, PartialEq)]
pub enum CreationErrorKind {
    /// The identifier is already in use; nothing is overwritten.
    DuplicateId,
    /// The backend could not reserve storage of the declared length.
    AllocationFailed,
    /// The supplied metadata string did not parse.
    InvalidMetadata(MetadataError),
    /// An underlying backend failure, its message preserved.
    Backend(String),
}

/// Why a read or a patch failed.
#[derive(Debug, PartialEq)]
pub enum ReadErrorKind {
    /// No record is stored under the identifier.
    NotFound,
    /// The expected offset does not match the recorded one, or the record is
    /// already complete: the protocol-level conflict.
    OffsetMismatch,
    /// The payload would run past the declared length.
    OffsetBeyondLength,
    /// The stored info record could not be read back.
    CorruptInfo(String),
    /// An underlying backend failure, its message preserved.
    Backend(String),
}

/// Why a deletion failed.
#[derive(Debug, PartialEq)]
pub enum TerminationErrorKind {
    /// No record is stored under the identifier.
    NotFound,
    /// An underlying backend failure, its message preserved.
    Backend(String),
}

/// The error taxonomy of the storage contract: each class wraps the kind of
/// failure, never a bare flag, so the boundary layer can map conflicts,
/// missing records, bad requests and backend failures apart.
#[derive(Debug, PartialEq)]
pub enum FileStoreError {
    CreationError(CreationErrorKind),
    ReadError(ReadErrorKind),
    TerminationError(TerminationErrorKind),
}

/// What a successful patch reports: the new offset, or the completed record
/// when the final byte arrived.
#[derive(Debug)]
pub enum PatchOption {
    Patched(u64),
    Completed(FileInfo<Completed>),
}

/// Spec-level description of one stored upload: the info record fields
/// together with the byte blob reserved for the upload.
#[verifier::ext_equal]
pub struct RecordModel {
    pub name: Seq<char>,
    pub length: u64,
    pub offset: u64,
    pub metadata: Option<Seq<(Seq<char>, Seq<char>)>>,
    pub data: Seq<u8>,
}

/// What a backend holds: the mapping from upload identifier to stored record.
pub type StoreModel = Map<Seq<char>, RecordModel>;

/// `n` zero bytes, the content of a freshly reserved blob.
pub open spec fn zero_bytes(n: nat) -> Seq<u8> {
    Seq::new(n, |i: int| 0u8)
}

/// `data` with `payload` written over the range starting at `off`.
pub open spec fn write_at(data: Seq<u8>, off: int, payload: Seq<u8>) -> Seq<u8> {
    data.subrange(0, off) + payload + data.subrange(off + payload.len(), data.len() as int)
}

/// A freshly built record: declared length, offset zero, the parsed metadata
/// attached, the display name derived from it, and a 32-digit identifier.
pub open spec fn built_view_ok(
    v: FileInfoView,
    length: u64,
    pairs: Seq<(Seq<char>, Seq<char>)>,
) -> bool {
    &&& v.length == length
    &&& v.offset == 0
    &&& v.metadata == Some(pairs)
    &&& v.name == display_name_of(pairs)
    &&& v.id.len() == 32
    &&& forall|i: int| 0 <= i < v.id.len() ==> is_hex_digit_char(#[trigger] v.id[i])
}

/// What `build_file` returns: a parse failure of the metadata string is the
/// only error; otherwise a fresh `Built` record as `built_view_ok` says, with
/// no metadata read as an empty pair set.
pub open spec fn build_post(
    length: u64,
    metadata: Option<Seq<char>>,
    r: Result<FileInfo<Built>, FileStoreError>,
) -> bool {
    match metadata {
        Some(s) => match parse_spec(s) {
            Err(e) => r == Err::<FileInfo<Built>, FileStoreError>(
                FileStoreError::CreationError(CreationErrorKind::InvalidMetadata(e)),
            ),
            Ok(pairs) => r matches Ok(fi) && built_view_ok(fi@, length, pairs),
        },
        None => r matches Ok(fi) && built_view_ok(
            fi@,
            length,
            Seq::<(Seq<char>, Seq<char>)>::empty(),
        ),
    }
}

/// What `create_file` does to the store: a duplicate identifier or an
/// oversized length is refused and nothing changes; otherwise the store
/// gains, under the record's identifier, a record with offset zero, a blob of
/// zero bytes pre-sized to the declared length, and a backend-chosen name,
/// and the returned record carries that name and offset zero.
pub open spec fn create_post(
    pre: StoreModel,
    post: StoreModel,
    info: FileInfoView,
    r: Result<FileInfo<Created>, FileStoreError>,
) -> bool {
    if pre.contains_key(info.id) {
        &&& r == Err::<FileInfo<Created>, FileStoreError>(
            FileStoreError::CreationError(CreationErrorKind::DuplicateId),
        )
        &&& post == pre
    } else if info.length > usize::MAX as u64 {
        &&& r == Err::<FileInfo<Created>, FileStoreError>(
            FileStoreError::CreationError(CreationErrorKind::AllocationFailed),
        )
        &&& post == pre
    } else {
        &&& r matches Ok(fi)
        &&& {
            let fi_view = r->Ok_0@;
            let rec = RecordModel {
                name: fi_view.name,
                length: info.length,
                offset: 0,
                metadata: info.metadata,
                data: zero_bytes(info.length as nat),
            };
            &&& fi_view == (FileInfoView { name: fi_view.name, offset: 0, ..info })
            &&& post == pre.insert(info.id, rec)
        }
    }
}

/// What `patch_file` does to the store. A missing identifier is `NotFound`;
/// a record already complete, or an expected offset other than the recorded
/// one, is the `OffsetMismatch` conflict; a payload running past the declared
/// length is `OffsetBeyondLength`; each failure leaves the store unchanged.
/// Otherwise the payload is written into the blob at the expected offset, the
/// recorded offset advances by the payload's length, and the patch reports
/// the new offset — or the completed record when it reached the length.
pub open spec fn patch_post(
    pre: StoreModel,
    post: StoreModel,
    id: Seq<char>,
    expected: u64,
    payload: Seq<u8>,
    r: Result<PatchOption, FileStoreError>,
) -> bool {
    if !pre.contains_key(id) {
        &&& r == Err::<PatchOption, FileStoreError>(
            FileStoreError::ReadError(ReadErrorKind::NotFound),
        )
        &&& post == pre
    } else {
        let rec = pre[id];
        if rec.offset == rec.length || expected != rec.offset {
            &&& r == Err::<PatchOption, FileStoreError>(
                FileStoreError::ReadError(ReadErrorKind::OffsetMismatch),
            )
            &&& post == pre
        } else if payload.len() > rec.length - rec.offset {
            &&& r == Err::<PatchOption, FileStoreError>(
                FileStoreError::ReadError(ReadErrorKind::OffsetBeyondLength),
            )
            &&& post == pre
        } else {
            let new_off = (expected + payload.len()) as u64;
            let rec2 = RecordModel {
                offset: new_off,
                data: write_at(rec.data, expected as int, payload),
                ..rec
            };
            &&& post == pre.insert(id, rec2)
            &&& if new_off == rec.length {
                r matches Ok(o) && o matches PatchOption::Completed(fi) && fi@ == (FileInfoView {
                    id: id,
                    name: rec.name,
                    length: rec.length,
                    offset: new_off,
                    metadata: rec.metadata,
                })
            } else {
                r == Ok::<PatchOption, FileStoreError>(PatchOption::Patched(new_off))
            }
        }
    }
}

/// What `get_file_info` returns: the stored record's fields under its
/// identifier, or `NotFound`.
pub open spec fn info_post(
    model: StoreModel,
    id: Seq<char>,
    r: Result<FileInfo<Created>, FileStoreError>,
) -> bool {
    if model.contains_key(id) {
        let rec = model[id];
        r matches Ok(fi) && fi@ == (FileInfoView {
            id: id,
            name: rec.name,
            length: rec.length,
            offset: rec.offset,
            metadata: rec.metadata,
        })
    } else {
        r == Err::<FileInfo<Created>, FileStoreError>(
            FileStoreError::ReadError(ReadErrorKind::NotFound),
        )
    }
}

/// What `delete_file` does to the store: the record leaves the store, bytes
/// and info together; deleting a missing identifier is a `TerminationError`
/// and changes nothing.
pub open spec fn delete_post(
    pre: StoreModel,
    post: StoreModel,
    id: Seq<char>,
    r: Result<(), FileStoreError>,
) -> bool {
    if pre.contains_key(id) {
        &&& r is Ok
        &&& post == pre.remove(id)
    } else {
        &&& r == Err::<(), FileStoreError>(
            FileStoreError::TerminationError(TerminationErrorKind::NotFound),
        )
        &&& post == pre
    }
}

/// The storage-backend contract: the capability surface any backend offers
/// the upload engine, stated over the backend's identifier-to-record mapping.
/// Within one identifier the methods take the backend exclusively (`&mut`),
/// which is the per-identifier critical section the patch sequence needs.
pub trait FileStore: Sized {
    /// The mapping from upload identifier to stored record.
    spec fn store_model(&self) -> StoreModel;

    /// Validates and parses the metadata string, assigns a fresh identifier,
    /// and derives the display name; touches no storage.
    fn build_file(&self, length: u64, metadata: Option<&str>) -> (r: Result<
        FileInfo<Built>,
        FileStoreError,
    >)
        ensures
            build_post(
                length,
                match metadata {
                    Some(s) => Some(s@),
                    None => None,
                },
                r,
            ),
    ;

    /// Persists a built record: reserves the blob pre-sized to the declared
    /// length and writes the initial info record with offset zero.
    fn create_file(&mut self, file_info: FileInfo<Built>) -> (r: Result<
        FileInfo<Created>,
        FileStoreError,
    >)
        ensures
            create_post(old(self).store_model(), final(self).store_model(), file_info@, r),
    ;

    /// Writes `data` at the expected offset after checking it against the
    /// recorded one, then advances the recorded offset; reports completion
    /// when the offset reaches the declared length.
    fn patch_file(&mut self, file_id: &str, offset: u64, data: &[u8]) -> (r: Result<
        PatchOption,
        FileStoreError,
    >)
        ensures
            patch_post(
                old(self).store_model(),
                final(self).store_model(),
                file_id@,
                offset,
                data@,
                r,
            ),
    ;

    /// Removes the record's bytes and info record.
    fn delete_file(&mut self, file_id: &str) -> (r: Result<(), FileStoreError>)
        ensures
            delete_post(old(self).store_model(), final(self).store_model(), file_id@, r),
    ;

    /// Reads the stored record back.
    fn get_file_info(&self, file_id: &str) -> (r: Result<FileInfo<Created>, FileStoreError>)
        ensures
            info_post(self.store_model(), file_id@, r),
    ;

    /// Whether a record is stored under the identifier.
    fn file_exists(&self, file_id: &str) -> (r: bool)
        ensures
            r == self.store_model().contains_key(file_id@),
    ;
}

/// One stored unit of the in-memory backend: the info record fields and the
/// blob.
struct StoreEntry {
    id: String,
    name: String,
    length: u64,
    offset: u64,
    metadata: Option<Metadata>,
    data: Vec<u8>,
}

impl StoreEntry {
    /// The record this entry stands for.
    spec fn model(&self) -> RecordModel {
        RecordModel {
            name: self.name@,
            length: self.length,
            offset: self.offset,
            metadata: match self.metadata {
                Some(m) => Some(m@),
                None => None,
            },
            data: self.data@,
        }
    }

    /// The blob is pre-sized to the declared length and the offset never
    /// passes it.
    spec fn wf(&self) -> bool {
        self.offset <= self.length && self.data@.len() == self.length
    }
}

/// The identifiers of the entries are pairwise distinct.
spec fn unique_entry_ids(s: Seq<StoreEntry>) -> bool {
    forall|i: int, j: int| 0 <= i < j < s.len() ==> (#[trigger] s[i]).id@ != (#[trigger] s[j]).id@
}

/// The mapping a sequence of entries stands for.
spec fn entries_model(s: Seq<StoreEntry>) -> StoreModel
    decreases s.len(),
{
    if s.len() == 0 {
        Map::<Seq<char>, RecordModel>::empty()
    } else {
        entries_model(s.drop_last()).insert(s.last().id@, s.last().model())
    }
}

proof fn lemma_entries_model_props(s: Seq<StoreEntry>)
    requires
        unique_entry_ids(s),
    ensures
        forall|i: int|
            0 <= i < s.len() ==> entries_model(s).contains_key((#[trigger] s[i]).id@)
                && entries_model(s)[s[i].id@] == s[i].model(),
        forall|k: Seq<char>| #[trigger]
            entries_model(s).contains_key(k) ==> exists|i: int|
                0 <= i < s.len() && (#[trigger] s[i]).id@ == k,
    decreases s.len(),
{
    if s.len() == 0 {
    } else {
        let d = s.drop_last();
        assert(forall|i: int| 0 <= i < d.len() ==> d[i] == s[i]);
        lemma_entries_model_props(d);
        assert forall|i: int|
            0 <= i < s.len() implies entries_model(s).contains_key((#[trigger] s[i]).id@)
            && entries_model(s)[s[i].id@] == s[i].model() by {
            if i < s.len() - 1 {
                assert(s[i].id@ != s.last().id@);
                assert(entries_model(d).contains_key(s[i].id@));
            }
        }
        assert forall|k: Seq<char>| #[trigger]
            entries_model(s).contains_key(k) implies exists|i: int|
            0 <= i < s.len() && (#[trigger] s[i]).id@ == k by {
            if k != s.last().id@ {
                assert(entries_model(d).contains_key(k));
                let i = choose|i: int| 0 <= i < d.len() && (#[trigger] d[i]).id@ == k;
                assert(s[i].id@ == k);
            } else {
                assert(s[s.len() - 1].id@ == k);
            }
        }
    }
}

proof fn lemma_entries_model_update(s: Seq<StoreEntry>, i: int, e: StoreEntry)
    requires
        unique_entry_ids(s),
        0 <= i < s.len(),
        e.id@ == s[i].id@,
    ensures
        entries_model(s.update(i, e)) == entries_model(s).insert(e.id@, e.model()),
    decreases s.len(),
{
    let s2 = s.update(i, e);
    if i == s.len() - 1 {
        assert(s2.drop_last() =~= s.drop_last());
        assert(s2.last() == e);
        assert(entries_model(s).insert(e.id@, e.model()) =~= entries_model(s.drop_last()).insert(
            e.id@,
            e.model(),
        ));
    } else {
        let d = s.drop_last();
        assert(forall|j: int| 0 <= j < d.len() ==> d[j] == s[j]);
        assert(s2.drop_last() =~= d.update(i, e));
        assert(s2.last() == s.last());
        lemma_entries_model_update(d, i, e);
        assert(s[i].id@ != s.last().id@);
        assert(entries_model(d).insert(e.id@, e.model()).insert(s.last().id@, s.last().model())
            =~= entries_model(d).insert(s.last().id@, s.last().model()).insert(e.id@, e.model()));
    }
}

proof fn lemma_entries_model_remove(s: Seq<StoreEntry>, i: int)
    requires
        unique_entry_ids(s),
        0 <= i < s.len(),
    ensures
        entries_model(s.remove(i)) == entries_model(s).remove(s[i].id@),
    decreases s.len(),
{
    if i == s.len() - 1 {
        let d = s.drop_last();
        assert(forall|j: int| 0 <= j < d.len() ==> d[j] == s[j]);
        assert(s.remove(i) =~= d);
        lemma_entries_model_props(d);
        if entries_model(d).contains_key(s[i].id@) {
            let j = choose|j: int| 0 <= j < d.len() && (#[trigger] d[j]).id@ == s[i].id@;
            assert(false);
        }
        assert(entries_model(s).remove(s[i].id@) =~= entries_model(d));
    } else {
        let d = s.drop_last();
        assert(forall|j: int| 0 <= j < d.len() ==> d[j] == s[j]);
        assert(s.remove(i).drop_last() =~= d.remove(i));
        assert(s.remove(i).last() == s.last());
        assert(s.remove(i).len() == s.len() - 1);
        lemma_entries_model_remove(d, i);
        assert(s[i].id@ != s.last().id@);
        assert(entries_model(d).remove(s[i].id@).insert(s.last().id@, s.last().model())
            =~= entries_model(d).insert(s.last().id@, s.last().model()).remove(s[i].id@));
    }
}

/// `root` and `name` joined with a single separator.
fn join_path(root: &str, name: &str) -> (r: String)
    ensures
        r@ == root@ + seq!['/'] + name@,
{
    let mut s = root.to_owned();
    s.append("/");
    s.append(name);
    proof {
        reveal_strlit("/");
        assert("/"@ =~= seq!['/']);
    }
    s
}

/// The patch decision, taken against the recorded offset and length before
/// any byte is written: a record already complete, or an expected offset
/// other than the recorded one, is the `OffsetMismatch` conflict; a payload
/// running past the declared length is `OffsetBeyondLength`; otherwise the
/// new offset is the expected one plus the payload's length, and the patch
/// completes the upload exactly when the new offset reaches the length.
pub fn plan_patch(length: u64, current: u64, expected: u64, payload_len: usize) -> (r: Result<
    (u64, bool),
    FileStoreError,
>)
    requires
        current <= length,
    ensures
        if current == length || expected != current {
            r == Err::<(u64, bool), FileStoreError>(
                FileStoreError::ReadError(ReadErrorKind::OffsetMismatch),
            )
        } else if payload_len > length - current {
            r == Err::<(u64, bool), FileStoreError>(
                FileStoreError::ReadError(ReadErrorKind::OffsetBeyondLength),
            )
        } else {
            r == Ok::<(u64, bool), FileStoreError>(
                ((expected + payload_len) as u64, expected + payload_len == length),
            )
        },
{
    if current == length || expected != current {
        return Err(FileStoreError::ReadError(ReadErrorKind::OffsetMismatch));
    }
    if payload_len as u64 > length - current {
        return Err(FileStoreError::ReadError(ReadErrorKind::OffsetBeyondLength));
    }
    let new_off = expected + payload_len as u64;
    Ok((new_off, new_off == length))
}

/// The in-memory reference backend: one entry per identifier, each holding
/// the blob reserved at creation and the info record beside it. The root path
/// given at construction prefixes the name a record is stored under.
pub struct LocalFileStore {
    root_path: String,
    entries: Vec<StoreEntry>,
}

impl LocalFileStore {
    /// The directory names are stored under: the prefix of every record's
    /// name.
    pub closed spec fn root(&self) -> Seq<char> {
        self.root_path@
    }

    #[verifier::type_invariant]
    spec fn wf(&self) -> bool {
        &&& unique_entry_ids(self.entries@)
        &&& forall|i: int| 0 <= i < self.entries@.len() ==> (#[trigger] self.entries@[i]).wf()
    }

    /// A fresh backend rooted at `root_path`, holding no records.
    pub fn new(root_path: String) -> (r: LocalFileStore)
        ensures
            r.store_model() == Map::<Seq<char>, RecordModel>::empty(),
            r.root() == root_path@,
    {
        let s = LocalFileStore { root_path, entries: Vec::new() };
        proof {
            assert(s.entries@.len() == 0);
        }
        s
    }

    /// The position of the entry stored under `file_id`, where there is one.
    #[verifier::loop_isolation(false)]
    fn find_entry(&self, file_id: &str) -> (r: Option<usize>)
        ensures
            match r {
                Some(i) => i < self.entries@.len() && self.entries@[i as int].id@ == file_id@
                    && self.store_model().contains_key(file_id@) && self.store_model()[file_id@]
                    == self.entries@[i as int].model(),
                None => !self.store_model().contains_key(file_id@),
            },
    {
        proof {
            use_type_invariant(&*self);
            lemma_entries_model_props(self.entries@);
        }
        let k = file_id.to_owned();
        let n = self.entries.len();
        let mut i: usize = 0;
        while i < n
            invariant
                i <= n,
                forall|j: int| 0 <= j < i ==> (#[trigger] self.entries@[j]).id@ != file_id@,
            decreases n - i,
        {
            if self.entries[i].id == k {
                return Some(i);
            }
            i += 1;
        }
        proof {
            if self.store_model().contains_key(file_id@) {
                let j = choose|j: int|
                    0 <= j < self.entries@.len() && (#[trigger] self.entries@[j]).id@ == file_id@;
                assert(false);
            }
        }
        None
    }
}

impl FileStore for LocalFileStore {
    closed spec fn store_model(&self) -> StoreModel {
        entries_model(self.entries@)
    }

    fn build_file(&self, length: u64, metadata: Option<&str>) -> (r: Result<
        FileInfo<Built>,
        FileStoreError,
    >) {
        let meta = match metadata {
            Some(s) => match Metadata::try_from(s) {
                Ok(m) => m,
                Err(e) => {
                    return Err(FileStoreError::CreationError(CreationErrorKind::InvalidMetadata(e)));
                },
            },
            None => Metadata::new(),
        };
        let ghost pairs = meta@;
        let fi = FileInfo::new(length).with_uuid().with_metadata(meta).build();
        proof {
            if fi@.name != display_name_of(pairs) {
                assert(fi@.name.len() == 0);
                assert(fi@.name =~= display_name_of(pairs));
            }
        }
        Ok(fi)
    }

    fn create_file(&mut self, file_info: FileInfo<Built>) -> (r: Result<
        FileInfo<Created>,
        FileStoreError,
    >)
        ensures
            final(self).root() == old(self).root(),
            r matches Ok(fi) ==> fi@.name == old(self).root() + seq!['/'] + file_info@.name,
    {
        proof {
            use_type_invariant(&*self);
            lemma_entries_model_props(self.entries@);
        }
        let ghost pre = self.store_model();
        if let Some(_) = self.find_entry(file_info.id()) {
            return Err(FileStoreError::CreationError(CreationErrorKind::DuplicateId));
        }
        let length = *file_info.length();
        if length > usize::MAX as u64 {
            return Err(FileStoreError::CreationError(CreationErrorKind::AllocationFailed));
        }
        let full_name = join_path(self.root_path.as_str(), file_info.name());
        let ghost info_view = file_info@;
        let mut created = file_info.mark_as_created(full_name.as_str());
        let set_res = created.set_offset(0);
        proof {
            assert(set_res is Ok);
        }
        let meta_copy = match created.metadata() {
            Some(m) => Some(m.duplicate()),
            None => None,
        };
        let data = vec![0u8; length as usize];
        proof {
            assert(data@ =~= zero_bytes(length as nat));
        }
        let entry = StoreEntry {
            id: created.id().to_owned(),
            name: full_name,
            length,
            offset: 0,
            metadata: meta_copy,
            data,
        };
        let ghost olds = self.entries@;
        let mut es: Vec<StoreEntry> = Vec::new();
        core::mem::swap(&mut es, &mut self.entries);
        es.push(entry);
        proof {
            assert(forall|j: int|
                0 <= j < olds.len() ==> (#[trigger] olds[j]).id@ != info_view.id);
            assert(unique_entry_ids(es@)) by {
                assert(forall|j: int| 0 <= j < olds.len() ==> es@[j] == olds[j]);
            }
            assert(es@.drop_last() =~= olds);
            assert(es@.last().model() =~= (RecordModel {
                name: created@.name,
                length: length,
                offset: 0,
                metadata: info_view.metadata,
                data: zero_bytes(length as nat),
            }));
        }
        self.entries = es;
        proof {
            assert(self.store_model() == pre.insert(info_view.id, es@.last().model()));
        }
        Ok(created)
    }

    #[verifier::loop_isolation(false)]
    fn patch_file(&mut self, file_id: &str, offset: u64, data: &[u8]) -> (r: Result<
        PatchOption,
        FileStoreError,
    >) {
        proof {
            use_type_invariant(&*self);
        }
        let ghost pre = self.store_model();
        let idx = match self.find_entry(file_id) {
            None => {
                return Err(FileStoreError::ReadError(ReadErrorKind::NotFound));
            },
            Some(i) => i,
        };
        let plan = plan_patch(
            self.entries[idx].length,
            self.entries[idx].offset,
            offset,
            data.len(),
        );
        let (new_off, completed) = match plan {
            Err(e) => {
                return Err(e);
            },
            Ok(p) => p,
        };
        // Take the entry out, write the payload into its blob, advance its
        // offset, and put it back in place.
        let ghost olds = self.entries@;
        let mut es: Vec<StoreEntry> = Vec::new();
        core::mem::swap(&mut es, &mut self.entries);
        let mut entry = es.remove(idx);
        let ghost orig = entry.model();
        let blob_len = entry.data.len();
        proof {
            assert(blob_len == entry.length);
            assert(offset == orig.offset && offset <= entry.length);
            assert(offset + data@.len() <= entry.length);
        }
        let off_usize = offset as usize;
        let mut k: usize = 0;
        proof {
            assert(entry.data@ =~= write_at(orig.data, offset as int, data@.take(0)));
        }
        while k < data.len()
            invariant
                k <= data@.len(),
                entry.data@.len() == orig.data.len(),
                off_usize == offset,
                offset + data@.len() <= orig.data.len(),
                orig.data.len() == entry.length,
                entry.id == olds[idx as int].id,
                entry.name == olds[idx as int].name,
                entry.length == olds[idx as int].length,
                entry.offset == olds[idx as int].offset,
                entry.metadata == olds[idx as int].metadata,
                entry.data@ == write_at(orig.data, offset as int, data@.take(k as int)),
            decreases data@.len() - k,
        {
            proof {
                assert(off_usize + k < entry.data@.len());
            }
            entry.data[off_usize + k] = data[k];
            proof {
                assert(entry.data@ =~= write_at(orig.data, offset as int, data@.take(k + 1)));
            }
            k += 1;
        }
        entry.offset = new_off;
        proof {
            assert(data@.take(data@.len() as int) =~= data@);
            assert(entry.model() =~= (RecordModel {
                offset: new_off,
                data: write_at(orig.data, offset as int, data@),
                ..orig
            }));
        }
        let result = if completed {
            let meta_copy = match &entry.metadata {
                Some(m) => Some(m.duplicate()),
                None => None,
            };
            let fi = FileInfo::assemble_completed(
                entry.id.clone(),
                entry.name.clone(),
                entry.length,
                entry.offset,
                meta_copy,
            );
            PatchOption::Completed(fi)
        } else {
            PatchOption::Patched(new_off)
        };
        let ghost e2 = entry;
        es.insert(idx, entry);
        proof {
            assert(es@ =~= olds.update(idx as int, e2));
            lemma_entries_model_update(olds, idx as int, e2);
            assert(unique_entry_ids(es@)) by {
                assert(forall|j: int| 0 <= j < es@.len() ==> (#[trigger] es@[j]).id@ == olds[j].id@);
            }
            assert(forall|j: int| 0 <= j < es@.len() ==> (#[trigger] es@[j]).wf());
        }
        self.entries = es;
        Ok(result)
    }

    fn delete_file(&mut self, file_id: &str) -> (r: Result<(), FileStoreError>) {
        proof {
            use_type_invariant(&*self);
        }
        let idx = match self.find_entry(file_id) {
            None => {
                return Err(FileStoreError::TerminationError(TerminationErrorKind::NotFound));
            },
            Some(i) => i,
        };
        let ghost olds = self.entries@;
        let mut es: Vec<StoreEntry> = Vec::new();
        core::mem::swap(&mut es, &mut self.entries);
        let _ = es.remove(idx);
        proof {
            lemma_entries_model_remove(olds, idx as int);
            assert(unique_entry_ids(es@)) by {
                assert(forall|j: int|
                    0 <= j < es@.len() ==> es@[j] == if j < idx as int {
                        olds[j]
                    } else {
                        olds[j + 1]
                    });
            }
            assert(forall|j: int| 0 <= j < es@.len() ==> (#[trigger] es@[j]).wf());
        }
        self.entries = es;
        Ok(())
    }

    fn get_file_info(&self, file_id: &str) -> (r: Result<FileInfo<Created>, FileStoreError>) {
        proof {
            use_type_invariant(&*self);
        }
        let idx = match self.find_entry(file_id) {
            None => {
                return Err(FileStoreError::ReadError(ReadErrorKind::NotFound));
            },
            Some(i) => i,
        };
        let e = &self.entries[idx];
        let meta_copy = match &e.metadata {
            Some(m) => Some(m.duplicate()),
            None => None,
        };
        let fi = FileInfo::assemble_created(
            e.id.clone(),
            e.name.clone(),
            e.length,
            e.offset,
            meta_copy,
        );
        Ok(fi)
    }

    fn file_exists(&self, file_id: &str) -> (r: bool) {
        match self.find_entry(file_id) {
            Some(_) => true,
            None => false,
        }
    }
}

} // verus!
