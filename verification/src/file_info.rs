//! The upload lifecycle state machine.
//!
//! One upload's record moves through `Building` → `Built` → `Created` and
//! ends in `Completed` or `Terminated`. The state is a type parameter, so an
//! operation of one state cannot be called in another; the transition
//! functions consume the old state and produce the next. The record's
//! invariant — the offset never passes the declared length — holds in every
//! state.

use vstd::prelude::*;

use crate::metadata::Metadata;
use crate::metadata::display_name_of;
use crate::metadata::has_decodable_filename;
use crate::metadata::serialize_spec;

verus! {

/// Marker: in memory, no identifier assigned yet.
#[derive(Debug)]
pub struct Building;

/// Marker: identifier assigned and metadata attached, not yet durable.
#[derive(Debug)]
pub struct Built;

/// Marker: persisted by a backend; patches may advance the offset.
#[derive(Debug)]
pub struct Created;

/// Marker: the upload's bytes all arrived; terminal.
#[derive(Debug)]
pub struct Completed;

/// Marker: deleted; bytes and info are gone; terminal.
#[derive(Debug)]
pub struct Terminated;

/// Spec-level image of a record: identifier, display name, declared length,
/// current offset, and the attached metadata pairs.
#[verifier::ext_equal]
pub struct FileInfoView {
    pub id: Seq<char>,
    pub name: Seq<char>,
    pub length: u64,
    pub offset: u64,
    pub metadata: Option<Seq<(Seq<char>, Seq<char>)>>,
}

/// A file's info record during one stage of its lifecycle.
#[derive(Debug)]
pub struct FileInfo<State> {
    id: String,
    file_name: String,
    length: u64,
    offset: u64,
    metadata: Option<Metadata>,
    state: core::marker::PhantomData<State>,
}

impl<State> View for FileInfo<State> {
    type V = FileInfoView;

    closed spec fn view(&self) -> FileInfoView {
        FileInfoView {
            id: self.id@,
            name: self.file_name@,
            length: self.length,
            offset: self.offset,
            metadata: match self.metadata {
                Some(m) => Some(m@),
                None => None,
            },
        }
    }
}

/// The decimal digit `d` as a character.
pub open spec fn dec_digit_char(d: int) -> char {
    if d == 0 {
        '0'
    } else if d == 1 {
        '1'
    } else if d == 2 {
        '2'
    } else if d == 3 {
        '3'
    } else if d == 4 {
        '4'
    } else if d == 5 {
        '5'
    } else if d == 6 {
        '6'
    } else if d == 7 {
        '7'
    } else if d == 8 {
        '8'
    } else {
        '9'
    }
}

/// The canonical decimal rendering of `n`: no sign, no leading zero except
/// for zero itself.
pub open spec fn dec_str_of(n: nat) -> Seq<char>
    decreases n,
{
    if n < 10 {
        seq![dec_digit_char(n as int)]
    } else {
        dec_str_of(n / 10).push(dec_digit_char((n % 10) as int))
    }
}

/// Relies on `u64`'s `Display` through `ToString`: the canonical decimal
/// digits of the number.
#[verifier::external_body]
fn u64_to_string(n: u64) -> (r: String)
    ensures
        r@ == dec_str_of(n as nat),
{
    n.to_string()
}

/// A lowercase hexadecimal digit.
pub open spec fn is_hex_digit_char(c: char) -> bool {
    ('0' <= c && c <= '9') || ('a' <= c && c <= 'f')
}

/// Relies on `uuid::Uuid::new_v4` and its `simple` formatter: a fresh random
/// identifier rendered as exactly 32 lowercase hexadecimal characters.
#[verifier::external_body]
fn fresh_upload_id() -> (r: String)
    ensures
        r@.len() == 32,
        forall|i: int| 0 <= i < r@.len() ==> is_hex_digit_char(#[trigger] r@[i]),
{
    uuid::Uuid::new_v4().simple().to_string()
}

impl<State> FileInfo<State> {
    #[verifier::type_invariant]
    spec fn inv(&self) -> bool {
        self.offset <= self.length
    }

    /// The upload's identifier.
    pub fn id(&self) -> (r: &str)
        ensures
            r@ == self@.id,
    {
        self.id.as_str()
    }

    /// The declared total length, fixed at build time.
    pub fn length(&self) -> (r: &u64)
        ensures
            r == self@.length,
    {
        &self.length
    }

    /// The attached metadata, where any was supplied.
    pub fn metadata(&self) -> (r: &Option<Metadata>)
        ensures
            match r {
                Some(m) => self@.metadata == Some(m@),
                None => self@.metadata is None,
            },
    {
        &self.metadata
    }

    /// The display name derived from the metadata, or the name the backend
    /// recorded at creation.
    pub fn name(&self) -> (r: &String)
        ensures
            r@ == self@.name,
    {
        &self.file_name
    }

    /// The metadata echoed in its wire format, for a response header; empty
    /// where none was attached.
    pub fn metadata_str(&self) -> (r: String)
        ensures
            match self@.metadata {
                Some(pairs) => r@ == serialize_spec(pairs),
                None => r@.len() == 0,
            },
    {
        match &self.metadata {
            Some(m) => m.serialize(),
            None => String::new(),
        }
    }

    /// The declared length in decimal, for a response header.
    pub fn length_str(&self) -> (r: String)
        ensures
            r@ == dec_str_of(self@.length as nat),
    {
        u64_to_string(self.length)
    }
}

impl FileInfo<Building> {
    /// A fresh record of the given declared length: no identifier, no name,
    /// no metadata, offset zero.
    pub fn new(length: u64) -> (r: FileInfo<Building>)
        ensures
            r@.id.len() == 0,
            r@.name.len() == 0,
            r@.length == length,
            r@.offset == 0,
            r@.metadata is None,
    {
        FileInfo {
            id: String::new(),
            file_name: String::new(),
            length,
            offset: 0,
            metadata: None,
            state: core::marker::PhantomData,
        }
    }

    /// Assigns a fresh random identifier: 32 lowercase hexadecimal
    /// characters.
    pub fn with_uuid(self) -> (r: FileInfo<Building>)
        ensures
            r@.id.len() == 32,
            forall|i: int| 0 <= i < r@.id.len() ==> is_hex_digit_char(#[trigger] r@.id[i]),
            r@.name == self@.name,
            r@.length == self@.length,
            r@.offset == self@.offset,
            r@.metadata == self@.metadata,
    {
        let id = fresh_upload_id();
        self.with_raw_id(id)
    }

    /// Assigns a caller-chosen identifier.
    pub fn with_raw_id(self, id: String) -> (r: FileInfo<Building>)
        ensures
            r@ == (FileInfoView { id: id@, ..self@ }),
    {
        proof {
            use_type_invariant(&self);
        }
        let mut s = self;
        s.id = id;
        s
    }

    /// Attaches parsed metadata and derives the display name from its
    /// `filename` value, where one decodes.
    pub fn with_metadata(self, metadata: Metadata) -> (r: FileInfo<Building>)
        ensures
            r@.id == self@.id,
            r@.length == self@.length,
            r@.offset == self@.offset,
            r@.metadata == Some(metadata@),
            r@.name == if has_decodable_filename(metadata@) {
                display_name_of(metadata@)
            } else {
                self@.name
            },
    {
        proof {
            use_type_invariant(&self);
        }
        let mut s = self;
        match metadata.try_file_name() {
            Some(file_name) => {
                s.file_name = file_name;
            },
            None => {},
        }
        s.metadata = Some(metadata);
        s
    }

    /// Finishes building: the record is ready to be persisted.
    pub fn build(self) -> (r: FileInfo<Built>)
        ensures
            r@ == self@,
    {
        proof {
            use_type_invariant(&self);
        }
        FileInfo {
            id: self.id,
            file_name: self.file_name,
            length: self.length,
            offset: self.offset,
            metadata: self.metadata,
            state: core::marker::PhantomData,
        }
    }
}

impl FileInfo<Built> {
    /// Records that a backend persisted the record under `file_name`.
    pub fn mark_as_created(self, file_name: &str) -> (r: FileInfo<Created>)
        ensures
            r@ == (FileInfoView { name: file_name@, ..self@ }),
    {
        proof {
            use_type_invariant(&self);
        }
        FileInfo {
            id: self.id,
            file_name: file_name.to_owned(),
            length: self.length,
            offset: self.offset,
            metadata: self.metadata,
            state: core::marker::PhantomData,
        }
    }
}

impl FileInfo<Created> {
    /// The count of bytes durably received so far.
    pub fn offset(&self) -> (r: &u64)
        ensures
            r == self@.offset,
    {
        &self.offset
    }

    /// Advances the recorded offset; refused where it would pass the
    /// declared length, so the record's invariant is kept.
    pub fn set_offset(&mut self, offset: u64) -> (r: Result<(), ()>)
        ensures
            offset <= old(self)@.length ==> r is Ok && final(self)@ == (FileInfoView {
                offset,
                ..old(self)@
            }),
            offset > old(self)@.length ==> r is Err && final(self)@ == old(self)@,
    {
        proof {
            use_type_invariant(&*self);
        }
        if offset > self.length {
            return Err(());
        }
        self.offset = offset;
        Ok(())
    }

    /// The completion predicate and transition: the record reaches
    /// `Completed` exactly when its offset equals its declared length.
    pub fn check_completion(self) -> (r: Option<FileInfo<Completed>>)
        ensures
            self@.offset == self@.length <==> r is Some,
            r matches Some(fi) ==> fi@ == self@,
    {
        proof {
            use_type_invariant(&self);
        }
        if self.offset != self.length {
            return None;
        }
        Some(
            FileInfo {
                id: self.id,
                file_name: self.file_name,
                length: self.length,
                offset: self.offset,
                metadata: self.metadata,
                state: core::marker::PhantomData,
            },
        )
    }

    /// The explicit deletion transition; terminal.
    pub fn mark_as_terminated(self) -> (r: FileInfo<Terminated>)
        ensures
            r@ == self@,
    {
        proof {
            use_type_invariant(&self);
        }
        FileInfo {
            id: self.id,
            file_name: self.file_name,
            length: self.length,
            offset: self.offset,
            metadata: self.metadata,
            state: core::marker::PhantomData,
        }
    }
}

impl FileInfo<Created> {
    /// A record read back from a backend's stored fields.
    pub(crate) fn assemble_created(
        id: String,
        file_name: String,
        length: u64,
        offset: u64,
        metadata: Option<Metadata>,
    ) -> (r: FileInfo<Created>)
        requires
            offset <= length,
        ensures
            r@ == (FileInfoView {
                id: id@,
                name: file_name@,
                length,
                offset,
                metadata: match metadata {
                    Some(m) => Some(m@),
                    None => None,
                },
            }),
    {
        FileInfo { id, file_name, length, offset, metadata, state: core::marker::PhantomData }
    }
}

impl FileInfo<Completed> {
    /// A record whose offset reached its length, assembled by a backend at
    /// the moment of completion.
    pub(crate) fn assemble_completed(
        id: String,
        file_name: String,
        length: u64,
        offset: u64,
        metadata: Option<Metadata>,
    ) -> (r: FileInfo<Completed>)
        requires
            offset == length,
        ensures
            r@ == (FileInfoView {
                id: id@,
                name: file_name@,
                length,
                offset,
                metadata: match metadata {
                    Some(m) => Some(m@),
                    None => None,
                },
            }),
    {
        FileInfo { id, file_name, length, offset, metadata, state: core::marker::PhantomData }
    }

    /// The name the backend stored the bytes under.
    pub fn file_name(&self) -> (r: &String)
        ensures
            r@ == self@.name,
    {
        &self.file_name
    }
}

impl FileInfo<Terminated> {
    /// The offset the record had when it was terminated.
    pub fn offset(&self) -> (r: &u64)
        ensures
            r == self@.offset,
    {
        &self.offset
    }

    /// The name the backend had stored the bytes under.
    pub fn file_name(&self) -> (r: &String)
        ensures
            r@ == self@.name,
    {
        &self.file_name
    }
}

} // verus!
