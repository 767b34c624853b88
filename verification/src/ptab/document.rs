//! The shape of the partition document, and the reader that decodes it.
//!
//! A document is one object with three members, in any order:
//!
//! ```text
//! {
//!   "version": 1,
//!   "device": 52,
//!   "partitions": [
//!     { "name": "boot", "role": "bootloader", "address": 0x12010000,
//!       "size": 0x10000, "flags": ["executable", "load_at_boot"] }
//!   ]
//! }
//! ```
//!
//! Each partition is an object with the five members shown, in any order.
//! Roles are `bootloader`, `hcpu`, `lcpu`, `filesystem`, `reserved` and
//! `user`; flags are `executable`, `load_at_boot` and `secure`. A member
//! that is missing, given twice or not known makes the document malformed,
//! as does a flag listed twice, anything after the closing brace, a version
//! that does not fit in 32 bits and a device that this crate does not know.
//!
//! The functions whose names end in `_at` and `_from` define the format:
//! they say, for any bytes, what the document holds or where it goes wrong.
//! The readers beside them compute exactly that.

use vstd::prelude::*;
use vstd::string::StringSliceAdditionalSpecFns;
use crate::ptab::model::{
    partition_models,
    Device,
    Document,
    DocumentModel,
    Flag,
    Flags,
    Partition,
    PartitionModel,
    Role,
};
use crate::ptab::text::{
    bytes_eq,
    lemma_run_end,
    number_at,
    read_number,
    read_string,
    read_symbol,
    run_end,
    scan_run,
    string_at,
    symbol_at,
    ByteClass,
    CLOSE_BRACE,
    CLOSE_BRACKET,
    COLON,
    COMMA,
    OPEN_BRACE,
    OPEN_BRACKET,
};

verus! {

/// What reading a value of type `T` yields: the value and the position
/// after it, or the offset of the fault.
pub type Read<T> = Result<(T, int), int>;

/// The separator or closing byte expected after an item of a list or a
/// member of an object.
pub enum Follow {
    /// A comma: another item follows at the position given.
    More(int),
    /// The closing byte: the list ends before the position given.
    Done(int),
    /// Neither, at the offset given.
    Fault(int),
}

/// What follows an item that ends at `pos`, in a list or object that
/// `close` closes.
pub open spec fn follow_at(s: Seq<u8>, pos: int, close: u8) -> Follow {
    let at = run_end(s, pos, ByteClass::Space);
    if 0 <= at < s.len() && s[at] == COMMA {
        Follow::More(at + 1)
    } else if 0 <= at < s.len() && s[at] == close {
        Follow::Done(at + 1)
    } else {
        Follow::Fault(at)
    }
}

/// A string token ends after the position at which it was looked for, and
/// inside the text.
pub proof fn lemma_string_at_advances(s: Seq<u8>, pos: int)
    requires
        0 <= pos <= s.len(),
    ensures
        string_at(s, pos) matches Ok((_, next)) ==> pos < next <= s.len(),
        string_at(s, pos) matches Err(at) ==> pos <= at <= s.len(),
{
    lemma_run_end(s, pos, ByteClass::Space);
    lemma_run_end(s, run_end(s, pos, ByteClass::Space) + 1, ByteClass::Text);
}

/// A number token ends after the position at which it was looked for, and
/// inside the text.
pub proof fn lemma_number_at_advances(s: Seq<u8>, pos: int)
    requires
        0 <= pos <= s.len(),
    ensures
        number_at(s, pos) matches Ok((_, next)) ==> pos < next <= s.len(),
        number_at(s, pos) matches Err(at) ==> pos <= at <= s.len(),
{
    let start = run_end(s, pos, ByteClass::Space);
    lemma_run_end(s, pos, ByteClass::Space);
    lemma_run_end(s, start, ByteClass::Digit);
    lemma_run_end(s, start + 2, ByteClass::HexDigit);
}

/// A punctuation byte is found after the position at which it was looked
/// for, and inside the text.
pub proof fn lemma_symbol_at_advances(s: Seq<u8>, pos: int, symbol: u8)
    requires
        0 <= pos <= s.len(),
    ensures
        symbol_at(s, pos, symbol) matches Ok(next) ==> pos < next <= s.len(),
        symbol_at(s, pos, symbol) matches Err(at) ==> pos <= at <= s.len(),
{
    lemma_run_end(s, pos, ByteClass::Space);
}

/// What follows an item is found after the item, and inside the text.
pub proof fn lemma_follow_at_advances(s: Seq<u8>, pos: int, close: u8)
    requires
        0 <= pos <= s.len(),
    ensures
        follow_at(s, pos, close) matches Follow::More(next) ==> pos < next <= s.len(),
        follow_at(s, pos, close) matches Follow::Done(next) ==> pos < next <= s.len(),
        follow_at(s, pos, close) matches Follow::Fault(at) ==> pos <= at <= s.len(),
{
    lemma_run_end(s, pos, ByteClass::Space);
}

/// The flags that the words from `pos` to the closing bracket name, added
/// to `acc`. A word that names no flag, or one that `acc` has, is a fault
/// at the word.
pub open spec fn flag_items_from(s: Seq<u8>, pos: int, acc: Flags) -> Read<Flags>
    decreases s.len() - pos,
{
    if !(0 <= pos <= s.len()) {
        Err(pos)
    } else {
        match string_at(s, pos) {
            Err(at) => Err(at),
            Ok((word, after)) => match Flag::named(word) {
                None => Err(run_end(s, pos, ByteClass::Space)),
                Some(flag) => if acc.has(flag) {
                    Err(run_end(s, pos, ByteClass::Space))
                } else {
                    match follow_at(s, after, CLOSE_BRACKET) {
                        Follow::More(next) => {
                            proof {
                                lemma_string_at_advances(s, pos);
                                lemma_follow_at_advances(s, after, CLOSE_BRACKET);
                            }
                            flag_items_from(s, next, acc.with(flag))
                        },
                        Follow::Done(next) => Ok((acc.with(flag), next)),
                        Follow::Fault(at) => Err(at),
                    }
                },
            },
        }
    }
}

/// The list of flags at `pos`: an opening bracket, then the closing one or
/// words separated by commas and the closing bracket.
pub open spec fn flags_at(s: Seq<u8>, pos: int) -> Read<Flags> {
    match symbol_at(s, pos, OPEN_BRACKET) {
        Err(at) => Err(at),
        Ok(inside) => match symbol_at(s, inside, CLOSE_BRACKET) {
            Ok(next) => Ok((Flags::none(), next)),
            Err(_) => flag_items_from(s, inside, Flags::none()),
        },
    }
}

/// The flags of a list end after the position at which they were looked
/// for, and inside the text.
pub proof fn lemma_flag_items_from_advances(s: Seq<u8>, pos: int, acc: Flags)
    requires
        0 <= pos <= s.len(),
    ensures
        flag_items_from(s, pos, acc) matches Ok((_, next)) ==> pos < next <= s.len(),
        flag_items_from(s, pos, acc) matches Err(at) ==> pos <= at <= s.len(),
    decreases s.len() - pos,
{
    lemma_string_at_advances(s, pos);
    lemma_run_end(s, pos, ByteClass::Space);
    if let Ok((word, after)) = string_at(s, pos) {
        lemma_follow_at_advances(s, after, CLOSE_BRACKET);
        if let Some(flag) = Flag::named(word) {
            if !acc.has(flag) {
                if let Follow::More(next) = follow_at(s, after, CLOSE_BRACKET) {
                    lemma_flag_items_from_advances(s, next, acc.with(flag));
                }
            }
        }
    }
}

/// A list of flags ends after the position at which it was looked for, and
/// inside the text.
pub proof fn lemma_flags_at_advances(s: Seq<u8>, pos: int)
    requires
        0 <= pos <= s.len(),
    ensures
        flags_at(s, pos) matches Ok((_, next)) ==> pos < next <= s.len(),
        flags_at(s, pos) matches Err(at) ==> pos <= at <= s.len(),
{
    lemma_symbol_at_advances(s, pos, OPEN_BRACKET);
    if let Ok(inside) = symbol_at(s, pos, OPEN_BRACKET) {
        lemma_symbol_at_advances(s, inside, CLOSE_BRACKET);
        lemma_flag_items_from_advances(s, inside, Flags::none());
    }
}

/// The members of a partition object.
#[derive(Clone, Copy, PartialEq, Eq, Structural, Debug)]
pub enum PartitionKey {
    Name,
    Role,
    Address,
    Size,
    Flags,
}

impl PartitionKey {
    /// The member that a document names by `word`.
    pub open spec fn named(word: Seq<u8>) -> Option<PartitionKey> {
        if word == "name".spec_bytes() {
            Some(PartitionKey::Name)
        } else if word == "role".spec_bytes() {
            Some(PartitionKey::Role)
        } else if word == "address".spec_bytes() {
            Some(PartitionKey::Address)
        } else if word == "size".spec_bytes() {
            Some(PartitionKey::Size)
        } else if word == "flags".spec_bytes() {
            Some(PartitionKey::Flags)
        } else {
            None
        }
    }

    /// Looks up the member that a document names by `word`.
    pub fn from_name(word: &[u8]) -> (r: Option<PartitionKey>)
        ensures
            r == PartitionKey::named(word@),
    {
        if bytes_eq(word, "name".as_bytes()) {
            Some(PartitionKey::Name)
        } else if bytes_eq(word, "role".as_bytes()) {
            Some(PartitionKey::Role)
        } else if bytes_eq(word, "address".as_bytes()) {
            Some(PartitionKey::Address)
        } else if bytes_eq(word, "size".as_bytes()) {
            Some(PartitionKey::Size)
        } else if bytes_eq(word, "flags".as_bytes()) {
            Some(PartitionKey::Flags)
        } else {
            None
        }
    }
}

/// The members of a partition object that have been read.
pub struct PartitionFields {
    pub name: Option<Seq<u8>>,
    pub role: Option<Role>,
    pub address: Option<u64>,
    pub size: Option<u64>,
    pub flags: Option<Flags>,
}

impl PartitionFields {
    /// No member read yet.
    pub open spec fn empty() -> PartitionFields {
        PartitionFields { name: None, role: None, address: None, size: None, flags: None }
    }

    /// Whether the member `key` has been read.
    pub open spec fn has(self, key: PartitionKey) -> bool {
        match key {
            PartitionKey::Name => self.name is Some,
            PartitionKey::Role => self.role is Some,
            PartitionKey::Address => self.address is Some,
            PartitionKey::Size => self.size is Some,
            PartitionKey::Flags => self.flags is Some,
        }
    }

    /// The partition, where every member has been read.
    pub open spec fn complete(self) -> Option<PartitionModel> {
        if self.name is Some && self.role is Some && self.address is Some && self.size is Some
            && self.flags is Some {
            Some(
                PartitionModel {
                    name: self.name->0,
                    role: self.role->0,
                    address: self.address->0,
                    size: self.size->0,
                    flags: self.flags->0,
                },
            )
        } else {
            None
        }
    }
}

/// The value of member `key` at `pos`, stored in `acc`: a string for the
/// name, the name of a role for the role, a number for the address and for
/// the size, a list of flags for the flags. A word that names no role is a
/// fault at the word.
pub open spec fn partition_field_at(
    s: Seq<u8>,
    pos: int,
    key: PartitionKey,
    acc: PartitionFields,
) -> Read<PartitionFields> {
    match key {
        PartitionKey::Name => match string_at(s, pos) {
            Err(at) => Err(at),
            Ok((name, next)) => Ok((PartitionFields { name: Some(name), ..acc }, next)),
        },
        PartitionKey::Role => match string_at(s, pos) {
            Err(at) => Err(at),
            Ok((word, next)) => match Role::named(word) {
                None => Err(run_end(s, pos, ByteClass::Space)),
                Some(role) => Ok((PartitionFields { role: Some(role), ..acc }, next)),
            },
        },
        PartitionKey::Address => match number_at(s, pos) {
            Err(at) => Err(at),
            Ok((address, next)) => Ok((PartitionFields { address: Some(address), ..acc }, next)),
        },
        PartitionKey::Size => match number_at(s, pos) {
            Err(at) => Err(at),
            Ok((size, next)) => Ok((PartitionFields { size: Some(size), ..acc }, next)),
        },
        PartitionKey::Flags => match flags_at(s, pos) {
            Err(at) => Err(at),
            Ok((flags, next)) => Ok((PartitionFields { flags: Some(flags), ..acc }, next)),
        },
    }
}

/// The value of a partition's member ends after the position at which it
/// was looked for, and inside the text.
pub proof fn lemma_partition_field_at_advances(
    s: Seq<u8>,
    pos: int,
    key: PartitionKey,
    acc: PartitionFields,
)
    requires
        0 <= pos <= s.len(),
    ensures
        partition_field_at(s, pos, key, acc) matches Ok((_, next)) ==> pos < next <= s.len(),
        partition_field_at(s, pos, key, acc) matches Err(at) ==> pos <= at <= s.len(),
{
    lemma_string_at_advances(s, pos);
    lemma_number_at_advances(s, pos);
    lemma_flags_at_advances(s, pos);
    lemma_run_end(s, pos, ByteClass::Space);
}

/// The partition that the members from `pos` to the closing brace describe,
/// together with those in `acc`. Each member is a string that names it, a
/// colon and its value. A name that is not a member's, or is that of one
/// already read, is a fault at the name; a closing brace before every member
/// was read is a fault at the brace.
pub open spec fn partition_members_from(s: Seq<u8>, pos: int, acc: PartitionFields) -> Read<
    PartitionModel,
>
    decreases s.len() - pos,
{
    if !(0 <= pos <= s.len()) {
        Err(pos)
    } else {
        match string_at(s, pos) {
            Err(at) => Err(at),
            Ok((word, after_key)) => match PartitionKey::named(word) {
                None => Err(run_end(s, pos, ByteClass::Space)),
                Some(key) => if acc.has(key) {
                    Err(run_end(s, pos, ByteClass::Space))
                } else {
                    match symbol_at(s, after_key, COLON) {
                        Err(at) => Err(at),
                        Ok(value_pos) => match partition_field_at(s, value_pos, key, acc) {
                            Err(at) => Err(at),
                            Ok((fields, after)) => match follow_at(s, after, CLOSE_BRACE) {
                                Follow::More(next) => {
                                    proof {
                                        lemma_string_at_advances(s, pos);
                                        lemma_symbol_at_advances(s, after_key, COLON);
                                        lemma_partition_field_at_advances(s, value_pos, key, acc);
                                        lemma_follow_at_advances(s, after, CLOSE_BRACE);
                                    }
                                    partition_members_from(s, next, fields)
                                },
                                Follow::Done(next) => match fields.complete() {
                                    Some(partition) => Ok((partition, next)),
                                    None => Err(next - 1),
                                },
                                Follow::Fault(at) => Err(at),
                            },
                        },
                    }
                },
            },
        }
    }
}

/// The partition object at `pos`.
pub open spec fn partition_at(s: Seq<u8>, pos: int) -> Read<PartitionModel> {
    match symbol_at(s, pos, OPEN_BRACE) {
        Err(at) => Err(at),
        Ok(inside) => partition_members_from(s, inside, PartitionFields::empty()),
    }
}

/// The members of a partition end after the position at which they were
/// looked for, and inside the text.
pub proof fn lemma_partition_members_from_advances(s: Seq<u8>, pos: int, acc: PartitionFields)
    requires
        0 <= pos <= s.len(),
    ensures
        partition_members_from(s, pos, acc) matches Ok((_, next)) ==> pos < next <= s.len(),
        partition_members_from(s, pos, acc) matches Err(at) ==> pos <= at <= s.len(),
    decreases s.len() - pos,
{
    lemma_string_at_advances(s, pos);
    lemma_run_end(s, pos, ByteClass::Space);
    if let Ok((word, after_key)) = string_at(s, pos) {
        lemma_symbol_at_advances(s, after_key, COLON);
        if let Some(key) = PartitionKey::named(word) {
            if !acc.has(key) {
                if let Ok(value_pos) = symbol_at(s, after_key, COLON) {
                    lemma_partition_field_at_advances(s, value_pos, key, acc);
                    if let Ok((fields, after)) = partition_field_at(s, value_pos, key, acc) {
                        lemma_follow_at_advances(s, after, CLOSE_BRACE);
                        if let Follow::More(next) = follow_at(s, after, CLOSE_BRACE) {
                            lemma_partition_members_from_advances(s, next, fields);
                        }
                    }
                }
            }
        }
    }
}

/// A partition object ends after the position at which it was looked for,
/// and inside the text.
pub proof fn lemma_partition_at_advances(s: Seq<u8>, pos: int)
    requires
        0 <= pos <= s.len(),
    ensures
        partition_at(s, pos) matches Ok((_, next)) ==> pos < next <= s.len(),
        partition_at(s, pos) matches Err(at) ==> pos <= at <= s.len(),
{
    lemma_symbol_at_advances(s, pos, OPEN_BRACE);
    if let Ok(inside) = symbol_at(s, pos, OPEN_BRACE) {
        lemma_partition_members_from_advances(s, inside, PartitionFields::empty());
    }
}

/// The partitions that the objects from `pos` to the closing bracket
/// describe, after those in `acc`.
pub open spec fn partition_items_from(s: Seq<u8>, pos: int, acc: Seq<PartitionModel>) -> Read<
    Seq<PartitionModel>,
>
    decreases s.len() - pos,
{
    if !(0 <= pos <= s.len()) {
        Err(pos)
    } else {
        match partition_at(s, pos) {
            Err(at) => Err(at),
            Ok((partition, after)) => match follow_at(s, after, CLOSE_BRACKET) {
                Follow::More(next) => {
                    proof {
                        lemma_partition_at_advances(s, pos);
                        lemma_follow_at_advances(s, after, CLOSE_BRACKET);
                    }
                    partition_items_from(s, next, acc.push(partition))
                },
                Follow::Done(next) => Ok((acc.push(partition), next)),
                Follow::Fault(at) => Err(at),
            },
        }
    }
}

/// The list of partitions at `pos`: an opening bracket, then the closing one
/// or partition objects separated by commas and the closing bracket.
pub open spec fn partitions_at(s: Seq<u8>, pos: int) -> Read<Seq<PartitionModel>> {
    match symbol_at(s, pos, OPEN_BRACKET) {
        Err(at) => Err(at),
        Ok(inside) => match symbol_at(s, inside, CLOSE_BRACKET) {
            Ok(next) => Ok((Seq::empty(), next)),
            Err(_) => partition_items_from(s, inside, Seq::empty()),
        },
    }
}

/// The partitions of a list end after the position at which they were
/// looked for, and inside the text.
pub proof fn lemma_partition_items_from_advances(s: Seq<u8>, pos: int, acc: Seq<PartitionModel>)
    requires
        0 <= pos <= s.len(),
    ensures
        partition_items_from(s, pos, acc) matches Ok((_, next)) ==> pos < next <= s.len(),
        partition_items_from(s, pos, acc) matches Err(at) ==> pos <= at <= s.len(),
    decreases s.len() - pos,
{
    lemma_partition_at_advances(s, pos);
    if let Ok((partition, after)) = partition_at(s, pos) {
        lemma_follow_at_advances(s, after, CLOSE_BRACKET);
        if let Follow::More(next) = follow_at(s, after, CLOSE_BRACKET) {
            lemma_partition_items_from_advances(s, next, acc.push(partition));
        }
    }
}

/// A list of partitions ends after the position at which it was looked
/// for, and inside the text.
pub proof fn lemma_partitions_at_advances(s: Seq<u8>, pos: int)
    requires
        0 <= pos <= s.len(),
    ensures
        partitions_at(s, pos) matches Ok((_, next)) ==> pos < next <= s.len(),
        partitions_at(s, pos) matches Err(at) ==> pos <= at <= s.len(),
{
    lemma_symbol_at_advances(s, pos, OPEN_BRACKET);
    if let Ok(inside) = symbol_at(s, pos, OPEN_BRACKET) {
        lemma_symbol_at_advances(s, inside, CLOSE_BRACKET);
        lemma_partition_items_from_advances(s, inside, Seq::empty());
    }
}

/// The members of the document object.
#[derive(Clone, Copy, PartialEq, Eq, Structural, Debug)]
pub enum DocumentKey {
    Version,
    Device,
    Partitions,
}

impl DocumentKey {
    /// The member that a document names by `word`.
    pub open spec fn named(word: Seq<u8>) -> Option<DocumentKey> {
        if word == "version".spec_bytes() {
            Some(DocumentKey::Version)
        } else if word == "device".spec_bytes() {
            Some(DocumentKey::Device)
        } else if word == "partitions".spec_bytes() {
            Some(DocumentKey::Partitions)
        } else {
            None
        }
    }

    /// Looks up the member that a document names by `word`.
    pub fn from_name(word: &[u8]) -> (r: Option<DocumentKey>)
        ensures
            r == DocumentKey::named(word@),
    {
        if bytes_eq(word, "version".as_bytes()) {
            Some(DocumentKey::Version)
        } else if bytes_eq(word, "device".as_bytes()) {
            Some(DocumentKey::Device)
        } else if bytes_eq(word, "partitions".as_bytes()) {
            Some(DocumentKey::Partitions)
        } else {
            None
        }
    }
}

/// The members of the document object that have been read.
pub struct DocumentFields {
    pub version: Option<u32>,
    pub device: Option<Device>,
    pub partitions: Option<Seq<PartitionModel>>,
}

impl DocumentFields {
    /// No member read yet.
    pub open spec fn empty() -> DocumentFields {
        DocumentFields { version: None, device: None, partitions: None }
    }

    /// Whether the member `key` has been read.
    pub open spec fn has(self, key: DocumentKey) -> bool {
        match key {
            DocumentKey::Version => self.version is Some,
            DocumentKey::Device => self.device is Some,
            DocumentKey::Partitions => self.partitions is Some,
        }
    }

    /// The document, where every member has been read.
    pub open spec fn complete(self) -> Option<DocumentModel> {
        if self.version is Some && self.device is Some && self.partitions is Some {
            Some(
                DocumentModel {
                    version: self.version->0,
                    device: self.device->0,
                    partitions: self.partitions->0,
                },
            )
        } else {
            None
        }
    }
}

/// The value of member `key` at `pos`, stored in `acc`: a number of at most
/// 32 bits for the version, the number of a known device for the device, a
/// list of partitions for the partitions. A number that is too large or
/// names no device is a fault at the number.
pub open spec fn document_field_at(
    s: Seq<u8>,
    pos: int,
    key: DocumentKey,
    acc: DocumentFields,
) -> Read<DocumentFields> {
    match key {
        DocumentKey::Version => match number_at(s, pos) {
            Err(at) => Err(at),
            Ok((version, next)) => if version > u32::MAX {
                Err(run_end(s, pos, ByteClass::Space))
            } else {
                Ok((DocumentFields { version: Some(version as u32), ..acc }, next))
            },
        },
        DocumentKey::Device => match number_at(s, pos) {
            Err(at) => Err(at),
            Ok((id, next)) => match Device::with_id(id) {
                None => Err(run_end(s, pos, ByteClass::Space)),
                Some(device) => Ok((DocumentFields { device: Some(device), ..acc }, next)),
            },
        },
        DocumentKey::Partitions => match partitions_at(s, pos) {
            Err(at) => Err(at),
            Ok((partitions, next)) => Ok(
                (DocumentFields { partitions: Some(partitions), ..acc }, next),
            ),
        },
    }
}

/// The value of a document's member ends after the position at which it
/// was looked for, and inside the text.
pub proof fn lemma_document_field_at_advances(
    s: Seq<u8>,
    pos: int,
    key: DocumentKey,
    acc: DocumentFields,
)
    requires
        0 <= pos <= s.len(),
    ensures
        document_field_at(s, pos, key, acc) matches Ok((_, next)) ==> pos < next <= s.len(),
        document_field_at(s, pos, key, acc) matches Err(at) ==> pos <= at <= s.len(),
{
    lemma_number_at_advances(s, pos);
    lemma_partitions_at_advances(s, pos);
    lemma_run_end(s, pos, ByteClass::Space);
}

/// The document that the members from `pos` to the closing brace describe,
/// together with those in `acc`, under the rules that hold for the members
/// of a partition.
pub open spec fn document_members_from(s: Seq<u8>, pos: int, acc: DocumentFields) -> Read<
    DocumentModel,
>
    decreases s.len() - pos,
{
    if !(0 <= pos <= s.len()) {
        Err(pos)
    } else {
        match string_at(s, pos) {
            Err(at) => Err(at),
            Ok((word, after_key)) => match DocumentKey::named(word) {
                None => Err(run_end(s, pos, ByteClass::Space)),
                Some(key) => if acc.has(key) {
                    Err(run_end(s, pos, ByteClass::Space))
                } else {
                    match symbol_at(s, after_key, COLON) {
                        Err(at) => Err(at),
                        Ok(value_pos) => match document_field_at(s, value_pos, key, acc) {
                            Err(at) => Err(at),
                            Ok((fields, after)) => match follow_at(s, after, CLOSE_BRACE) {
                                Follow::More(next) => {
                                    proof {
                                        lemma_string_at_advances(s, pos);
                                        lemma_symbol_at_advances(s, after_key, COLON);
                                        lemma_document_field_at_advances(s, value_pos, key, acc);
                                        lemma_follow_at_advances(s, after, CLOSE_BRACE);
                                    }
                                    document_members_from(s, next, fields)
                                },
                                Follow::Done(next) => match fields.complete() {
                                    Some(document) => Ok((document, next)),
                                    None => Err(next - 1),
                                },
                                Follow::Fault(at) => Err(at),
                            },
                        },
                    }
                },
            },
        }
    }
}

/// The members of the document end after the position at which they were
/// looked for, and inside the text.
pub proof fn lemma_document_members_from_advances(s: Seq<u8>, pos: int, acc: DocumentFields)
    requires
        0 <= pos <= s.len(),
    ensures
        document_members_from(s, pos, acc) matches Ok((_, next)) ==> pos < next <= s.len(),
        document_members_from(s, pos, acc) matches Err(at) ==> pos <= at <= s.len(),
    decreases s.len() - pos,
{
    lemma_string_at_advances(s, pos);
    lemma_run_end(s, pos, ByteClass::Space);
    if let Ok((word, after_key)) = string_at(s, pos) {
        lemma_symbol_at_advances(s, after_key, COLON);
        if let Some(key) = DocumentKey::named(word) {
            if !acc.has(key) {
                if let Ok(value_pos) = symbol_at(s, after_key, COLON) {
                    lemma_document_field_at_advances(s, value_pos, key, acc);
                    if let Ok((fields, after)) = document_field_at(s, value_pos, key, acc) {
                        lemma_follow_at_advances(s, after, CLOSE_BRACE);
                        if let Follow::More(next) = follow_at(s, after, CLOSE_BRACE) {
                            lemma_document_members_from_advances(s, next, fields);
                        }
                    }
                }
            }
        }
    }
}

/// What the text `s` holds: the document object, alone but for white space
/// around it, or the offset of the first byte that cannot stand where it
/// does.
pub open spec fn document_in(s: Seq<u8>) -> Result<DocumentModel, int> {
    match symbol_at(s, 0, OPEN_BRACE) {
        Err(at) => Err(at),
        Ok(inside) => match document_members_from(s, inside, DocumentFields::empty()) {
            Err(at) => Err(at),
            Ok((document, after)) => if run_end(s, after, ByteClass::Space) == s.len() {
                Ok(document)
            } else {
                Err(run_end(s, after, ByteClass::Space))
            },
        },
    }
}

/// A fault lies inside the text or at its end.
pub proof fn lemma_document_in_fault_bounds(s: Seq<u8>)
    ensures
        document_in(s) matches Err(at) ==> 0 <= at <= s.len(),
{
    lemma_symbol_at_advances(s, 0, OPEN_BRACE);
    if let Ok(inside) = symbol_at(s, 0, OPEN_BRACE) {
        lemma_document_members_from_advances(s, inside, DocumentFields::empty());
        if let Ok((document, after)) = document_members_from(s, inside, DocumentFields::empty()) {
            lemma_run_end(s, after, ByteClass::Space);
        }
    }
}

/// Reads what follows an item that ends at `pos`. `Ok` holds `true` with
/// the position after a comma, `false` with the position after `close`.
fn read_follow(s: &[u8], pos: usize, close: u8) -> (r: Result<(bool, usize), usize>)
    requires
        pos <= s.len(),
    ensures
        follow_at(s@, pos as int, close) == match r {
            Ok((true, next)) => Follow::More(next as int),
            Ok((false, next)) => Follow::Done(next as int),
            Err(at) => Follow::Fault(at as int),
        },
        match r {
            Ok((_, next)) => pos < next <= s.len(),
            Err(at) => pos <= at <= s.len(),
        },
{
    let at: usize = scan_run(s, pos, ByteClass::Space);
    if at < s.len() && s[at] == COMMA {
        Ok((true, at + 1))
    } else if at < s.len() && s[at] == close {
        Ok((false, at + 1))
    } else {
        Err(at)
    }
}

/// Reads the list of flags at `pos`.
fn read_flags(s: &[u8], pos: usize) -> (r: Result<(Flags, usize), usize>)
    requires
        pos <= s.len(),
    ensures
        match r {
            Ok((flags, next)) => flags_at(s@, pos as int) == Ok::<(Flags, int), int>(
                (flags, next as int),
            ) && pos < next <= s.len(),
            Err(at) => flags_at(s@, pos as int) == Err::<(Flags, int), int>(at as int) && pos
                <= at <= s.len(),
        },
{
    let inside: usize = match read_symbol(s, pos, OPEN_BRACKET) {
        Ok(next) => next,
        Err(at) => {
            return Err(at);
        },
    };
    match read_symbol(s, inside, CLOSE_BRACKET) {
        Ok(next) => {
            return Ok((Flags::none(), next));
        },
        Err(_) => {},
    }
    let mut flags: Flags = Flags::none();
    let mut at: usize = inside;
    loop
        invariant
            pos < inside <= at <= s.len(),
            flags_at(s@, pos as int) == flag_items_from(s@, at as int, flags),
        decreases s.len() - at,
    {
        let word_at: usize = scan_run(s, at, ByteClass::Space);
        let (word, after) = match read_string(s, at) {
            Ok(found) => found,
            Err(fault) => {
                return Err(fault);
            },
        };
        let flag: Flag = match Flag::from_name(word.as_slice()) {
            Some(flag) => flag,
            None => {
                return Err(word_at);
            },
        };
        if flags.has(flag) {
            return Err(word_at);
        }
        flags = flags.with(flag);
        match read_follow(s, after, CLOSE_BRACKET) {
            Ok((true, next)) => {
                at = next;
            },
            Ok((false, next)) => {
                return Ok((flags, next));
            },
            Err(fault) => {
                return Err(fault);
            },
        }
    }
}

/// The members of a partition object that the reader has read.
struct PartitionDraft {
    name: Option<Vec<u8>>,
    role: Option<Role>,
    address: Option<u64>,
    size: Option<u64>,
    flags: Option<Flags>,
}

impl PartitionDraft {
    spec fn view(&self) -> PartitionFields {
        PartitionFields {
            name: match self.name {
                Some(name) => Some(name@),
                None => None,
            },
            role: self.role,
            address: self.address,
            size: self.size,
            flags: self.flags,
        }
    }

    fn empty() -> (draft: PartitionDraft)
        ensures
            draft@ == PartitionFields::empty(),
    {
        PartitionDraft { name: None, role: None, address: None, size: None, flags: None }
    }

    fn has(&self, key: PartitionKey) -> (r: bool)
        ensures
            r == self@.has(key),
    {
        match key {
            PartitionKey::Name => self.name.is_some(),
            PartitionKey::Role => self.role.is_some(),
            PartitionKey::Address => self.address.is_some(),
            PartitionKey::Size => self.size.is_some(),
            PartitionKey::Flags => self.flags.is_some(),
        }
    }

    fn finish(self) -> (r: Option<Partition>)
        ensures
            match r {
                Some(partition) => self@.complete() == Some(partition@),
                None => self@.complete() is None,
            },
    {
        match (self.name, self.role, self.address, self.size, self.flags) {
            (Some(name), Some(role), Some(address), Some(size), Some(flags)) => Some(
                Partition { name, role, address, size, flags },
            ),
            _ => None,
        }
    }
}

/// Reads the value of member `key` at `pos` into `draft`.
fn read_partition_field(s: &[u8], pos: usize, key: PartitionKey, draft: PartitionDraft) -> (r:
    Result<(PartitionDraft, usize), usize>)
    requires
        pos <= s.len(),
    ensures
        match r {
            Ok((fields, next)) => partition_field_at(s@, pos as int, key, draft@) == Ok::<
                (PartitionFields, int),
                int,
            >((fields@, next as int)) && pos < next <= s.len(),
            Err(at) => partition_field_at(s@, pos as int, key, draft@) == Err::<
                (PartitionFields, int),
                int,
            >(at as int) && pos <= at <= s.len(),
        },
{
    let mut fields: PartitionDraft = draft;
    match key {
        PartitionKey::Name => match read_string(s, pos) {
            Err(at) => Err(at),
            Ok((name, next)) => {
                fields.name = Some(name);
                Ok((fields, next))
            },
        },
        PartitionKey::Role => match read_string(s, pos) {
            Err(at) => Err(at),
            Ok((word, next)) => match Role::from_name(word.as_slice()) {
                None => Err(scan_run(s, pos, ByteClass::Space)),
                Some(role) => {
                    fields.role = Some(role);
                    Ok((fields, next))
                },
            },
        },
        PartitionKey::Address => match read_number(s, pos) {
            Err(at) => Err(at),
            Ok((address, next)) => {
                fields.address = Some(address);
                Ok((fields, next))
            },
        },
        PartitionKey::Size => match read_number(s, pos) {
            Err(at) => Err(at),
            Ok((size, next)) => {
                fields.size = Some(size);
                Ok((fields, next))
            },
        },
        PartitionKey::Flags => match read_flags(s, pos) {
            Err(at) => Err(at),
            Ok((flags, next)) => {
                fields.flags = Some(flags);
                Ok((fields, next))
            },
        },
    }
}

/// Reads the partition object at `pos`.
fn read_partition(s: &[u8], pos: usize) -> (r: Result<(Partition, usize), usize>)
    requires
        pos <= s.len(),
    ensures
        match r {
            Ok((partition, next)) => partition_at(s@, pos as int) == Ok::<
                (PartitionModel, int),
                int,
            >((partition@, next as int)) && pos < next <= s.len(),
            Err(at) => partition_at(s@, pos as int) == Err::<(PartitionModel, int), int>(
                at as int,
            ) && pos <= at <= s.len(),
        },
{
    let inside: usize = match read_symbol(s, pos, OPEN_BRACE) {
        Ok(next) => next,
        Err(at) => {
            return Err(at);
        },
    };
    let mut draft: PartitionDraft = PartitionDraft::empty();
    let mut at: usize = inside;
    loop
        invariant
            pos < inside <= at <= s.len(),
            partition_at(s@, pos as int) == partition_members_from(s@, at as int, draft@),
        decreases s.len() - at,
    {
        let key_at: usize = scan_run(s, at, ByteClass::Space);
        let (word, after_key) = match read_string(s, at) {
            Ok(found) => found,
            Err(fault) => {
                return Err(fault);
            },
        };
        let key: PartitionKey = match PartitionKey::from_name(word.as_slice()) {
            Some(key) => key,
            None => {
                return Err(key_at);
            },
        };
        if draft.has(key) {
            return Err(key_at);
        }
        let value_pos: usize = match read_symbol(s, after_key, COLON) {
            Ok(next) => next,
            Err(fault) => {
                return Err(fault);
            },
        };
        let (fields, after) = match read_partition_field(s, value_pos, key, draft) {
            Ok(found) => found,
            Err(fault) => {
                return Err(fault);
            },
        };
        match read_follow(s, after, CLOSE_BRACE) {
            Ok((true, next)) => {
                draft = fields;
                at = next;
            },
            Ok((false, next)) => {
                return match fields.finish() {
                    Some(partition) => Ok((partition, next)),
                    None => Err(next - 1),
                };
            },
            Err(fault) => {
                return Err(fault);
            },
        }
    }
}

/// Reads the list of partitions at `pos`.
fn read_partitions(s: &[u8], pos: usize) -> (r: Result<(Vec<Partition>, usize), usize>)
    requires
        pos <= s.len(),
    ensures
        match r {
            Ok((partitions, next)) => partitions_at(s@, pos as int) == Ok::<
                (Seq<PartitionModel>, int),
                int,
            >((partition_models(partitions@), next as int)) && pos < next <= s.len(),
            Err(at) => partitions_at(s@, pos as int) == Err::<(Seq<PartitionModel>, int), int>(
                at as int,
            ) && pos <= at <= s.len(),
        },
{
    let inside: usize = match read_symbol(s, pos, OPEN_BRACKET) {
        Ok(next) => next,
        Err(at) => {
            return Err(at);
        },
    };
    let mut partitions: Vec<Partition> = Vec::new();
    assert(partition_models(partitions@) =~= Seq::empty());
    match read_symbol(s, inside, CLOSE_BRACKET) {
        Ok(next) => {
            return Ok((partitions, next));
        },
        Err(_) => {},
    }
    let mut at: usize = inside;
    loop
        invariant
            pos < inside <= at <= s.len(),
            partitions_at(s@, pos as int) == partition_items_from(
                s@,
                at as int,
                partition_models(partitions@),
            ),
        decreases s.len() - at,
    {
        let (partition, after) = match read_partition(s, at) {
            Ok(found) => found,
            Err(fault) => {
                return Err(fault);
            },
        };
        let ghost before = partition_models(partitions@);
        let ghost model = partition@;
        partitions.push(partition);
        assert(partition_models(partitions@) =~= before.push(model));
        match read_follow(s, after, CLOSE_BRACKET) {
            Ok((true, next)) => {
                at = next;
            },
            Ok((false, next)) => {
                return Ok((partitions, next));
            },
            Err(fault) => {
                return Err(fault);
            },
        }
    }
}

/// The members of the document object that the reader has read.
struct DocumentDraft {
    version: Option<u32>,
    device: Option<Device>,
    partitions: Option<Vec<Partition>>,
}

impl DocumentDraft {
    spec fn view(&self) -> DocumentFields {
        DocumentFields {
            version: self.version,
            device: self.device,
            partitions: match self.partitions {
                Some(partitions) => Some(partition_models(partitions@)),
                None => None,
            },
        }
    }

    fn empty() -> (draft: DocumentDraft)
        ensures
            draft@ == DocumentFields::empty(),
    {
        DocumentDraft { version: None, device: None, partitions: None }
    }

    fn has(&self, key: DocumentKey) -> (r: bool)
        ensures
            r == self@.has(key),
    {
        match key {
            DocumentKey::Version => self.version.is_some(),
            DocumentKey::Device => self.device.is_some(),
            DocumentKey::Partitions => self.partitions.is_some(),
        }
    }

    fn finish(self) -> (r: Option<Document>)
        ensures
            match r {
                Some(document) => self@.complete() == Some(document@),
                None => self@.complete() is None,
            },
    {
        match (self.version, self.device, self.partitions) {
            (Some(version), Some(device), Some(partitions)) => Some(
                Document { version, device, partitions },
            ),
            _ => None,
        }
    }
}

/// Reads the value of member `key` at `pos` into `draft`.
fn read_document_field(s: &[u8], pos: usize, key: DocumentKey, draft: DocumentDraft) -> (r:
    Result<(DocumentDraft, usize), usize>)
    requires
        pos <= s.len(),
    ensures
        match r {
            Ok((fields, next)) => document_field_at(s@, pos as int, key, draft@) == Ok::<
                (DocumentFields, int),
                int,
            >((fields@, next as int)) && pos < next <= s.len(),
            Err(at) => document_field_at(s@, pos as int, key, draft@) == Err::<
                (DocumentFields, int),
                int,
            >(at as int) && pos <= at <= s.len(),
        },
{
    let mut fields: DocumentDraft = draft;
    match key {
        DocumentKey::Version => match read_number(s, pos) {
            Err(at) => Err(at),
            Ok((version, next)) => if version > 0xffff_ffff {
                Err(scan_run(s, pos, ByteClass::Space))
            } else {
                fields.version = Some(version as u32);
                Ok((fields, next))
            },
        },
        DocumentKey::Device => match read_number(s, pos) {
            Err(at) => Err(at),
            Ok((id, next)) => match Device::with_id(id) {
                None => Err(scan_run(s, pos, ByteClass::Space)),
                Some(device) => {
                    fields.device = Some(device);
                    Ok((fields, next))
                },
            },
        },
        DocumentKey::Partitions => match read_partitions(s, pos) {
            Err(at) => Err(at),
            Ok((partitions, next)) => {
                fields.partitions = Some(partitions);
                Ok((fields, next))
            },
        },
    }
}

/// Decodes the text `s`: the document that it holds, or the offset of the
/// first byte that cannot stand where it does.
pub fn read_document(s: &[u8]) -> (r: Result<Document, usize>)
    ensures
        match r {
            Ok(document) => document_in(s@) == Ok::<DocumentModel, int>(document@),
            Err(at) => document_in(s@) == Err::<DocumentModel, int>(at as int) && at <= s.len(),
        },
{
    let inside: usize = match read_symbol(s, 0, OPEN_BRACE) {
        Ok(next) => next,
        Err(at) => {
            return Err(at);
        },
    };
    let mut draft: DocumentDraft = DocumentDraft::empty();
    let mut at: usize = inside;
    loop
        invariant
            inside <= at <= s.len(),
            symbol_at(s@, 0, OPEN_BRACE) == Ok::<int, int>(inside as int),
            document_members_from(s@, inside as int, DocumentFields::empty())
                == document_members_from(s@, at as int, draft@),
        decreases s.len() - at,
    {
        let key_at: usize = scan_run(s, at, ByteClass::Space);
        let (word, after_key) = match read_string(s, at) {
            Ok(found) => found,
            Err(fault) => {
                return Err(fault);
            },
        };
        let key: DocumentKey = match DocumentKey::from_name(word.as_slice()) {
            Some(key) => key,
            None => {
                return Err(key_at);
            },
        };
        if draft.has(key) {
            return Err(key_at);
        }
        let value_pos: usize = match read_symbol(s, after_key, COLON) {
            Ok(next) => next,
            Err(fault) => {
                return Err(fault);
            },
        };
        let (fields, after) = match read_document_field(s, value_pos, key, draft) {
            Ok(found) => found,
            Err(fault) => {
                return Err(fault);
            },
        };
        match read_follow(s, after, CLOSE_BRACE) {
            Ok((true, next)) => {
                draft = fields;
                at = next;
            },
            Ok((false, next)) => {
                let document: Document = match fields.finish() {
                    Some(document) => document,
                    None => {
                        return Err(next - 1);
                    },
                };
                let end: usize = scan_run(s, next, ByteClass::Space);
                if end == s.len() {
                    return Ok(document);
                } else {
                    return Err(end);
                }
            },
            Err(fault) => {
                return Err(fault);
            },
        }
    }
}

} // verus!
