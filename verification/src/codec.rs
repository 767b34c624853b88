//! The whole conversion: the text of a partition document in, the bytes of
//! its flash table out.

use vstd::prelude::*;
use vstd::string::StringSliceAdditionalSpecFns;
use crate::ftab::layout::{encode, le_word, slot_of, DEVICE_OFFSET, FTAB_LEN, VERSION_OFFSET};
use crate::ftab::{
    holds_role,
    lemma_length_is_fixed,
    lemma_metadata_round_trip,
    populated,
    slotted,
    FlashTable,
    UnknownRole,
};
use crate::ptab::document::document_in;
use crate::ptab::model::DocumentModel;
use crate::ptab::rules::{
    lemma_reported_holds,
    lemma_reported_is_one,
    reported,
    valid_document,
    Violation,
};
use crate::ptab::{parse, parsed, ParseError};

verus! {

/// Why a text gives no flash table. Every error is final: nothing is
/// produced, and the same text gives the same error again.
#[derive(Clone, Copy, PartialEq, Eq, Structural, Debug)]
pub enum Error {
    /// The text is not a partition document. `offset` is that of the first
    /// byte that cannot stand where it does.
    MalformedInput { offset: usize },
    /// The document breaks a rule of partition tables.
    InvalidPartition(Violation),
    /// The document is a valid partition table, and one of its partitions
    /// has a role for which the flash table has no slot.
    UnknownRole(UnknownRole),
}

/// What [`convert`] makes of the text `s`: the bytes of the flash table, or
/// the error.
pub open spec fn converted(s: Seq<u8>, r: Result<Seq<u8>, Error>) -> bool {
    match r {
        Ok(bytes) => {
            &&& document_in(s) matches Ok(d)
            &&& valid_document(d)
            &&& slotted(d, d.partitions.len() as int)
            &&& bytes == encode(populated(d))
        },
        Err(Error::MalformedInput { offset }) => document_in(s) == Err::<DocumentModel, int>(
            offset as int,
        ),
        Err(Error::InvalidPartition(violation)) => {
            &&& document_in(s) matches Ok(d)
            &&& reported(d, violation)
        },
        Err(Error::UnknownRole(unknown)) => {
            &&& document_in(s) matches Ok(d)
            &&& valid_document(d)
            &&& holds_role(d, unknown.index as int, unknown.role)
            &&& slot_of(unknown.role) is None
            &&& slotted(d, unknown.index as int)
        },
    }
}

/// Converts the text of a partition document to the bytes of its flash
/// table.
///
/// There are bytes exactly when the text is a well-formed document that
/// obeys every rule and has no partition without a slot. They are then
/// `FTAB_LEN` in number.
pub fn convert(text: &str) -> (r: Result<Vec<u8>, Error>)
    ensures
        converted(
            text.spec_bytes(),
            match r {
                Ok(bytes) => Ok(bytes@),
                Err(error) => Err(error),
            },
        ),
        r matches Ok(bytes) ==> bytes@.len() == FTAB_LEN,
{
    let table = match parse(text) {
        Ok(table) => table,
        Err(ParseError::MalformedInput { offset }) => {
            return Err(Error::MalformedInput { offset });
        },
        Err(ParseError::InvalidPartition(violation)) => {
            return Err(Error::InvalidPartition(violation));
        },
    };
    match FlashTable::new().apply(&table) {
        Ok(flash) => Ok(flash.to_bytes()),
        Err(unknown) => Err(Error::UnknownRole(unknown)),
    }
}

/// The conversion is a function of the text: whatever it makes of a text,
/// bytes or error, it makes of the same text every time.
pub proof fn lemma_conversion_is_a_function(
    s: Seq<u8>,
    r1: Result<Seq<u8>, Error>,
    r2: Result<Seq<u8>, Error>,
)
    requires
        converted(s, r1),
        converted(s, r2),
    ensures
        r1 == r2,
{
    if let Ok(d) = document_in(s) {
        if let Err(Error::InvalidPartition(v)) = r1 {
            lemma_reported_holds(d, v);
            if let Err(Error::InvalidPartition(w)) = r2 {
                lemma_reported_is_one(d, v, w);
            }
        }
        if let Err(Error::InvalidPartition(w)) = r2 {
            lemma_reported_holds(d, w);
        }
        if let Err(Error::UnknownRole(u1)) = r1 {
            assert(slot_of(d.partitions[u1.index as int].role) is None);
            if let Err(Error::UnknownRole(u2)) = r2 {
                assert(slot_of(d.partitions[u2.index as int].role) is None);
                assert(u1.index == u2.index);
            }
        }
        if let Err(Error::UnknownRole(u2)) = r2 {
            assert(slot_of(d.partitions[u2.index as int].role) is None);
        }
    }
}

/// The bytes that a text gives are `FTAB_LEN` in number whatever the text
/// describes, and hold the version and the device that the text names,
/// unchanged, at their offsets.
pub proof fn lemma_converted_bytes_hold_metadata(s: Seq<u8>, bytes: Seq<u8>)
    requires
        converted(s, Ok(bytes)),
    ensures
        bytes.len() == FTAB_LEN,
        document_in(s) matches Ok(d) && le_word(
            bytes.subrange(VERSION_OFFSET as int, VERSION_OFFSET + 4),
        ) == d.version && le_word(bytes.subrange(DEVICE_OFFSET as int, DEVICE_OFFSET + 4))
            == d.device.id(),
{
    let d = document_in(s)->Ok_0;
    lemma_length_is_fixed(populated(d));
    lemma_metadata_round_trip(d);
}

} // verus!
