//! The partition table: its textual form, its model and its rules.
//!
//! [`parse`] turns text into a [`PartitionTable`], or says why it cannot:
//! the text is malformed at some offset (see the document module for the
//! format), or what it describes breaks a rule (see the rules module).

pub mod document;
pub mod model;
pub mod rules;
pub mod text;

use vstd::prelude::*;
use vstd::string::StringSliceAdditionalSpecFns;
use crate::ptab::document::{document_in, read_document};
use crate::ptab::model::DocumentModel;
use crate::ptab::rules::{
    lemma_overlap_is_invalid,
    lemma_reported_holds,
    lemma_unaligned_address_is_invalid,
    overlap,
    reported,
    valid_document,
    validate,
    PartitionTable,
    Violation,
    WORD_LEN,
};

verus! {

/// Why a text is no partition table.
#[derive(Clone, Copy, PartialEq, Eq, Structural, Debug)]
pub enum ParseError {
    /// The text is not a partition document. `offset` is that of the first
    /// byte that cannot stand where it does; it is the text's length where
    /// the text ends too early.
    MalformedInput { offset: usize },
    /// The text is a partition document, and what it describes breaks a
    /// rule.
    InvalidPartition(Violation),
}

/// What [`parse`] makes of a text: the model of the table, or the error.
pub open spec fn parsed(s: Seq<u8>, r: Result<DocumentModel, ParseError>) -> bool {
    match r {
        Ok(table) => document_in(s) == Ok::<DocumentModel, int>(table) && valid_document(table),
        Err(ParseError::MalformedInput { offset }) => document_in(s) == Err::<DocumentModel, int>(
            offset as int,
        ),
        Err(ParseError::InvalidPartition(violation)) => {
            &&& document_in(s) matches Ok(document)
            &&& reported(document, violation)
        },
    }
}

/// Reads a partition table from the text of a partition document.
///
/// The result is a table exactly when the text is a well-formed document
/// that obeys every rule; the table then holds what the document says. A
/// text that is no document is `MalformedInput`, with the offset of the
/// fault. A document that breaks a rule is `InvalidPartition`, with the
/// first violation that validation meets.
pub fn parse(text: &str) -> (r: Result<PartitionTable, ParseError>)
    ensures
        parsed(
            text.spec_bytes(),
            match r {
                Ok(table) => Ok(table@),
                Err(error) => Err(error),
            },
        ),
        r is Ok <==> (document_in(text.spec_bytes()) matches Ok(document) && valid_document(
            document,
        )),
        r matches Err(ParseError::MalformedInput { .. }) <==> document_in(text.spec_bytes()) is Err,
{
    let document = match read_document(text.as_bytes()) {
        Ok(document) => document,
        Err(offset) => {
            return Err(ParseError::MalformedInput { offset });
        },
    };
    let ghost model = document@;
    match validate(document) {
        Ok(table) => Ok(table),
        Err(violation) => {
            proof {
                lemma_reported_holds(model, violation);
            }
            Err(ParseError::InvalidPartition(violation))
        },
    }
}

/// A text that is a document in which two partitions overlap is refused
/// as `InvalidPartition`, whichever of the two the text lists first.
pub proof fn lemma_overlap_is_refused(
    s: Seq<u8>,
    r: Result<DocumentModel, ParseError>,
    i: int,
    j: int,
)
    requires
        parsed(s, r),
        document_in(s) matches Ok(d) && 0 <= i < d.partitions.len() && 0 <= j < d.partitions.len()
            && i != j && overlap(d.partitions[i], d.partitions[j]),
    ensures
        r matches Err(ParseError::InvalidPartition(_)),
{
    lemma_overlap_is_invalid(document_in(s)->Ok_0, i, j);
}

/// A text that is a document with a partition whose first address is no
/// multiple of the word length is refused as `InvalidPartition`.
pub proof fn lemma_unaligned_address_is_refused(
    s: Seq<u8>,
    r: Result<DocumentModel, ParseError>,
    i: int,
)
    requires
        parsed(s, r),
        document_in(s) matches Ok(d) && 0 <= i < d.partitions.len() && d.partitions[i].address
            as int % (WORD_LEN as int) != 0,
    ensures
        r matches Err(ParseError::InvalidPartition(_)),
{
    lemma_unaligned_address_is_invalid(document_in(s)->Ok_0, i);
}

} // verus!
