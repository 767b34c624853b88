//! Comparing a flash table with a reference image.
//!
//! A table made by this crate matches the one that the vendor's tools make
//! for the same layout in every word but two: the code lengths of the
//! high-performance core's image and of the bootloader, where the vendor's
//! tools count start-up code that this crate does not know of.

use vstd::prelude::*;
use crate::ftab::layout::{BOOTLOADER_CODE_LENGTH_OFFSET, HCPU_CODE_LENGTH_OFFSET};

verus! {

/// Whether a difference in the word at byte offset `offset` is tolerated.
pub open spec fn spec_tolerated(offset: int) -> bool {
    offset == HCPU_CODE_LENGTH_OFFSET || offset == BOOTLOADER_CODE_LENGTH_OFFSET
}

/// Whether a difference in the word at byte offset `offset` is tolerated.
pub fn tolerated(offset: usize) -> (r: bool)
    ensures
        r == spec_tolerated(offset as int),
{
    offset == HCPU_CODE_LENGTH_OFFSET || offset == BOOTLOADER_CODE_LENGTH_OFFSET
}

/// Whether both images have a whole word at byte offset `offset`, a
/// multiple of four, and differ in it.
pub open spec fn word_differs(a: Seq<u8>, b: Seq<u8>, offset: int) -> bool {
    &&& 0 <= offset
    &&& offset % 4 == 0
    &&& offset + 4 <= a.len()
    &&& offset + 4 <= b.len()
    &&& a.subrange(offset, offset + 4) != b.subrange(offset, offset + 4)
}

/// The byte offsets of the words in which the two images differ, in
/// ascending order. Only whole words that both images have are compared.
pub fn differing_words(a: &[u8], b: &[u8]) -> (offsets: Vec<usize>)
    ensures
        forall|o: usize| offsets@.contains(o) <==> word_differs(a@, b@, o as int),
        forall|j: int, k: int| 0 <= j < k < offsets.len() ==> offsets[j] < offsets[k],
{
    let len: usize = if a.len() < b.len() {
        a.len()
    } else {
        b.len()
    };
    let mut offsets: Vec<usize> = Vec::new();
    let mut at: usize = 0;
    while len - at >= 4
        invariant
            at <= len,
            at % 4 == 0,
            len <= a.len(),
            len <= b.len(),
            len == a.len() || len == b.len(),
            forall|o: usize| offsets@.contains(o) <==> o < at && word_differs(a@, b@, o as int),
            forall|j: int, k: int| 0 <= j < k < offsets.len() ==> offsets[j] < offsets[k],
        decreases len - at,
    {
        let differs: bool = a[at] != b[at] || a[at + 1] != b[at + 1] || a[at + 2] != b[at + 2]
            || a[at + 3] != b[at + 3];
        proof {
            let wa = a@.subrange(at as int, at + 4);
            let wb = b@.subrange(at as int, at + 4);
            if differs {
                assert(wa[0] == a@[at as int] && wa[1] == a@[at + 1] && wa[2] == a@[at + 2]
                    && wa[3] == a@[at + 3]);
                assert(wb[0] == b@[at as int] && wb[1] == b@[at + 1] && wb[2] == b@[at + 2]
                    && wb[3] == b@[at + 3]);
                assert(wa != wb);
            } else {
                assert(wa =~= wb);
            }
        }
        if differs {
            let ghost before = offsets@;
            offsets.push(at);
            proof {
                assert forall|o: usize| offsets@.contains(o) <==> o < at + 4 && word_differs(
                    a@,
                    b@,
                    o as int,
                ) by {
                    if offsets@.contains(o) {
                        let k = choose|k: int| 0 <= k < offsets@.len() && offsets@[k] == o;
                        if k < before.len() {
                            assert(before[k] == o);
                            assert(before.contains(o));
                        }
                    }
                    if o < at + 4 && word_differs(a@, b@, o as int) {
                        if o < at {
                            assert(before.contains(o));
                            let k = choose|k: int| 0 <= k < before.len() && before[k] == o;
                            assert(offsets@[k] == o);
                        } else {
                            assert(o == at);
                            assert(offsets@[offsets@.len() - 1] == o);
                        }
                    }
                }
                assert forall|j: int, k: int| 0 <= j < k < offsets.len() implies offsets[j]
                    < offsets[k] by {
                    if k == offsets.len() - 1 {
                        assert(before.contains(before[j]));
                    }
                }
            }
        } else {
            proof {
                assert forall|o: usize| offsets@.contains(o) <==> o < at + 4 && word_differs(
                    a@,
                    b@,
                    o as int,
                ) by {
                    if o < at + 4 && word_differs(a@, b@, o as int) && o >= at {
                        assert(o == at);
                    }
                }
            }
        }
        at += 4;
    }
    proof {
        assert forall|o: usize| word_differs(a@, b@, o as int) implies o < at by {
            if o >= at {
                assert(o + 4 <= len);
            }
        }
    }
    offsets
}

/// Whether `reference` holds `table`, but for tolerated words: it is at
/// least as long, and wherever a byte of `table` differs from the byte of
/// `reference` at the same offset, the word that the byte belongs to is
/// tolerated. What `reference` holds after the table's length is not the
/// table's and is not compared.
pub open spec fn spec_conforms(table: Seq<u8>, reference: Seq<u8>) -> bool {
    &&& table.len() <= reference.len()
    &&& forall|i: int|
        0 <= i < table.len() && table[i] != reference[i] ==> spec_tolerated(i - i % 4)
}

/// Whether `reference` holds `table`, but for tolerated words.
pub fn conforms(table: &[u8], reference: &[u8]) -> (r: bool)
    ensures
        r == spec_conforms(table@, reference@),
{
    if table.len() > reference.len() {
        return false;
    }
    let mut i: usize = 0;
    while i < table.len()
        invariant
            i <= table.len() <= reference.len(),
            forall|k: int|
                0 <= k < i && table@[k] != reference@[k] ==> spec_tolerated(k - k % 4),
        decreases table.len() - i,
    {
        if table[i] != reference[i] && !tolerated(i - i % 4) {
            return false;
        }
        i += 1;
    }
    true
}

} // verus!
