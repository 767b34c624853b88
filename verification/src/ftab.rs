//! The flash table: the builder, the populated table and its bytes.
//!
//! A [`FlashTable`] is an empty table. [`FlashTable::apply`] uses it up and
//! gives a [`PopulatedTable`], which describes the partitions of one
//! partition table and no others. `to_bytes` lays either table out as the
//! boot ROM reads it. Because applying uses the empty table up, no table
//! ever describes the partitions of two partition tables.

pub mod compare;
pub mod layout;

use vstd::prelude::*;
use crate::ftab::layout::{
    code_length,
    encode,
    entry_of,
    image_of,
    le_bytes,
    le_word,
    lemma_le_round_trip,
    lemma_role_maps_agree,
    role_of_image,
    role_of_slot,
    role_tag,
    slot_of,
    word_at,
    Slot,
    TableModel,
    DEVICE_OFFSET,
    FTAB_LEN,
    IMAGES_OFFSET,
    IMAGE_COUNT,
    IMAGE_LEN,
    LENGTH_OFFSET,
    MAGIC,
    MAGIC_OFFSET,
    SLOTS_OFFSET,
    SLOT_COUNT,
    SLOT_LEN,
    VERSION_OFFSET,
};
use crate::ptab::model::{Document, DocumentModel, Partition, PartitionModel, Role};
use crate::ptab::rules::{clash, valid_document, PartitionTable};

verus! {

/// The partition at `index` has `role`, for which the layout has no slot.
/// The partition table and the layout disagree about the roles there are.
#[derive(Clone, Copy, PartialEq, Eq, Structural, Debug)]
pub struct UnknownRole {
    /// The position of the partition in the partition table.
    pub index: usize,
    /// The role of the partition.
    pub role: Role,
}

/// Whether partition `i` of `d` has `role`.
pub open spec fn holds_role(d: DocumentModel, i: int, role: Role) -> bool {
    0 <= i < d.partitions.len() && d.partitions[i].role == role
}

/// The position in `d` of a partition of `role`, where there is one.
pub open spec fn position_of(d: DocumentModel, role: Role) -> Option<int> {
    if exists|i: int| holds_role(d, i, role) {
        Some(choose|i: int| holds_role(d, i, role))
    } else {
        None
    }
}

/// What slot `k` holds once `d` is applied: the entry of the partition
/// whose role the slot is for, and the empty slot where `d` has no such
/// partition or the slot is for no role.
pub open spec fn slot_for(d: DocumentModel, k: int) -> Slot {
    match role_of_slot(k) {
        Some(role) => match position_of(d, role) {
            Some(i) => entry_of(d.partitions[i]),
            None => Slot::empty(),
        },
        None => Slot::empty(),
    }
}

/// What image descriptor `j` holds once `d` is applied: the code length of
/// the partition whose role the descriptor is for, and zero where `d` has
/// no such partition.
pub open spec fn code_length_for(d: DocumentModel, j: int) -> u32 {
    match role_of_image(j) {
        Some(role) => match position_of(d, role) {
            Some(i) => code_length(d.partitions[i].size as u32),
            None => 0,
        },
        None => 0,
    }
}

/// The flash table that describes the partitions of `d`.
pub open spec fn populated(d: DocumentModel) -> TableModel {
    TableModel {
        version: d.version,
        device: d.device.id(),
        slots: Seq::new(SLOT_COUNT as nat, |k: int| slot_for(d, k)),
        code_lengths: Seq::new(IMAGE_COUNT as nat, |j: int| code_length_for(d, j)),
    }
}

/// Whether the layout has a slot for the role of each of the first `n`
/// partitions of `d`.
pub open spec fn slotted(d: DocumentModel, n: int) -> bool {
    forall|i: int| 0 <= i < n ==> slot_of((#[trigger] d.partitions[i]).role) is Some
}

/// Whether none of the first `n` partitions of `d` belongs in slot `k`.
spec fn slot_unclaimed(d: DocumentModel, n: int, k: int) -> bool {
    forall|i: int| 0 <= i < n ==> slot_of((#[trigger] d.partitions[i]).role) != Some(k as usize)
}

/// Whether none of the first `n` partitions of `d` belongs to image `j`.
spec fn image_unclaimed(d: DocumentModel, n: int, j: int) -> bool {
    forall|i: int| 0 <= i < n ==> image_of((#[trigger] d.partitions[i]).role) != Some(j as usize)
}

/// Whether `slots` and `lengths` describe the first `n` partitions of `d`
/// and nothing else.
spec fn filled(d: DocumentModel, n: int, slots: Seq<Slot>, lengths: Seq<u32>) -> bool {
    &&& slots.len() == SLOT_COUNT
    &&& lengths.len() == IMAGE_COUNT
    &&& slotted(d, n)
    &&& forall|i: int|
        0 <= i < n ==> slots[slot_of(d.partitions[i].role)->0 as int] == entry_of(
            #[trigger] d.partitions[i],
        )
    &&& forall|i: int|
        0 <= i < n && image_of(d.partitions[i].role) is Some ==> lengths[image_of(
            d.partitions[i].role,
        )->0 as int] == code_length((#[trigger] d.partitions[i]).size as u32)
    &&& forall|k: int|
        0 <= k < SLOT_COUNT && slot_unclaimed(d, n, k) ==> #[trigger] slots[k] == Slot::empty()
    &&& forall|j: int| 0 <= j < IMAGE_COUNT && image_unclaimed(d, n, j) ==> #[trigger] lengths[j] == 0
}

/// Writing the entry of partition `i` to its slot, and its code length to
/// its image descriptor, describes one partition more. The slot and the
/// descriptor were empty: the document is valid, so none of the partitions
/// before has the same role.
proof fn lemma_filled_step(
    d: DocumentModel,
    i: int,
    slots: Seq<Slot>,
    lengths: Seq<u32>,
    slots_after: Seq<Slot>,
    lengths_after: Seq<u32>,
)
    requires
        valid_document(d),
        0 <= i < d.partitions.len(),
        filled(d, i, slots, lengths),
        slot_of(d.partitions[i].role) is Some,
        slots_after == slots.update(
            slot_of(d.partitions[i].role)->0 as int,
            entry_of(d.partitions[i]),
        ),
        lengths_after == match image_of(d.partitions[i].role) {
            Some(j) => lengths.update(j as int, code_length(d.partitions[i].size as u32)),
            None => lengths,
        },
    ensures
        filled(d, i + 1, slots_after, lengths_after),
{
    let role = d.partitions[i].role;
    let k = slot_of(role)->0 as int;
    lemma_role_maps_agree(role, k);
    assert forall|x: int| 0 <= x < i implies slot_of((#[trigger] d.partitions[x]).role) != Some(
        k as usize,
    ) && (image_of(role) is Some ==> image_of(d.partitions[x].role) != image_of(role)) by {
        lemma_role_maps_agree(d.partitions[x].role, k);
        assert(!clash(d.partitions[x], d.partitions[i]));
    }
    assert forall|k2: int|
        0 <= k2 < SLOT_COUNT && slot_unclaimed(d, i + 1, k2) implies #[trigger] slots_after[k2]
        == Slot::empty() by {
        assert(slot_of(d.partitions[i].role) != Some(k2 as usize));
        assert(slot_unclaimed(d, i, k2));
    }
    assert forall|j2: int|
        0 <= j2 < IMAGE_COUNT && image_unclaimed(d, i + 1, j2) implies #[trigger] lengths_after[j2]
        == 0 by {
        assert(image_of(d.partitions[i].role) != Some(j2 as usize));
        assert(image_unclaimed(d, i, j2));
    }
}

/// Slots and code lengths that describe every partition of `d` and nothing
/// else are those of the flash table of `d`.
proof fn lemma_filled_is_populated(d: DocumentModel, slots: Seq<Slot>, lengths: Seq<u32>)
    requires
        filled(d, d.partitions.len() as int, slots, lengths),
    ensures
        slots == populated(d).slots,
        lengths == populated(d).code_lengths,
{
    let n = d.partitions.len() as int;
    assert forall|k: int| 0 <= k < SLOT_COUNT implies slots[k] == slot_for(d, k) by {
        assert forall|x: int| 0 <= x < n && slot_of(d.partitions[x].role) == Some(
            k as usize,
        ) implies role_of_slot(k) == Some(d.partitions[x].role) && holds_role(
            d,
            x,
            d.partitions[x].role,
        ) by {
            lemma_role_maps_agree(d.partitions[x].role, k);
        }
        match role_of_slot(k) {
            Some(role) => {
                lemma_role_maps_agree(role, k);
                match position_of(d, role) {
                    Some(c) => {
                        assert(holds_role(d, c, role));
                    },
                    None => {
                        assert(slot_unclaimed(d, n, k));
                    },
                }
            },
            None => {
                assert(slot_unclaimed(d, n, k));
            },
        }
    }
    assert forall|j: int| 0 <= j < IMAGE_COUNT implies lengths[j] == code_length_for(d, j) by {
        assert forall|x: int| 0 <= x < n && image_of(d.partitions[x].role) == Some(
            j as usize,
        ) implies role_of_image(j) == Some(d.partitions[x].role) && holds_role(
            d,
            x,
            d.partitions[x].role,
        ) by {
            lemma_role_maps_agree(d.partitions[x].role, j);
        }
        match role_of_image(j) {
            Some(role) => {
                lemma_role_maps_agree(role, j);
                match position_of(d, role) {
                    Some(c) => {
                        assert(holds_role(d, c, role));
                    },
                    None => {
                        assert(image_unclaimed(d, n, j));
                    },
                }
            },
            None => {
                assert(image_unclaimed(d, n, j));
            },
        }
    }
    assert(slots =~= populated(d).slots);
    assert(lengths =~= populated(d).code_lengths);
}

/// The fields of a flash table, in the order of the layout.
#[derive(Debug)]
struct Fields {
    version: u32,
    device: u32,
    slots: [Slot; SLOT_COUNT],
    code_lengths: [u32; IMAGE_COUNT],
}

impl Fields {
    spec fn view(&self) -> TableModel {
        TableModel {
            version: self.version,
            device: self.device,
            slots: self.slots@,
            code_lengths: self.code_lengths@,
        }
    }

    /// The word at byte offset `offset`.
    fn word(&self, offset: usize) -> (w: u32)
        requires
            offset < FTAB_LEN,
            offset % 4 == 0,
        ensures
            w == word_at(self@, offset as int),
    {
        if offset == MAGIC_OFFSET {
            MAGIC
        } else if offset == VERSION_OFFSET {
            self.version
        } else if offset == DEVICE_OFFSET {
            self.device
        } else if offset == LENGTH_OFFSET {
            FTAB_LEN as u32
        } else if offset < SLOTS_OFFSET + SLOT_COUNT * SLOT_LEN {
            let slot: Slot = self.slots[(offset - SLOTS_OFFSET) / SLOT_LEN];
            let within: usize = (offset - SLOTS_OFFSET) % SLOT_LEN;
            if within == 0 {
                slot.address
            } else if within == 4 {
                slot.length
            } else if within == 8 {
                slot.tag
            } else {
                0
            }
        } else if offset >= IMAGES_OFFSET && (offset - IMAGES_OFFSET) % IMAGE_LEN == 0 {
            self.code_lengths[(offset - IMAGES_OFFSET) / IMAGE_LEN]
        } else {
            0
        }
    }

    /// The fields as bytes: each word in its place, least significant byte
    /// first.
    fn to_bytes(&self) -> (bytes: Vec<u8>)
        ensures
            bytes@ == encode(self@),
            bytes@.len() == FTAB_LEN,
    {
        let mut bytes: Vec<u8> = Vec::new();
        let mut offset: usize = 0;
        while offset < FTAB_LEN
            invariant
                offset <= FTAB_LEN,
                offset % 4 == 0,
                bytes@.len() == offset,
                forall|i: int| 0 <= i < offset ==> bytes@[i] == #[trigger] encode(self@)[i],
            decreases FTAB_LEN - offset,
        {
            let w: u32 = self.word(offset);
            bytes.push((w % 256) as u8);
            bytes.push((w / 256 % 256) as u8);
            bytes.push((w / 65536 % 256) as u8);
            bytes.push((w / 16777216) as u8);
            proof {
                assert forall|i: int| offset <= i < offset + 4 implies bytes@[i]
                    == #[trigger] encode(self@)[i] by {
                    assert(i - i % 4 == offset);
                    assert(le_bytes(w)[i % 4] == bytes@[i]);
                }
            }
            offset += 4;
        }
        assert(bytes@ =~= encode(self@));
        bytes
    }
}

/// An empty flash table: the state before a partition table is applied.
#[derive(Debug)]
pub struct FlashTable {
    fields: Fields,
}

/// A flash table that describes the partitions of one partition table.
#[derive(Debug)]
pub struct PopulatedTable {
    fields: Fields,
}

/// The slot that describes `p`.
fn entry(p: &Partition) -> (slot: Slot)
    requires
        p.address <= u32::MAX,
        p.size <= u32::MAX,
    ensures
        slot == entry_of(p@),
{
    Slot {
        address: p.address as u32,
        length: p.size as u32,
        tag: role_tag(p.role) + 256 * p.flags.bits(),
    }
}

impl FlashTable {
    #[verifier::type_invariant]
    spec fn is_empty(self) -> bool {
        self.fields@ == TableModel::empty()
    }

    /// What the table holds. It is always the empty table.
    pub closed spec fn view(&self) -> TableModel {
        self.fields@
    }

    /// Makes an empty table: version and device zero, every slot empty,
    /// every code length zero.
    pub fn new() -> (table: FlashTable)
        ensures
            table@ == TableModel::empty(),
    {
        let e: Slot = Slot::empty();
        let slots: [Slot; SLOT_COUNT] = [e, e, e, e, e, e, e, e, e, e, e, e, e, e, e, e];
        let code_lengths: [u32; IMAGE_COUNT] = [0, 0, 0];
        assert(slots@ =~= TableModel::empty().slots);
        assert(code_lengths@ =~= TableModel::empty().code_lengths);
        FlashTable { fields: Fields { version: 0, device: 0, slots, code_lengths } }
    }

    /// Describes the partitions of `table` in this flash table.
    ///
    /// Each partition goes to the slot of its role; the code length of each
    /// image goes to its descriptor; version and device are those of
    /// `table`. Slots and descriptors whose role `table` does not have stay
    /// empty. Where a partition has a role for which the layout has no
    /// slot, there is no flash table: the error names the first such
    /// partition.
    pub fn apply(self, table: &PartitionTable) -> (r: Result<PopulatedTable, UnknownRole>)
        ensures
            match r {
                Ok(flash) => {
                    &&& slotted(table@, table@.partitions.len() as int)
                    &&& flash@ == populated(table@)
                },
                Err(unknown) => {
                    &&& holds_role(table@, unknown.index as int, unknown.role)
                    &&& slot_of(unknown.role) is None
                    &&& slotted(table@, unknown.index as int)
                },
            },
    {
        let doc: &Document = table.document();
        proof {
            use_type_invariant(&self);
        }
        let ghost d = doc@;
        let mut slots: [Slot; SLOT_COUNT] = self.fields.slots;
        let mut code_lengths: [u32; IMAGE_COUNT] = self.fields.code_lengths;
        let n: usize = doc.partitions.len();
        let mut i: usize = 0;
        while i < n
            invariant
                i <= n,
                n == doc.partitions.len(),
                d == doc@,
                d == table@,
                valid_document(d),
                filled(d, i as int, slots@, code_lengths@),
            decreases n - i,
        {
            let p: &Partition = &doc.partitions[i];
            assert(d.partitions[i as int] == p@);
            let k: usize = match slot_of(p.role) {
                Some(k) => k,
                None => {
                    return Err(UnknownRole { index: i, role: p.role });
                },
            };
            proof {
                lemma_entry_is_exact(d, i as int);
            }
            let ghost slots_before = slots@;
            let ghost lengths_before = code_lengths@;
            slots[k] = entry(p);
            match image_of(p.role) {
                Some(j) => {
                    code_lengths[j] = code_length(p.size as u32);
                },
                None => {},
            }
            proof {
                lemma_filled_step(
                    d,
                    i as int,
                    slots_before,
                    lengths_before,
                    slots@,
                    code_lengths@,
                );
            }
            i += 1;
        }
        proof {
            lemma_filled_is_populated(d, slots@, code_lengths@);
        }
        Ok(
            PopulatedTable {
                fields: Fields {
                    version: doc.version,
                    device: doc.device.id(),
                    slots,
                    code_lengths,
                },
            },
        )
    }

    /// The empty table as the boot ROM reads it: `FTAB_LEN` bytes, zero but
    /// for the magic number and the table's length.
    pub fn to_bytes(&self) -> (bytes: Vec<u8>)
        ensures
            bytes@ == encode(TableModel::empty()),
            bytes@.len() == FTAB_LEN,
    {
        proof {
            use_type_invariant(self);
        }
        self.fields.to_bytes()
    }
}

impl PopulatedTable {
    /// What the table holds.
    pub closed spec fn view(&self) -> TableModel {
        self.fields@
    }

    /// The schema version of the partition table that was applied.
    pub fn version(&self) -> (version: u32)
        ensures
            version == self@.version,
    {
        self.fields.version
    }

    /// The identifier of the device that the table is for.
    pub fn device(&self) -> (device: u32)
        ensures
            device == self@.device,
    {
        self.fields.device
    }

    /// The slot for partitions of `role`: `None` where the layout has no
    /// slot for the role.
    pub fn slot(&self, role: Role) -> (slot: Option<Slot>)
        ensures
            self@.well_formed(),
            slot == match slot_of(role) {
                Some(k) => Some(self@.slots[k as int]),
                None => None,
            },
    {
        match slot_of(role) {
            Some(k) => Some(self.fields.slots[k]),
            None => None,
        }
    }

    /// The code length of the image of `role`: `None` where the role is not
    /// that of an image.
    pub fn image_code_length(&self, role: Role) -> (length: Option<u32>)
        ensures
            self@.well_formed(),
            length == match image_of(role) {
                Some(j) => Some(self@.code_lengths[j as int]),
                None => None,
            },
    {
        match image_of(role) {
            Some(j) => Some(self.fields.code_lengths[j]),
            None => None,
        }
    }

    /// The table as the boot ROM reads it: `FTAB_LEN` bytes, each word in
    /// its place, least significant byte first.
    pub fn to_bytes(&self) -> (bytes: Vec<u8>)
        ensures
            bytes@ == encode(self@),
            bytes@.len() == FTAB_LEN,
    {
        self.fields.to_bytes()
    }
}

/// The bytes of a flash table are `FTAB_LEN` in number, whatever the table
/// holds.
pub proof fn lemma_length_is_fixed(t: TableModel)
    ensures
        encode(t).len() == FTAB_LEN,
{
}

/// An empty table is zero in every byte but those of the magic number and
/// of the table's length.
pub proof fn lemma_empty_table_is_zero_but_for_constants()
    ensures
        word_at(TableModel::empty(), MAGIC_OFFSET as int) == MAGIC,
        word_at(TableModel::empty(), LENGTH_OFFSET as int) == FTAB_LEN,
        forall|i: int|
            0 <= i < FTAB_LEN && !(MAGIC_OFFSET <= i < MAGIC_OFFSET + 4) && !(LENGTH_OFFSET <= i
                < LENGTH_OFFSET + 4) ==> #[trigger] encode(TableModel::empty())[i] == 0,
{
    let t = TableModel::empty();
    assert forall|i: int|
        0 <= i < FTAB_LEN && !(MAGIC_OFFSET <= i < MAGIC_OFFSET + 4) && !(LENGTH_OFFSET <= i
            < LENGTH_OFFSET + 4) implies #[trigger] encode(t)[i] == 0 by {
        let offset = i - i % 4;
        if SLOTS_OFFSET <= offset < SLOTS_OFFSET + SLOT_COUNT * SLOT_LEN {
            let k = (offset - SLOTS_OFFSET) / (SLOT_LEN as int);
            assert(t.slots[k] == Slot::empty());
        }
        assert(word_at(t, offset) == 0);
    }
}

/// The word at byte offset `offset` of a table's bytes is the word that the
/// layout puts there.
pub proof fn lemma_encoded_word(t: TableModel, offset: int)
    requires
        0 <= offset < FTAB_LEN,
        offset % 4 == 0,
    ensures
        encode(t).subrange(offset, offset + 4) == le_bytes(word_at(t, offset)),
        le_word(encode(t).subrange(offset, offset + 4)) == word_at(t, offset),
{
    let word = encode(t).subrange(offset, offset + 4);
    assert forall|b: int| 0 <= b < 4 implies word[b] == le_bytes(word_at(t, offset))[b] by {
        let i = offset + b;
        assert(i - i % 4 == offset);
        assert(i % 4 == b);
    }
    assert(word =~= le_bytes(word_at(t, offset)));
    lemma_le_round_trip(word_at(t, offset));
}

/// The version and the device of a partition table stand unchanged in the
/// bytes of its flash table, at their offsets.
pub proof fn lemma_metadata_round_trip(d: DocumentModel)
    ensures
        le_word(encode(populated(d)).subrange(VERSION_OFFSET as int, VERSION_OFFSET + 4))
            == d.version,
        le_word(encode(populated(d)).subrange(DEVICE_OFFSET as int, DEVICE_OFFSET + 4))
            == d.device.id(),
{
    lemma_encoded_word(populated(d), VERSION_OFFSET as int);
    lemma_encoded_word(populated(d), DEVICE_OFFSET as int);
}

/// Where a partition table has no partition of a role, the slot of that
/// role is the empty slot, and every byte of it is zero; where the role is
/// that of an image, its code length is zero too.
pub proof fn lemma_absent_role_leaves_slot_empty(d: DocumentModel, role: Role)
    requires
        forall|i: int| 0 <= i < d.partitions.len() ==> (#[trigger] d.partitions[i]).role != role,
        slot_of(role) is Some,
    ensures
        populated(d).slots[slot_of(role)->0 as int] == Slot::empty(),
        forall|b: int|
            0 <= b < SLOT_LEN ==> #[trigger] encode(populated(d))[SLOTS_OFFSET + SLOT_LEN * (
            slot_of(role)->0) + b] == 0,
        image_of(role) matches Some(j) ==> populated(d).code_lengths[j as int] == 0,
{
    let k = slot_of(role)->0 as int;
    lemma_role_maps_agree(role, k);
    assert(position_of(d, role) is None) by {
        if exists|i: int| holds_role(d, i, role) {
            let i = choose|i: int| holds_role(d, i, role);
            assert(d.partitions[i].role == role);
        }
    }
    assert(slot_for(d, k) == Slot::empty());
    assert forall|b: int| 0 <= b < SLOT_LEN implies #[trigger] encode(populated(d))[SLOTS_OFFSET
        + SLOT_LEN * k + b] == 0 by {
        let i = SLOTS_OFFSET + SLOT_LEN * k + b;
        let offset = i - i % 4;
        assert((offset - SLOTS_OFFSET) / (SLOT_LEN as int) == k);
        assert(word_at(populated(d), offset) == 0);
    }
    if let Some(j) = image_of(role) {
        lemma_role_maps_agree(role, j as int);
        assert(code_length_for(d, j as int) == 0);
    }
}

/// The slot of a partition of a valid document holds the partition's
/// address and size as they are: both fit in a word.
pub proof fn lemma_entry_is_exact(d: DocumentModel, i: int)
    requires
        valid_document(d),
        0 <= i < d.partitions.len(),
    ensures
        entry_of(d.partitions[i]).address == d.partitions[i].address,
        entry_of(d.partitions[i]).length == d.partitions[i].size,
        entry_of(d.partitions[i]).tag == role_tag(d.partitions[i].role) + 256
            * d.partitions[i].flags.bits(),
{
    let map = d.device.memory_map();
    assert(map.placed(d.partitions[i]));
}

/// The slot of a partition is never the empty slot: its tag is not zero.
pub proof fn lemma_entry_is_not_empty(p: PartitionModel)
    ensures
        entry_of(p) != Slot::empty(),
        entry_of(p).tag % 256 == role_tag(p.role),
        entry_of(p).tag / 256 == p.flags.bits(),
{
}

/// The four words of slot `k` stand at `SLOTS_OFFSET + SLOT_LEN * k`: the
/// address, the length, the tag and a zero.
pub proof fn lemma_slot_words(t: TableModel, k: int)
    requires
        0 <= k < SLOT_COUNT,
    ensures
        word_at(t, SLOTS_OFFSET + SLOT_LEN * k) == t.slots[k].address,
        word_at(t, SLOTS_OFFSET + SLOT_LEN * k + 4) == t.slots[k].length,
        word_at(t, SLOTS_OFFSET + SLOT_LEN * k + 8) == t.slots[k].tag,
        word_at(t, SLOTS_OFFSET + SLOT_LEN * k + 12) == 0,
{
    let base = SLOTS_OFFSET + SLOT_LEN * k;
    assert((base - SLOTS_OFFSET) / (SLOT_LEN as int) == k && (base - SLOTS_OFFSET) % (SLOT_LEN
        as int) == 0);
    assert((base + 4 - SLOTS_OFFSET) / (SLOT_LEN as int) == k && (base + 4 - SLOTS_OFFSET) % (
    SLOT_LEN as int) == 4);
    assert((base + 8 - SLOTS_OFFSET) / (SLOT_LEN as int) == k && (base + 8 - SLOTS_OFFSET) % (
    SLOT_LEN as int) == 8);
    assert((base + 12 - SLOTS_OFFSET) / (SLOT_LEN as int) == k && (base + 12 - SLOTS_OFFSET) % (
    SLOT_LEN as int) == 12);
}

/// The code length of image `j` stands at `IMAGES_OFFSET + IMAGE_LEN * j`.
pub proof fn lemma_image_word(t: TableModel, j: int)
    requires
        0 <= j < IMAGE_COUNT,
    ensures
        word_at(t, IMAGES_OFFSET + IMAGE_LEN * j) == t.code_lengths[j],
{
    let base = IMAGES_OFFSET + IMAGE_LEN * j;
    assert((base - IMAGES_OFFSET) / (IMAGE_LEN as int) == j && (base - IMAGES_OFFSET) % (IMAGE_LEN
        as int) == 0);
}

/// Two tables with the same bytes have the same word at every offset.
proof fn lemma_same_bytes_same_word(t: TableModel, u: TableModel, offset: int)
    requires
        encode(t) == encode(u),
        0 <= offset < FTAB_LEN,
        offset % 4 == 0,
    ensures
        word_at(t, offset) == word_at(u, offset),
{
    lemma_encoded_word(t, offset);
    lemma_encoded_word(u, offset);
}

/// No two fields of the layout share a byte: tables with the same bytes hold
/// the same version, device, slots and code lengths.
pub proof fn lemma_bytes_determine_table(t: TableModel, u: TableModel)
    requires
        t.well_formed(),
        u.well_formed(),
        encode(t) == encode(u),
    ensures
        t == u,
{
    lemma_same_bytes_same_word(t, u, VERSION_OFFSET as int);
    lemma_same_bytes_same_word(t, u, DEVICE_OFFSET as int);
    assert forall|k: int| 0 <= k < SLOT_COUNT implies t.slots[k] == u.slots[k] by {
        let base = SLOTS_OFFSET + SLOT_LEN * k;
        lemma_slot_words(t, k);
        lemma_slot_words(u, k);
        lemma_same_bytes_same_word(t, u, base);
        lemma_same_bytes_same_word(t, u, base + 4);
        lemma_same_bytes_same_word(t, u, base + 8);
    }
    assert forall|j: int| 0 <= j < IMAGE_COUNT implies t.code_lengths[j] == u.code_lengths[j] by {
        lemma_image_word(t, j);
        lemma_image_word(u, j);
        lemma_same_bytes_same_word(t, u, IMAGES_OFFSET + IMAGE_LEN * j);
    }
    assert(t.slots =~= u.slots);
    assert(t.code_lengths =~= u.code_lengths);
}

/// Whether two partitions describe the same region for the same purpose,
/// under whatever names.
pub open spec fn same_region(p: PartitionModel, q: PartitionModel) -> bool {
    p.role == q.role && p.address == q.address && p.size == q.size && p.flags == q.flags
}

/// Whether some partition of `b` describes the same region as `p`.
pub open spec fn has_like(p: PartitionModel, b: DocumentModel) -> bool {
    exists|j: int| 0 <= j < b.partitions.len() && same_region(p, #[trigger] b.partitions[j])
}

/// Whether every partition of `a` has its like in `b`.
pub open spec fn covered_by(a: DocumentModel, b: DocumentModel) -> bool {
    forall|i: int| 0 <= i < a.partitions.len() ==> #[trigger] has_like(a.partitions[i], b)
}

/// Whether two documents describe the same layout for the same device:
/// the same regions, in whatever order and under whatever names.
pub open spec fn same_layout(a: DocumentModel, b: DocumentModel) -> bool {
    a.version == b.version && a.device == b.device && covered_by(a, b) && covered_by(b, a)
}

/// In a valid document every partition with a slot is the one that
/// `position_of` finds for its role.
proof fn lemma_position_of_slotted(d: DocumentModel, i: int)
    requires
        valid_document(d),
        0 <= i < d.partitions.len(),
        slot_of(d.partitions[i].role) is Some,
    ensures
        position_of(d, d.partitions[i].role) == Some(i),
{
    let role = d.partitions[i].role;
    assert(holds_role(d, i, role));
    let c = choose|c: int| holds_role(d, c, role);
    lemma_role_maps_agree(role, slot_of(role)->0 as int);
    if c < i {
        assert(!clash(d.partitions[c], d.partitions[i]));
    } else if i < c {
        assert(!clash(d.partitions[i], d.partitions[c]));
    }
}

/// In `b`, which covers `a`, the partition of `role` is like that of `a`.
proof fn lemma_same_layout_same_position(a: DocumentModel, b: DocumentModel, role: Role)
    requires
        valid_document(a),
        valid_document(b),
        covered_by(a, b),
        covered_by(b, a),
        slot_of(role) is Some,
    ensures
        position_of(a, role) is Some <==> position_of(b, role) is Some,
        position_of(a, role) matches Some(i) ==> same_region(
            a.partitions[i],
            b.partitions[position_of(b, role)->0],
        ),
{
    if let Some(i) = position_of(a, role) {
        assert(holds_role(a, i, role));
        assert(has_like(a.partitions[i], b));
        let j = choose|j: int|
            0 <= j < b.partitions.len() && same_region(a.partitions[i], #[trigger] b.partitions[j]);
        assert(holds_role(b, j, role));
        lemma_position_of_slotted(b, j);
    }
    if let Some(j) = position_of(b, role) {
        assert(holds_role(b, j, role));
        assert(has_like(b.partitions[j], a));
        let i = choose|i: int|
            0 <= i < a.partitions.len() && same_region(b.partitions[j], #[trigger] a.partitions[i]);
        assert(holds_role(a, i, role));
    }
}

/// The flash table is a function of the layout alone: two valid documents
/// that describe the same layout give the same table and the same bytes,
/// whatever the order and the names of their partitions.
pub proof fn lemma_same_layout_same_bytes(a: DocumentModel, b: DocumentModel)
    requires
        valid_document(a),
        valid_document(b),
        same_layout(a, b),
    ensures
        populated(a) == populated(b),
        encode(populated(a)) == encode(populated(b)),
{
    assert forall|k: int| 0 <= k < SLOT_COUNT implies slot_for(a, k) == slot_for(b, k) by {
        if let Some(role) = role_of_slot(k) {
            lemma_role_maps_agree(role, k);
            lemma_same_layout_same_position(a, b, role);
        }
    }
    assert forall|j: int| 0 <= j < IMAGE_COUNT implies code_length_for(a, j) == code_length_for(
        b,
        j,
    ) by {
        if let Some(role) = role_of_image(j) {
            lemma_role_maps_agree(role, j);
            lemma_same_layout_same_position(a, b, role);
        }
    }
    assert(populated(a).slots =~= populated(b).slots);
    assert(populated(a).code_lengths =~= populated(b).code_lengths);
}

} // verus!
