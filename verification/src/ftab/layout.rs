//! The binary layout of the flash table.
//!
//! The table is a sequence of 32-bit little-endian words at fixed offsets:
//!
//! | offset            | content                                          |
//! |-------------------|--------------------------------------------------|
//! | `0x0000`          | the magic number                                 |
//! | `0x0004`          | the schema version of the partition document     |
//! | `0x0008`          | the device identifier                            |
//! | `0x000c`          | the length of the table in bytes                 |
//! | `0x0010 + 16 * k` | slot `k`: address, length, tag, one word of zero |
//! | `0x1000`          | the code length of the low-power core's image    |
//! | `0x1200`          | the code length of the high-performance core's   |
//! | `0x1400`          | the code length of the bootloader                |
//!
//! Every other word is zero. A slot that describes no partition is zero in
//! all its words, as is the code length of an image that is absent.
//!
//! There is one slot for each role that the boot ROM knows:
//!
//! | slot | role                   | tag |
//! |------|------------------------|-----|
//! | 0    | bootloader             | 1   |
//! | 1    | high-performance core  | 2   |
//! | 2    | low-power core         | 3   |
//! | 3    | file system            | 4   |
//! | 4    | reserved               | 5   |
//!
//! The other slots are for no role and stay empty. User data has no slot.
//! The tag word of a slot holds the tag of the role in its low byte and the
//! flags of the partition above it: 0x100 for executable, 0x200 for loaded
//! at boot, 0x400 for secure.

use vstd::prelude::*;
use crate::ptab::model::{PartitionModel, Role};

verus! {

/// The length of the table in bytes.
pub const FTAB_LEN: usize = 0x1600;

/// The first word of every table.
pub const MAGIC: u32 = 0x5345_4346;

/// Where the magic number stands.
pub const MAGIC_OFFSET: usize = 0x0;

/// Where the schema version stands.
pub const VERSION_OFFSET: usize = 0x4;

/// Where the device identifier stands.
pub const DEVICE_OFFSET: usize = 0x8;

/// Where the table's length stands.
pub const LENGTH_OFFSET: usize = 0xc;

/// Where the slots begin.
pub const SLOTS_OFFSET: usize = 0x10;

/// The length of one slot in bytes.
pub const SLOT_LEN: usize = 16;

/// The number of slots.
pub const SLOT_COUNT: usize = 16;

/// Where the image descriptors begin.
pub const IMAGES_OFFSET: usize = 0x1000;

/// The length of one image descriptor in bytes. Its first word is the
/// image's code length.
pub const IMAGE_LEN: usize = 0x200;

/// The number of image descriptors.
pub const IMAGE_COUNT: usize = 3;

/// The length of the header that precedes the code in an image. The boot
/// ROM strips it, so it does not count as code.
pub const IMAGE_HEADER_LEN: u32 = 32;

/// Where the code length of the high-performance core's image stands. The
/// vendor's tools count start-up code that this crate does not know of, so
/// their tables may differ from this crate's in this word and in the code
/// length of the bootloader, and in no other.
pub const HCPU_CODE_LENGTH_OFFSET: usize = 0x1200;

/// Where the code length of the bootloader stands.
pub const BOOTLOADER_CODE_LENGTH_OFFSET: usize = 0x1400;

/// One entry of the table.
#[derive(Clone, Copy, PartialEq, Eq, Structural, Debug)]
pub struct Slot {
    /// The address at which the partition begins.
    pub address: u32,
    /// The length of the partition in bytes.
    pub length: u32,
    /// The role's tag in the low byte, the flags above it.
    pub tag: u32,
}

impl Slot {
    /// The slot that describes no partition.
    pub open spec fn spec_empty() -> Slot {
        Slot { address: 0, length: 0, tag: 0 }
    }

    /// The slot that describes no partition.
    #[verifier::when_used_as_spec(spec_empty)]
    pub fn empty() -> (slot: Slot)
        ensures
            slot == Slot::spec_empty(),
    {
        Slot { address: 0, length: 0, tag: 0 }
    }
}

/// The slot that describes partitions of `role`, where the layout has one.
pub open spec fn spec_slot_of(role: Role) -> Option<usize> {
    match role {
        Role::Bootloader => Some(0),
        Role::HcpuImage => Some(1),
        Role::LcpuImage => Some(2),
        Role::Filesystem => Some(3),
        Role::Reserved => Some(4),
        Role::UserData => None,
    }
}

/// The slot that describes partitions of `role`, where the layout has one.
#[verifier::when_used_as_spec(spec_slot_of)]
pub fn slot_of(role: Role) -> (slot: Option<usize>)
    ensures
        slot == spec_slot_of(role),
        slot matches Some(k) ==> k < SLOT_COUNT,
{
    match role {
        Role::Bootloader => Some(0),
        Role::HcpuImage => Some(1),
        Role::LcpuImage => Some(2),
        Role::Filesystem => Some(3),
        Role::Reserved => Some(4),
        Role::UserData => None,
    }
}

/// The role whose partitions slot `k` describes, where it has one.
pub open spec fn role_of_slot(k: int) -> Option<Role> {
    if k == 0 {
        Some(Role::Bootloader)
    } else if k == 1 {
        Some(Role::HcpuImage)
    } else if k == 2 {
        Some(Role::LcpuImage)
    } else if k == 3 {
        Some(Role::Filesystem)
    } else if k == 4 {
        Some(Role::Reserved)
    } else {
        None
    }
}

/// The image descriptor that holds the code length of partitions of
/// `role`, where the role is that of an image.
pub open spec fn spec_image_of(role: Role) -> Option<usize> {
    match role {
        Role::LcpuImage => Some(0),
        Role::HcpuImage => Some(1),
        Role::Bootloader => Some(2),
        _ => None,
    }
}

/// The image descriptor that holds the code length of partitions of
/// `role`, where the role is that of an image.
#[verifier::when_used_as_spec(spec_image_of)]
pub fn image_of(role: Role) -> (image: Option<usize>)
    ensures
        image == spec_image_of(role),
        image matches Some(j) ==> j < IMAGE_COUNT,
{
    match role {
        Role::LcpuImage => Some(0),
        Role::HcpuImage => Some(1),
        Role::Bootloader => Some(2),
        _ => None,
    }
}

/// The role whose code length image descriptor `j` holds.
pub open spec fn role_of_image(j: int) -> Option<Role> {
    if j == 0 {
        Some(Role::LcpuImage)
    } else if j == 1 {
        Some(Role::HcpuImage)
    } else if j == 2 {
        Some(Role::Bootloader)
    } else {
        None
    }
}

/// The two maps from roles to slots and back agree, and so do those from
/// roles to image descriptors: no two roles share a slot or a descriptor.
pub proof fn lemma_role_maps_agree(role: Role, k: int)
    ensures
        (slot_of(role) matches Some(slot) && slot == k) <==> role_of_slot(k) == Some(role),
        (image_of(role) matches Some(image) && image == k) <==> role_of_image(k) == Some(role),
        slot_of(role) is Some ==> role.is_unique(),
        image_of(role) is Some ==> slot_of(role) is Some,
{
}

/// The number that stands for `role` in a slot's tag.
pub open spec fn spec_role_tag(role: Role) -> u32 {
    match role {
        Role::Bootloader => 1,
        Role::HcpuImage => 2,
        Role::LcpuImage => 3,
        Role::Filesystem => 4,
        Role::Reserved => 5,
        Role::UserData => 6,
    }
}

/// The number that stands for `role` in a slot's tag.
#[verifier::when_used_as_spec(spec_role_tag)]
pub fn role_tag(role: Role) -> (tag: u32)
    ensures
        tag == spec_role_tag(role),
        0 < tag < 256,
{
    match role {
        Role::Bootloader => 1,
        Role::HcpuImage => 2,
        Role::LcpuImage => 3,
        Role::Filesystem => 4,
        Role::Reserved => 5,
        Role::UserData => 6,
    }
}

/// The slot that describes partition `p`: where it begins, how long it is,
/// and its tag, which is the role's tag plus 256 times the flags.
pub open spec fn entry_of(p: PartitionModel) -> Slot {
    Slot {
        address: p.address as u32,
        length: p.size as u32,
        tag: (role_tag(p.role) + 256 * p.flags.bits()) as u32,
    }
}

/// The code length of an image in a partition of `size` bytes: what is left
/// of the partition after the image header, and nothing where the partition
/// is shorter than the header.
pub open spec fn spec_code_length(size: u32) -> u32 {
    if size >= IMAGE_HEADER_LEN {
        (size - IMAGE_HEADER_LEN) as u32
    } else {
        0
    }
}

/// The code length of an image in a partition of `size` bytes.
#[verifier::when_used_as_spec(spec_code_length)]
pub fn code_length(size: u32) -> (length: u32)
    ensures
        length == spec_code_length(size),
{
    if size >= IMAGE_HEADER_LEN {
        size - IMAGE_HEADER_LEN
    } else {
        0
    }
}

/// The mathematical model of a flash table: the fields that vary.
pub struct TableModel {
    /// The schema version of the partition document.
    pub version: u32,
    /// The device identifier.
    pub device: u32,
    /// The slots, `SLOT_COUNT` of them.
    pub slots: Seq<Slot>,
    /// The code lengths, `IMAGE_COUNT` of them.
    pub code_lengths: Seq<u32>,
}

impl TableModel {
    /// Whether the table has all its slots and code lengths.
    pub open spec fn well_formed(self) -> bool {
        self.slots.len() == SLOT_COUNT && self.code_lengths.len() == IMAGE_COUNT
    }

    /// The table before any partition is applied to it: version and device
    /// zero, every slot empty, every code length zero.
    pub open spec fn empty() -> TableModel {
        TableModel {
            version: 0,
            device: 0,
            slots: Seq::new(SLOT_COUNT as nat, |k: int| Slot::empty()),
            code_lengths: Seq::new(IMAGE_COUNT as nat, |j: int| 0u32),
        }
    }
}

/// The word of a slot at `offset` bytes into the slot.
pub open spec fn slot_word(slot: Slot, offset: int) -> u32 {
    if offset == 0 {
        slot.address
    } else if offset == 4 {
        slot.length
    } else if offset == 8 {
        slot.tag
    } else {
        0
    }
}

/// The word at byte offset `offset` of the table. This is the layout.
pub open spec fn word_at(t: TableModel, offset: int) -> u32 {
    if offset == MAGIC_OFFSET {
        MAGIC
    } else if offset == VERSION_OFFSET {
        t.version
    } else if offset == DEVICE_OFFSET {
        t.device
    } else if offset == LENGTH_OFFSET {
        FTAB_LEN as u32
    } else if SLOTS_OFFSET <= offset < SLOTS_OFFSET + SLOT_COUNT * SLOT_LEN {
        slot_word(t.slots[(offset - SLOTS_OFFSET) / (SLOT_LEN as int)], (offset - SLOTS_OFFSET) % (
        SLOT_LEN as int))
    } else if IMAGES_OFFSET <= offset < IMAGES_OFFSET + IMAGE_COUNT * IMAGE_LEN && (offset
        - IMAGES_OFFSET) % (IMAGE_LEN as int) == 0 {
        t.code_lengths[(offset - IMAGES_OFFSET) / (IMAGE_LEN as int)]
    } else {
        0
    }
}

/// The four bytes of a word, least significant first.
pub open spec fn le_bytes(w: u32) -> Seq<u8> {
    seq![
        (w % 256) as u8,
        (w / 256 % 256) as u8,
        (w / 65536 % 256) as u8,
        (w / 16777216) as u8,
    ]
}

/// The word that four bytes write, least significant first.
pub open spec fn le_word(b: Seq<u8>) -> int {
    b[0] + 256 * b[1] + 65536 * b[2] + 16777216 * b[3]
}

/// Reading the bytes of a word gives the word.
pub proof fn lemma_le_round_trip(w: u32)
    ensures
        le_bytes(w).len() == 4,
        le_word(le_bytes(w)) == w,
{
}

/// The table as bytes: each word in its place, least significant byte
/// first.
pub open spec fn encode(t: TableModel) -> Seq<u8> {
    Seq::new(FTAB_LEN as nat, |i: int| le_bytes(word_at(t, i - i % 4))[i % 4])
}

} // verus!
