//! The rules that a partition table obeys, and the validation that enforces
//! them.

use vstd::prelude::*;
use crate::ptab::model::{Device, Document, DocumentModel, MemoryMap, Partition, PartitionModel, Role};

verus! {

/// The granularity of RAM, and the least granularity of any memory.
pub const WORD_LEN: u64 = 4;

impl MemoryMap {
    /// Whether `p` starts in the flash window and ends in it.
    pub open spec fn in_flash(self, p: PartitionModel) -> bool {
        &&& self.flash_base <= p.address < self.flash_base + self.flash_len
        &&& p.end() <= self.flash_base + self.flash_len
    }

    /// Whether `p` starts in the RAM window and ends in it.
    pub open spec fn in_ram(self, p: PartitionModel) -> bool {
        &&& self.ram_base <= p.address < self.ram_base + self.ram_len
        &&& p.end() <= self.ram_base + self.ram_len
    }

    /// Whether `p` lies in memory that the device exposes.
    pub open spec fn placed(self, p: PartitionModel) -> bool {
        self.in_flash(p) || self.in_ram(p)
    }

    /// The unit to which `p` must be aligned: an erase sector for a
    /// partition in flash, a word for any other.
    pub open spec fn unit(self, p: PartitionModel) -> int {
        if self.in_flash(p) {
            self.sector_len as int
        } else {
            WORD_LEN as int
        }
    }

    /// Whether the first address and the length of `p` are multiples of its
    /// unit.
    pub open spec fn aligned(self, p: PartitionModel) -> bool {
        p.address as int % self.unit(p) == 0 && p.size as int % self.unit(p) == 0
    }
}

/// Whether some address belongs to both partitions.
pub open spec fn overlap(a: PartitionModel, b: PartitionModel) -> bool {
    a.address < b.end() && b.address < a.end() && a.size > 0 && b.size > 0
}

/// Two partitions overlap exactly when an address belongs to both.
pub proof fn lemma_overlap_shares_address(a: PartitionModel, b: PartitionModel)
    ensures
        overlap(a, b) <==> exists|x: int| #[trigger] a.covers(x) && b.covers(x),
{
    if overlap(a, b) {
        let x = if a.address >= b.address {
            a.address as int
        } else {
            b.address as int
        };
        assert(a.covers(x) && b.covers(x));
    }
}

/// Whether the two partitions claim the same role, of which there may be
/// only one.
pub open spec fn clash(a: PartitionModel, b: PartitionModel) -> bool {
    a.role == b.role && a.role.is_unique()
}

/// Whether some partition of `d` is a bootloader.
pub open spec fn has_bootloader(d: DocumentModel) -> bool {
    exists|i: int|
        0 <= i < d.partitions.len() && (#[trigger] d.partitions[i]).role == Role::Bootloader
}

/// Whether some partition of `d` is the image of a core.
pub open spec fn has_core_image(d: DocumentModel) -> bool {
    exists|i: int|
        0 <= i < d.partitions.len() && (#[trigger] d.partitions[i]).role.is_core_image()
}

/// Whether a document describes a layout that the device can boot from:
/// every partition lies in the device's memory and is aligned, no two
/// partitions overlap, no unique role is taken twice, and there is a
/// bootloader and the image of at least one core.
pub open spec fn valid_document(d: DocumentModel) -> bool {
    let map = d.device.memory_map();
    &&& forall|i: int|
        0 <= i < d.partitions.len() ==> map.placed(#[trigger] d.partitions[i]) && map.aligned(
            d.partitions[i],
        )
    &&& forall|i: int, j: int|
        0 <= i < j < d.partitions.len() ==> !overlap(
            #[trigger] d.partitions[i],
            #[trigger] d.partitions[j],
        )
    &&& forall|i: int, j: int|
        0 <= i < j < d.partitions.len() ==> !clash(
            #[trigger] d.partitions[i],
            #[trigger] d.partitions[j],
        )
    &&& has_bootloader(d)
    &&& has_core_image(d)
}

/// The field of a partition that a violation is about.
#[derive(Clone, Copy, PartialEq, Eq, Structural, Debug)]
pub enum Field {
    /// The partition's first address.
    Address,
    /// The partition's length.
    Size,
}

/// A rule that a document breaks, with the partitions that break it, by
/// their position in the document's list.
#[derive(Clone, Copy, PartialEq, Eq, Structural, Debug)]
pub enum Violation {
    /// The partition does not lie in the device's flash or RAM. The field is
    /// the address where no window holds it, the size where the partition
    /// starts in a window and runs out of it.
    OutOfRange { index: usize, field: Field },
    /// The field of the partition is no multiple of the partition's unit.
    Misaligned { index: usize, field: Field },
    /// The two partitions share an address.
    Overlap { first: usize, second: usize },
    /// The two partitions have the same role, which only one may have.
    DuplicateRole { first: usize, second: usize },
    /// No partition is a bootloader.
    MissingBootloader,
    /// No partition is the image of a core.
    MissingCoreImage,
}

impl Violation {
    /// Whether document `d` breaks the rule in the way this value says.
    pub open spec fn holds(self, d: DocumentModel) -> bool {
        let map = d.device.memory_map();
        let parts = d.partitions;
        match self {
            Violation::OutOfRange { index, field } => {
                &&& index < parts.len()
                &&& !map.placed(parts[index as int])
                &&& field == Field::Address <==> !starts_in_window(map, parts[index as int])
            },
            Violation::Misaligned { index, field } => {
                &&& index < parts.len()
                &&& match field {
                    Field::Address => parts[index as int].address as int % map.unit(
                        parts[index as int],
                    ) != 0,
                    Field::Size => parts[index as int].size as int % map.unit(parts[index as int])
                        != 0,
                }
            },
            Violation::Overlap { first, second } => {
                &&& first < second < parts.len()
                &&& overlap(parts[first as int], parts[second as int])
            },
            Violation::DuplicateRole { first, second } => {
                &&& first < second < parts.len()
                &&& clash(parts[first as int], parts[second as int])
            },
            Violation::MissingBootloader => !has_bootloader(d),
            Violation::MissingCoreImage => !has_core_image(d),
        }
    }
}

/// Whether the first address of `p` lies in one of the device's windows.
pub open spec fn starts_in_window(map: MemoryMap, p: PartitionModel) -> bool {
    ||| map.flash_base <= p.address < map.flash_base + map.flash_len
    ||| map.ram_base <= p.address < map.ram_base + map.ram_len
}

/// A document that breaks a rule is not valid.
pub proof fn lemma_violation_refutes_validity(d: DocumentModel, v: Violation)
    requires
        v.holds(d),
    ensures
        !valid_document(d),
{
    let map = d.device.memory_map();
    match v {
        Violation::OutOfRange { index, .. } => {
            assert(!map.placed(d.partitions[index as int]));
        },
        Violation::Misaligned { index, .. } => {
            assert(!map.aligned(d.partitions[index as int]));
        },
        Violation::Overlap { first, second } => {
            assert(overlap(d.partitions[first as int], d.partitions[second as int]));
        },
        Violation::DuplicateRole { first, second } => {
            assert(clash(d.partitions[first as int], d.partitions[second as int]));
        },
        Violation::MissingBootloader => {},
        Violation::MissingCoreImage => {},
    }
}

/// What is wrong with where partition `p`, the one at `index`, lies. The
/// alignment of the address is looked at first, then that of the size, then
/// whether the address lies in a window, then whether the partition ends in
/// it.
pub open spec fn placement_fault(map: MemoryMap, p: PartitionModel, index: usize) -> Option<
    Violation,
> {
    if p.address as int % map.unit(p) != 0 {
        Some(Violation::Misaligned { index, field: Field::Address })
    } else if p.size as int % map.unit(p) != 0 {
        Some(Violation::Misaligned { index, field: Field::Size })
    } else if !starts_in_window(map, p) {
        Some(Violation::OutOfRange { index, field: Field::Address })
    } else if !map.placed(p) {
        Some(Violation::OutOfRange { index, field: Field::Size })
    } else {
        None
    }
}

/// What is wrong between partitions `a` and `b`, at `first` and `second`:
/// an overlap is looked for first, then a clash of roles.
pub open spec fn pair_fault(a: PartitionModel, b: PartitionModel, first: usize, second: usize)
    -> Option<Violation> {
    if overlap(a, b) {
        Some(Violation::Overlap { first, second })
    } else if clash(a, b) {
        Some(Violation::DuplicateRole { first, second })
    } else {
        None
    }
}

/// Whether each of the first `n` partitions of `d` lies where it may.
pub open spec fn placed_before(d: DocumentModel, n: int) -> bool {
    forall|i: int|
        0 <= i < n ==> d.device.memory_map().placed(#[trigger] d.partitions[i])
            && d.device.memory_map().aligned(d.partitions[i])
}

/// Whether nothing is wrong between any two partitions of `d` that come
/// before the pair `(first, second)`, pairs being taken in the order of
/// their first partition and then of their second.
pub open spec fn apart_before(d: DocumentModel, first: int, second: int) -> bool {
    forall|x: int, y: int|
        0 <= x < y < d.partitions.len() && (x < first || (x == first && y < second)) ==> !overlap(
            #[trigger] d.partitions[x],
            #[trigger] d.partitions[y],
        ) && !clash(d.partitions[x], d.partitions[y])
}

/// Whether `v` is the violation that validation reports for `d`: the first
/// that it meets. Validation looks at where each partition lies, in the
/// order of the list; then at each pair of partitions; then for the
/// bootloader; then for the image of a core.
pub open spec fn reported(d: DocumentModel, v: Violation) -> bool {
    let map = d.device.memory_map();
    let parts = d.partitions;
    let n = parts.len() as int;
    match v {
        Violation::OutOfRange { index, .. } | Violation::Misaligned { index, .. } => {
            &&& index < n
            &&& placed_before(d, index as int)
            &&& placement_fault(map, parts[index as int], index) == Some(v)
        },
        Violation::Overlap { first, second } | Violation::DuplicateRole { first, second } => {
            &&& first < second < n
            &&& placed_before(d, n)
            &&& apart_before(d, first as int, second as int)
            &&& pair_fault(parts[first as int], parts[second as int], first, second) == Some(v)
        },
        Violation::MissingBootloader => {
            &&& placed_before(d, n)
            &&& apart_before(d, n, n)
            &&& !has_bootloader(d)
        },
        Violation::MissingCoreImage => {
            &&& placed_before(d, n)
            &&& apart_before(d, n, n)
            &&& has_bootloader(d)
            &&& !has_core_image(d)
        },
    }
}

/// The violation that validation reports is one that the document commits.
pub proof fn lemma_reported_holds(d: DocumentModel, v: Violation)
    requires
        reported(d, v),
    ensures
        v.holds(d),
        !valid_document(d),
{
    lemma_violation_refutes_validity(d, v);
}

/// Validation reports one violation for a document, and no other.
pub proof fn lemma_reported_is_one(d: DocumentModel, v: Violation, w: Violation)
    requires
        reported(d, v),
        reported(d, w),
    ensures
        v == w,
{
    let map = d.device.memory_map();
    let parts = d.partitions;
    match v {
        Violation::OutOfRange { index, .. } | Violation::Misaligned { index, .. } => {
            lemma_placement_fault_first(d, index as int, w);
        },
        Violation::Overlap { first, second } | Violation::DuplicateRole { first, second } => {
            match w {
                Violation::OutOfRange { index, .. } | Violation::Misaligned { index, .. } => {
                    lemma_placement_fault_first(d, index as int, v);
                },
                Violation::Overlap { first: a, second: b }
                | Violation::DuplicateRole { first: a, second: b } => {
                    if a != first || b != second {
                        if a < first || (a == first && b < second) {
                            assert(!overlap(parts[a as int], parts[b as int]) && !clash(
                                parts[a as int],
                                parts[b as int],
                            ));
                        } else {
                            assert(!overlap(parts[first as int], parts[second as int]) && !clash(
                                parts[first as int],
                                parts[second as int],
                            ));
                        }
                    }
                },
                _ => {
                    assert(!overlap(parts[first as int], parts[second as int]) && !clash(
                        parts[first as int],
                        parts[second as int],
                    ));
                },
            }
        },
        _ => {
            match w {
                Violation::OutOfRange { index, .. } | Violation::Misaligned { index, .. } => {
                    lemma_placement_fault_first(d, index as int, v);
                },
                Violation::Overlap { first, second }
                | Violation::DuplicateRole { first, second } => {
                    assert(!overlap(parts[first as int], parts[second as int]) && !clash(
                        parts[first as int],
                        parts[second as int],
                    ));
                },
                _ => {},
            }
        },
    }
}

/// Where the partition at `index` is the first that lies wrongly, what
/// validation reports is what is wrong with it.
proof fn lemma_placement_fault_first(d: DocumentModel, index: int, w: Violation)
    requires
        0 <= index < d.partitions.len(),
        placed_before(d, index),
        placement_fault(d.device.memory_map(), d.partitions[index], index as usize) is Some,
        reported(d, w),
    ensures
        Some(w) == placement_fault(d.device.memory_map(), d.partitions[index], index as usize),
{
    let map = d.device.memory_map();
    let p = d.partitions[index];
    assert(!(map.placed(p) && map.aligned(p)));
    match w {
        Violation::OutOfRange { index: other, .. } | Violation::Misaligned { index: other, .. } => {
            if other < index {
                let q = d.partitions[other as int];
                assert(map.placed(q) && map.aligned(q));
            } else if index < other {
                assert(map.placed(p) && map.aligned(p));
            }
        },
        _ => {
            assert(map.placed(p) && map.aligned(p));
        },
    }
}

/// In a valid document no address belongs to two partitions.
pub proof fn lemma_valid_partitions_share_no_address(d: DocumentModel, i: int, j: int, x: int)
    requires
        valid_document(d),
        0 <= i < d.partitions.len(),
        0 <= j < d.partitions.len(),
        i != j,
    ensures
        !(d.partitions[i].covers(x) && d.partitions[j].covers(x)),
{
    if i < j {
        assert(!overlap(d.partitions[i], d.partitions[j]));
    } else {
        assert(!overlap(d.partitions[j], d.partitions[i]));
    }
}

/// In a valid document every partition lies in the flash window or in the
/// RAM window of the device, whole, and its address and size fit in 32
/// bits.
pub proof fn lemma_valid_partition_lies_in_a_window(d: DocumentModel, i: int)
    requires
        valid_document(d),
        0 <= i < d.partitions.len(),
    ensures
        d.device.memory_map().in_flash(d.partitions[i]) || d.device.memory_map().in_ram(
            d.partitions[i],
        ),
        d.partitions[i].address as int % (WORD_LEN as int) == 0,
        d.partitions[i].size as int % (WORD_LEN as int) == 0,
        d.partitions[i].end() <= u32::MAX,
{
    let map = d.device.memory_map();
    let p = d.partitions[i];
    assert(map.placed(p) && map.aligned(p));
    assert(map.unit(p) == 4 || map.unit(p) == 0x1000);
}

/// A document in which two partitions overlap is not valid, whichever of
/// the two is listed first.
pub proof fn lemma_overlap_is_invalid(d: DocumentModel, i: int, j: int)
    requires
        0 <= i < d.partitions.len(),
        0 <= j < d.partitions.len(),
        i != j,
        overlap(d.partitions[i], d.partitions[j]),
    ensures
        !valid_document(d),
{
    if i < j {
        assert(overlap(d.partitions[i], d.partitions[j]));
    } else {
        assert(overlap(d.partitions[j], d.partitions[i]));
    }
}

/// A document with a partition whose first address is no multiple of the
/// word length is not valid, wherever the partition lies.
pub proof fn lemma_unaligned_address_is_invalid(d: DocumentModel, i: int)
    requires
        0 <= i < d.partitions.len(),
        d.partitions[i].address as int % (WORD_LEN as int) != 0,
    ensures
        !valid_document(d),
{
    let map = d.device.memory_map();
    let p = d.partitions[i];
    if map.aligned(p) {
        assert(map.unit(p) == 4 || map.unit(p) == 0x1000);
        assert(p.address as int % 4 == 0);
    }
}

/// A partition table: a document that obeys every rule. It is made by
/// [`validate`] alone and never changes.
#[derive(Debug)]
pub struct PartitionTable {
    doc: Document,
}

impl PartitionTable {
    #[verifier::type_invariant]
    spec fn obeys_rules(self) -> bool {
        valid_document(self.doc@)
    }

    /// What the table holds.
    pub closed spec fn view(&self) -> DocumentModel {
        self.doc@
    }

    /// The table's content. It is valid, as that of every table is.
    pub fn document(&self) -> (d: &Document)
        ensures
            d@ == self@,
            valid_document(self@),
    {
        proof {
            use_type_invariant(self);
        }
        &self.doc
    }
}

/// Whether `address` lies in the window of `len` bytes at `base`, and if so
/// whether `size` bytes from there end in it.
fn window_holds(base: u64, len: u64, address: u64, size: u64) -> (r: (bool, bool))
    requires
        base + len <= u64::MAX,
    ensures
        r.0 == (base <= address < base + len),
        r.1 == (r.0 && address + size <= base + len),
{
    if address >= base && address - base < len {
        (true, size <= len - (address - base))
    } else {
        (false, false)
    }
}

/// Says what is wrong with where `p`, the partition at `index`, lies.
fn check_placement(device: Device, p: &Partition, index: usize) -> (r: Option<Violation>)
    ensures
        r == placement_fault(device.memory_map(), p@, index),
        r is None <==> device.memory_map().placed(p@) && device.memory_map().aligned(p@),
{
    let map: MemoryMap = device.memory_map();
    let flash: (bool, bool) = window_holds(map.flash_base, map.flash_len, p.address, p.size);
    let ram: (bool, bool) = window_holds(map.ram_base, map.ram_len, p.address, p.size);
    let unit: u64 = if flash.1 {
        map.sector_len
    } else {
        WORD_LEN
    };
    if p.address % unit != 0 {
        Some(Violation::Misaligned { index, field: Field::Address })
    } else if p.size % unit != 0 {
        Some(Violation::Misaligned { index, field: Field::Size })
    } else if !flash.0 && !ram.0 {
        Some(Violation::OutOfRange { index, field: Field::Address })
    } else if !flash.1 && !ram.1 {
        Some(Violation::OutOfRange { index, field: Field::Size })
    } else {
        None
    }
}

/// Whether the two partitions share an address.
fn overlaps(p: &Partition, q: &Partition) -> (r: bool)
    requires
        p@.end() <= u64::MAX,
        q@.end() <= u64::MAX,
    ensures
        r == overlap(p@, q@),
{
    p.address < q.address + q.size && q.address < p.address + p.size && p.size > 0 && q.size > 0
}

/// Whether the two partitions claim the same unique role.
fn clashes(p: &Partition, q: &Partition) -> (r: bool)
    ensures
        r == clash(p@, q@),
{
    p.role == q.role && p.role.is_unique()
}

/// Whether the list holds a bootloader, and whether it holds the image of a
/// core.
fn required_roles(doc: &Document) -> (r: (bool, bool))
    ensures
        r.0 == has_bootloader(doc@),
        r.1 == has_core_image(doc@),
{
    let mut bootloader: bool = false;
    let mut core: bool = false;
    let mut i: usize = 0;
    while i < doc.partitions.len()
        invariant
            i <= doc.partitions.len(),
            bootloader == exists|k: int|
                0 <= k < i && (#[trigger] doc@.partitions[k]).role == Role::Bootloader,
            core == exists|k: int|
                0 <= k < i && (#[trigger] doc@.partitions[k]).role.is_core_image(),
        decreases doc.partitions.len() - i,
    {
        let role: Role = doc.partitions[i].role;
        assert(doc@.partitions[i as int].role == role);
        if role == Role::Bootloader {
            bootloader = true;
        }
        if role.is_core_image() {
            core = true;
        }
        i += 1;
    }
    (bootloader, core)
}

/// Holds a document to the rules and, where it obeys them all, makes it a
/// partition table. Where it does not, reports the first violation that it
/// meets.
pub fn validate(doc: Document) -> (r: Result<PartitionTable, Violation>)
    ensures
        match r {
            Ok(table) => table@ == doc@ && valid_document(doc@),
            Err(violation) => reported(doc@, violation),
        },
        r is Ok <==> valid_document(doc@),
{
    let n: usize = doc.partitions.len();
    let ghost d = doc@;
    let ghost map = d.device.memory_map();
    let mut i: usize = 0;
    while i < n
        invariant
            i <= n,
            n == doc.partitions.len(),
            d == doc@,
            map == d.device.memory_map(),
            placed_before(d, i as int),
        decreases n - i,
    {
        assert(d.partitions[i as int] == doc.partitions[i as int]@);
        match check_placement(doc.device, &doc.partitions[i], i) {
            Some(violation) => {
                proof {
                    lemma_reported_holds(d, violation);
                }
                return Err(violation);
            },
            None => {},
        }
        i += 1;
    }
    let mut a: usize = 0;
    while a < n
        invariant
            a <= n,
            n == doc.partitions.len(),
            d == doc@,
            map == d.device.memory_map(),
            placed_before(d, n as int),
            apart_before(d, a as int, 0),
        decreases n - a,
    {
        let mut b: usize = a + 1;
        assert(apart_before(d, a as int, b as int));
        while b < n
            invariant
                a < b <= n,
                n == doc.partitions.len(),
                d == doc@,
                map == d.device.memory_map(),
                placed_before(d, n as int),
                apart_before(d, a as int, b as int),
            decreases n - b,
        {
            assert(d.partitions[a as int] == doc.partitions[a as int]@);
            assert(d.partitions[b as int] == doc.partitions[b as int]@);
            assert(map.placed(d.partitions[a as int]));
            assert(map.placed(d.partitions[b as int]));
            if overlaps(&doc.partitions[a], &doc.partitions[b]) {
                let violation = Violation::Overlap { first: a, second: b };
                proof {
                    lemma_reported_holds(d, violation);
                }
                return Err(violation);
            }
            if clashes(&doc.partitions[a], &doc.partitions[b]) {
                let violation = Violation::DuplicateRole { first: a, second: b };
                proof {
                    lemma_reported_holds(d, violation);
                }
                return Err(violation);
            }
            b += 1;
        }
        a += 1;
        assert(apart_before(d, a as int, 0));
    }
    assert(apart_before(d, n as int, n as int));
    let required: (bool, bool) = required_roles(&doc);
    if !required.0 {
        proof {
            lemma_reported_holds(d, Violation::MissingBootloader);
        }
        return Err(Violation::MissingBootloader);
    }
    if !required.1 {
        proof {
            lemma_reported_holds(d, Violation::MissingCoreImage);
        }
        return Err(Violation::MissingCoreImage);
    }
    Ok(PartitionTable { doc })
}

} // verus!
