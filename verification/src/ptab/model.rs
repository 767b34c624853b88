//! The in-memory model of a partition table.
//!
//! A [`Document`] holds what a partition document says, whether or not it
//! makes sense. A `PartitionTable` (see the rules module) is a document that
//! has passed every check. Both are described by the same mathematical
//! model, [`DocumentModel`].

use vstd::prelude::*;
use vstd::string::StringSliceAdditionalSpecFns;
use crate::ptab::text::bytes_eq;

verus! {

/// What a partition is for. The role decides which slot of the flash table
/// describes the partition.
#[derive(Clone, Copy, PartialEq, Eq, Structural, Debug)]
pub enum Role {
    /// The second-stage bootloader that the boot ROM starts.
    Bootloader,
    /// The image of the high-performance core.
    HcpuImage,
    /// The image of the low-power core.
    LcpuImage,
    /// A region that holds a file system.
    Filesystem,
    /// The region set aside for the vendor's own use.
    Reserved,
    /// A region for the application's data. A table may hold several, and
    /// the boot ROM knows nothing of them.
    UserData,
}

impl Role {
    /// Whether a table may hold at most one partition of this role.
    pub open spec fn spec_is_unique(self) -> bool {
        self != Role::UserData
    }

    /// Whether a table may hold at most one partition of this role.
    #[verifier::when_used_as_spec(spec_is_unique)]
    pub fn is_unique(self) -> (r: bool)
        ensures
            r == self.spec_is_unique(),
    {
        match self {
            Role::UserData => false,
            _ => true,
        }
    }

    /// Whether partitions of this role hold the image of a core.
    pub open spec fn spec_is_core_image(self) -> bool {
        self == Role::HcpuImage || self == Role::LcpuImage
    }

    /// Whether partitions of this role hold the image of a core.
    #[verifier::when_used_as_spec(spec_is_core_image)]
    pub fn is_core_image(self) -> (r: bool)
        ensures
            r == self.spec_is_core_image(),
    {
        match self {
            Role::HcpuImage | Role::LcpuImage => true,
            _ => false,
        }
    }

    /// The role that a document names by `word`.
    pub open spec fn named(word: Seq<u8>) -> Option<Role> {
        if word == "bootloader".spec_bytes() {
            Some(Role::Bootloader)
        } else if word == "hcpu".spec_bytes() {
            Some(Role::HcpuImage)
        } else if word == "lcpu".spec_bytes() {
            Some(Role::LcpuImage)
        } else if word == "filesystem".spec_bytes() {
            Some(Role::Filesystem)
        } else if word == "reserved".spec_bytes() {
            Some(Role::Reserved)
        } else if word == "user".spec_bytes() {
            Some(Role::UserData)
        } else {
            None
        }
    }

    /// Looks up the role that a document names by `word`.
    pub fn from_name(word: &[u8]) -> (r: Option<Role>)
        ensures
            r == Role::named(word@),
    {
        if bytes_eq(word, "bootloader".as_bytes()) {
            Some(Role::Bootloader)
        } else if bytes_eq(word, "hcpu".as_bytes()) {
            Some(Role::HcpuImage)
        } else if bytes_eq(word, "lcpu".as_bytes()) {
            Some(Role::LcpuImage)
        } else if bytes_eq(word, "filesystem".as_bytes()) {
            Some(Role::Filesystem)
        } else if bytes_eq(word, "reserved".as_bytes()) {
            Some(Role::Reserved)
        } else if bytes_eq(word, "user".as_bytes()) {
            Some(Role::UserData)
        } else {
            None
        }
    }
}

/// The address windows of a device, and the granularity of its flash.
#[derive(Clone, Copy, PartialEq, Eq, Structural, Debug)]
pub struct MemoryMap {
    /// First address of the memory-mapped flash window.
    pub flash_base: u64,
    /// Length of the flash window in bytes.
    pub flash_len: u64,
    /// First address of the RAM window.
    pub ram_base: u64,
    /// Length of the RAM window in bytes.
    pub ram_len: u64,
    /// Length of one erase sector of the flash.
    pub sector_len: u64,
}

/// The devices whose memory layout this crate knows.
#[derive(Clone, Copy, PartialEq, Eq, Structural, Debug)]
pub enum Device {
    /// The SF32LB52 family.
    Sf32lb52,
}

impl Device {
    /// The number by which documents and flash tables identify the device.
    pub open spec fn spec_id(self) -> u32 {
        match self {
            Device::Sf32lb52 => 52,
        }
    }

    /// The number by which documents and flash tables identify the device.
    #[verifier::when_used_as_spec(spec_id)]
    pub fn id(self) -> (r: u32)
        ensures
            r == self.spec_id(),
    {
        match self {
            Device::Sf32lb52 => 52,
        }
    }

    /// The device that `id` identifies.
    pub open spec fn spec_with_id(id: u64) -> Option<Device> {
        if id == 52 {
            Some(Device::Sf32lb52)
        } else {
            None
        }
    }

    /// The device that `id` identifies, where it identifies one.
    #[verifier::when_used_as_spec(spec_with_id)]
    pub fn with_id(id: u64) -> (r: Option<Device>)
        ensures
            r == Device::spec_with_id(id),
    {
        if id == 52 {
            Some(Device::Sf32lb52)
        } else {
            None
        }
    }

    /// Where the device exposes flash and RAM.
    pub open spec fn spec_memory_map(self) -> MemoryMap {
        match self {
            Device::Sf32lb52 => MemoryMap {
                flash_base: 0x1000_0000,
                flash_len: 0x1000_0000,
                ram_base: 0x2000_0000,
                ram_len: 0x0008_0000,
                sector_len: 0x1000,
            },
        }
    }

    /// Where the device exposes flash and RAM.
    #[verifier::when_used_as_spec(spec_memory_map)]
    pub fn memory_map(self) -> (r: MemoryMap)
        ensures
            r == self.spec_memory_map(),
    {
        match self {
            Device::Sf32lb52 => MemoryMap {
                flash_base: 0x1000_0000,
                flash_len: 0x1000_0000,
                ram_base: 0x2000_0000,
                ram_len: 0x0008_0000,
                sector_len: 0x1000,
            },
        }
    }
}

/// The attributes that a partition may carry besides its role.
#[derive(Clone, Copy, PartialEq, Eq, Structural, Debug)]
pub struct Flags {
    /// Code runs from the partition.
    pub executable: bool,
    /// The boot ROM loads the partition's content at start-up.
    pub load_at_boot: bool,
    /// Only secure code may access the partition.
    pub secure: bool,
}

/// One of the attributes in [`Flags`].
#[derive(Clone, Copy, PartialEq, Eq, Structural, Debug)]
pub enum Flag {
    /// Code runs from the partition.
    Executable,
    /// The boot ROM loads the partition's content at start-up.
    LoadAtBoot,
    /// Only secure code may access the partition.
    Secure,
}

impl Flag {
    /// The flag that a document names by `word`.
    pub open spec fn named(word: Seq<u8>) -> Option<Flag> {
        if word == "executable".spec_bytes() {
            Some(Flag::Executable)
        } else if word == "load_at_boot".spec_bytes() {
            Some(Flag::LoadAtBoot)
        } else if word == "secure".spec_bytes() {
            Some(Flag::Secure)
        } else {
            None
        }
    }

    /// Looks up the flag that a document names by `word`.
    pub fn from_name(word: &[u8]) -> (r: Option<Flag>)
        ensures
            r == Flag::named(word@),
    {
        if bytes_eq(word, "executable".as_bytes()) {
            Some(Flag::Executable)
        } else if bytes_eq(word, "load_at_boot".as_bytes()) {
            Some(Flag::LoadAtBoot)
        } else if bytes_eq(word, "secure".as_bytes()) {
            Some(Flag::Secure)
        } else {
            None
        }
    }
}

impl Flags {
    /// No flag set.
    pub open spec fn spec_none() -> Flags {
        Flags { executable: false, load_at_boot: false, secure: false }
    }

    /// No flag set.
    #[verifier::when_used_as_spec(spec_none)]
    pub fn none() -> (r: Flags)
        ensures
            r == Flags::spec_none(),
    {
        Flags { executable: false, load_at_boot: false, secure: false }
    }

    /// Whether `flag` is set.
    pub open spec fn spec_has(self, flag: Flag) -> bool {
        match flag {
            Flag::Executable => self.executable,
            Flag::LoadAtBoot => self.load_at_boot,
            Flag::Secure => self.secure,
        }
    }

    /// Whether `flag` is set.
    #[verifier::when_used_as_spec(spec_has)]
    pub fn has(self, flag: Flag) -> (r: bool)
        ensures
            r == self.spec_has(flag),
    {
        match flag {
            Flag::Executable => self.executable,
            Flag::LoadAtBoot => self.load_at_boot,
            Flag::Secure => self.secure,
        }
    }

    /// These flags and `flag`.
    pub open spec fn spec_with(self, flag: Flag) -> Flags {
        match flag {
            Flag::Executable => Flags { executable: true, ..self },
            Flag::LoadAtBoot => Flags { load_at_boot: true, ..self },
            Flag::Secure => Flags { secure: true, ..self },
        }
    }

    /// These flags and `flag`.
    #[verifier::when_used_as_spec(spec_with)]
    pub fn with(self, flag: Flag) -> (r: Flags)
        ensures
            r == self.spec_with(flag),
    {
        match flag {
            Flag::Executable => Flags { executable: true, ..self },
            Flag::LoadAtBoot => Flags { load_at_boot: true, ..self },
            Flag::Secure => Flags { secure: true, ..self },
        }
    }

    /// The flags as a number: 1 for executable, 2 for loaded at boot, 4 for
    /// secure, added up.
    pub open spec fn spec_bits(self) -> u32 {
        ((if self.executable { 1int } else { 0 }) + (if self.load_at_boot { 2int } else { 0 }) + (
        if self.secure { 4int } else { 0 })) as u32
    }

    /// The flags as a number: 1 for executable, 2 for loaded at boot, 4 for
    /// secure, added up.
    #[verifier::when_used_as_spec(spec_bits)]
    pub fn bits(self) -> (r: u32)
        ensures
            r == self.spec_bits(),
            r < 8,
    {
        let e: u32 = if self.executable { 1 } else { 0 };
        let l: u32 = if self.load_at_boot { 2 } else { 0 };
        let s: u32 = if self.secure { 4 } else { 0 };
        e + l + s
    }
}

/// One region of the address space, as a document describes it.
#[derive(Debug)]
pub struct Partition {
    /// The symbolic name.
    pub name: Vec<u8>,
    /// What the region is for.
    pub role: Role,
    /// The absolute address of the first byte.
    pub address: u64,
    /// The length in bytes.
    pub size: u64,
    /// The attributes.
    pub flags: Flags,
}

/// The mathematical model of a [`Partition`].
pub struct PartitionModel {
    /// The bytes of the symbolic name.
    pub name: Seq<u8>,
    /// What the region is for.
    pub role: Role,
    /// The absolute address of the first byte.
    pub address: u64,
    /// The length in bytes.
    pub size: u64,
    /// The attributes.
    pub flags: Flags,
}

impl PartitionModel {
    /// The address after the last byte.
    pub open spec fn end(self) -> int {
        self.address + self.size
    }

    /// Whether address `x` belongs to the partition.
    pub open spec fn covers(self, x: int) -> bool {
        self.address <= x < self.end()
    }
}

impl View for Partition {
    type V = PartitionModel;

    open spec fn view(&self) -> PartitionModel {
        PartitionModel {
            name: self.name@,
            role: self.role,
            address: self.address,
            size: self.size,
            flags: self.flags,
        }
    }
}

/// The models of the partitions of a list, in the list's order.
pub open spec fn partition_models(list: Seq<Partition>) -> Seq<PartitionModel> {
    list.map_values(|p: Partition| p@)
}

/// What a partition document says: the metadata and the partitions in the
/// order in which they are listed.
#[derive(Debug)]
pub struct Document {
    /// The version of the document's schema.
    pub version: u32,
    /// The device that the layout is for.
    pub device: Device,
    /// The partitions.
    pub partitions: Vec<Partition>,
}

/// The mathematical model of a [`Document`].
pub struct DocumentModel {
    /// The version of the document's schema.
    pub version: u32,
    /// The device that the layout is for.
    pub device: Device,
    /// The partitions, in the order in which they are listed.
    pub partitions: Seq<PartitionModel>,
}

impl View for Document {
    type V = DocumentModel;

    open spec fn view(&self) -> DocumentModel {
        DocumentModel {
            version: self.version,
            device: self.device,
            partitions: partition_models(self.partitions@),
        }
    }
}

} // verus!
