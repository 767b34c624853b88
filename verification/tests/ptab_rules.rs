//! The rules of a partition table, on documents built by hand.

use sifli_flash_table::ptab::model::{Device, Document, Flag, Flags, MemoryMap, Partition, Role};
use sifli_flash_table::ptab::rules::{validate, Field, Violation, WORD_LEN};

fn partition(name: &str, role: Role, address: u64, size: u64) -> Partition {
    Partition { name: name.as_bytes().to_vec(), role, address, size, flags: Flags::none() }
}

fn document(partitions: Vec<Partition>) -> Document {
    Document { version: 1, device: Device::Sf32lb52, partitions }
}

fn boot() -> Partition {
    partition("boot", Role::Bootloader, 0x1201_0000, 0x1_0000)
}

fn app() -> Partition {
    partition("app", Role::HcpuImage, 0x1202_0000, 0x20_0000)
}

fn violation_with(extra: Partition) -> Violation {
    validate(document(vec![boot(), app(), extra])).unwrap_err()
}

#[test]
fn valid_document_becomes_a_table_with_the_same_content() {
    let table = validate(document(vec![boot(), app()])).unwrap();
    let document = table.document();
    assert_eq!(document.version, 1);
    assert_eq!(document.device, Device::Sf32lb52);
    assert_eq!(document.partitions.len(), 2);
    assert_eq!(document.partitions[0].name, b"boot".to_vec());
    assert_eq!(document.partitions[0].address, 0x1201_0000);
    assert_eq!(document.partitions[1].role, Role::HcpuImage);
    assert_eq!(document.partitions[1].size, 0x20_0000);
}

#[test]
fn memory_map_of_the_sf32lb52() {
    assert_eq!(
        Device::Sf32lb52.memory_map(),
        MemoryMap {
            flash_base: 0x1000_0000,
            flash_len: 0x1000_0000,
            ram_base: 0x2000_0000,
            ram_len: 0x8_0000,
            sector_len: 4096,
        }
    );
    assert_eq!(WORD_LEN, 4);
}

#[test]
fn device_identifiers() {
    assert_eq!(Device::Sf32lb52.id(), 52);
    assert_eq!(Device::with_id(52), Some(Device::Sf32lb52));
    assert_eq!(Device::with_id(0), None);
    assert_eq!(Device::with_id(53), None);
    assert_eq!(Device::with_id(52 + (1 << 32)), None);
}

#[test]
fn role_names() {
    assert_eq!(Role::from_name(b"bootloader"), Some(Role::Bootloader));
    assert_eq!(Role::from_name(b"hcpu"), Some(Role::HcpuImage));
    assert_eq!(Role::from_name(b"lcpu"), Some(Role::LcpuImage));
    assert_eq!(Role::from_name(b"filesystem"), Some(Role::Filesystem));
    assert_eq!(Role::from_name(b"reserved"), Some(Role::Reserved));
    assert_eq!(Role::from_name(b"user"), Some(Role::UserData));
    assert_eq!(Role::from_name(b"Bootloader"), None);
    assert_eq!(Role::from_name(b"hcpu "), None);
    assert_eq!(Role::from_name(b""), None);
}

#[test]
fn unique_roles_and_core_images() {
    assert!(Role::Bootloader.is_unique());
    assert!(Role::HcpuImage.is_unique());
    assert!(Role::LcpuImage.is_unique());
    assert!(Role::Filesystem.is_unique());
    assert!(Role::Reserved.is_unique());
    assert!(!Role::UserData.is_unique());
    assert!(Role::HcpuImage.is_core_image());
    assert!(Role::LcpuImage.is_core_image());
    assert!(!Role::Bootloader.is_core_image());
    assert!(!Role::Filesystem.is_core_image());
    assert!(!Role::Reserved.is_core_image());
    assert!(!Role::UserData.is_core_image());
}

#[test]
fn flags_by_name_and_as_bits() {
    assert_eq!(Flag::from_name(b"executable"), Some(Flag::Executable));
    assert_eq!(Flag::from_name(b"load_at_boot"), Some(Flag::LoadAtBoot));
    assert_eq!(Flag::from_name(b"secure"), Some(Flag::Secure));
    assert_eq!(Flag::from_name(b"exec"), None);
    let none = Flags::none();
    assert_eq!(none.bits(), 0);
    assert!(!none.has(Flag::Executable));
    assert_eq!(none.with(Flag::Executable).bits(), 1);
    assert_eq!(none.with(Flag::LoadAtBoot).bits(), 2);
    assert_eq!(none.with(Flag::Secure).bits(), 4);
    let all = none.with(Flag::Secure).with(Flag::Executable).with(Flag::LoadAtBoot);
    assert_eq!(all.bits(), 7);
    assert!(all.has(Flag::Executable) && all.has(Flag::LoadAtBoot) && all.has(Flag::Secure));
    assert_eq!(all.with(Flag::Secure), all);
}

#[test]
fn address_not_a_multiple_of_the_word_is_misaligned() {
    assert_eq!(
        violation_with(partition("x", Role::UserData, 0x2000_0001, 4)),
        Violation::Misaligned { index: 2, field: Field::Address }
    );
    assert_eq!(
        violation_with(partition("x", Role::UserData, 0x1300_0002, 0x1000)),
        Violation::Misaligned { index: 2, field: Field::Address }
    );
    assert_eq!(
        violation_with(partition("x", Role::UserData, 0x3000_0003, 4)),
        Violation::Misaligned { index: 2, field: Field::Address }
    );
}

#[test]
fn flash_partition_off_a_sector_boundary_is_misaligned() {
    assert_eq!(
        violation_with(partition("x", Role::UserData, 0x1300_0004, 0x1000)),
        Violation::Misaligned { index: 2, field: Field::Address }
    );
    assert_eq!(
        violation_with(partition("x", Role::UserData, 0x1300_0000, 0x1004)),
        Violation::Misaligned { index: 2, field: Field::Size }
    );
    assert!(validate(document(vec![
        boot(),
        app(),
        partition("x", Role::UserData, 0x1300_0000, 0x1000)
    ]))
    .is_ok());
}

#[test]
fn ram_partition_is_aligned_to_words() {
    assert!(validate(document(vec![
        boot(),
        app(),
        partition("x", Role::UserData, 0x2000_0004, 12)
    ]))
    .is_ok());
    assert_eq!(
        violation_with(partition("x", Role::UserData, 0x2000_0004, 10)),
        Violation::Misaligned { index: 2, field: Field::Size }
    );
}

#[test]
fn address_outside_every_window_is_out_of_range() {
    for address in [0u64, 0x0fff_f000, 0x2008_0000, 0x4000_0000, 0x1_0000_0000, u64::MAX - 3] {
        assert_eq!(
            violation_with(partition("x", Role::UserData, address, 0x1000)),
            Violation::OutOfRange { index: 2, field: Field::Address },
            "address {:#x}",
            address
        );
    }
}

#[test]
fn partition_that_runs_out_of_its_window_is_out_of_range() {
    assert_eq!(
        violation_with(partition("x", Role::UserData, 0x1fff_f000, 0x2000)),
        Violation::OutOfRange { index: 2, field: Field::Size }
    );
    assert_eq!(
        violation_with(partition("x", Role::UserData, 0x2007_fffc, 8)),
        Violation::OutOfRange { index: 2, field: Field::Size }
    );
    assert_eq!(
        violation_with(partition("x", Role::UserData, 0x2000_0000, u64::MAX - 3)),
        Violation::OutOfRange { index: 2, field: Field::Size }
    );
}

#[test]
fn partition_may_fill_its_window_to_the_last_byte() {
    assert!(validate(document(vec![
        boot(),
        app(),
        partition("x", Role::UserData, 0x1fff_f000, 0x1000),
        partition("y", Role::UserData, 0x2007_fffc, 4),
    ]))
    .is_ok());
    assert!(validate(document(vec![
        partition("boot", Role::Bootloader, 0x1000_0000, 0x1000_0000),
        partition("radio", Role::LcpuImage, 0x2000_0000, 0x8_0000),
    ]))
    .is_ok());
}

#[test]
fn overlapping_partitions_are_refused_in_either_order() {
    let low = || partition("low", Role::UserData, 0x1300_0000, 0x2000);
    let high = || partition("high", Role::UserData, 0x1300_1000, 0x2000);
    assert_eq!(
        validate(document(vec![boot(), app(), low(), high()])).unwrap_err(),
        Violation::Overlap { first: 2, second: 3 }
    );
    assert_eq!(
        validate(document(vec![boot(), app(), high(), low()])).unwrap_err(),
        Violation::Overlap { first: 2, second: 3 }
    );
}

#[test]
fn partition_inside_another_overlaps_it() {
    assert_eq!(
        violation_with(partition("x", Role::UserData, 0x1202_1000, 0x1000)),
        Violation::Overlap { first: 1, second: 2 }
    );
    assert_eq!(
        violation_with(partition("x", Role::UserData, 0x1200_0000, 0x100_0000)),
        Violation::Overlap { first: 0, second: 2 }
    );
}

#[test]
fn adjacent_partitions_do_not_overlap() {
    assert!(validate(document(vec![
        boot(),
        app(),
        partition("before", Role::UserData, 0x1200_0000, 0x1_0000),
        partition("after", Role::UserData, 0x1222_0000, 0x1000),
    ]))
    .is_ok());
}

#[test]
fn empty_partition_overlaps_nothing() {
    assert!(validate(document(vec![
        boot(),
        app(),
        partition("mark", Role::UserData, 0x1201_8000, 0),
    ]))
    .is_ok());
}

#[test]
fn second_partition_of_a_unique_role_is_refused() {
    assert_eq!(
        violation_with(partition("boot2", Role::Bootloader, 0x1300_0000, 0x1000)),
        Violation::DuplicateRole { first: 0, second: 2 }
    );
    assert_eq!(
        violation_with(partition("app2", Role::HcpuImage, 0x1300_0000, 0x1000)),
        Violation::DuplicateRole { first: 1, second: 2 }
    );
    assert_eq!(
        validate(document(vec![
            boot(),
            app(),
            partition("fs", Role::Filesystem, 0x1300_0000, 0x1000),
            partition("fs2", Role::Filesystem, 0x1400_0000, 0x1000),
        ]))
        .unwrap_err(),
        Violation::DuplicateRole { first: 2, second: 3 }
    );
}

#[test]
fn second_reserved_partition_is_refused() {
    assert_eq!(
        validate(document(vec![
            partition("r1", Role::Reserved, 0x1300_0000, 0x1000),
            boot(),
            app(),
            partition("r2", Role::Reserved, 0x2000_0000, 0x100),
        ]))
        .unwrap_err(),
        Violation::DuplicateRole { first: 0, second: 3 }
    );
}

#[test]
fn first_violation_in_the_order_of_the_check_is_reported() {
    // Placement comes before pairs, and an earlier partition before a later.
    assert_eq!(
        validate(document(vec![
            boot(),
            partition("boot2", Role::Bootloader, 0x1201_0000, 0x1_0000),
            partition("x", Role::UserData, 0x2000_0002, 4),
            partition("y", Role::UserData, 0, 4),
        ]))
        .unwrap_err(),
        Violation::Misaligned { index: 2, field: Field::Address }
    );
    // Alignment comes before range, the address before the size.
    assert_eq!(
        violation_with(partition("x", Role::UserData, 0x3000_0002, 3)),
        Violation::Misaligned { index: 2, field: Field::Address }
    );
    assert_eq!(
        violation_with(partition("x", Role::UserData, 0x3000_0000, 3)),
        Violation::Misaligned { index: 2, field: Field::Size }
    );
    // An overlap comes before a clash of roles, pairs before missing roles.
    assert_eq!(
        validate(document(vec![
            boot(),
            partition("boot2", Role::Bootloader, 0x1201_0000, 0x1_0000),
        ]))
        .unwrap_err(),
        Violation::Overlap { first: 0, second: 1 }
    );
    assert_eq!(
        validate(document(vec![
            app(),
            partition("app2", Role::HcpuImage, 0x1300_0000, 0x1_0000),
        ]))
        .unwrap_err(),
        Violation::DuplicateRole { first: 0, second: 1 }
    );
    // The pair with the earlier first partition comes first.
    assert_eq!(
        validate(document(vec![
            boot(),
            app(),
            partition("x", Role::UserData, 0x1300_0000, 0x2000),
            partition("y", Role::UserData, 0x1300_1000, 0x2000),
            partition("z", Role::UserData, 0x1202_0000, 0x1000),
        ]))
        .unwrap_err(),
        Violation::Overlap { first: 1, second: 4 }
    );
}

#[test]
fn user_data_partitions_may_repeat() {
    assert!(validate(document(vec![
        boot(),
        app(),
        partition("r1", Role::UserData, 0x1300_0000, 0x1000),
        partition("r2", Role::UserData, 0x1400_0000, 0x1000),
        partition("r3", Role::UserData, 0x2000_0000, 0x100),
    ]))
    .is_ok());
}

#[test]
fn document_without_bootloader_is_refused() {
    assert_eq!(validate(document(vec![app()])).unwrap_err(), Violation::MissingBootloader);
    assert_eq!(validate(document(vec![])).unwrap_err(), Violation::MissingBootloader);
}

#[test]
fn document_without_core_image_is_refused() {
    assert_eq!(validate(document(vec![boot()])).unwrap_err(), Violation::MissingCoreImage);
    assert_eq!(
        validate(document(vec![
            boot(),
            partition("fs", Role::Filesystem, 0x1300_0000, 0x1000)
        ]))
        .unwrap_err(),
        Violation::MissingCoreImage
    );
}

#[test]
fn either_core_image_suffices() {
    assert!(validate(document(vec![boot(), app()])).is_ok());
    assert!(validate(document(vec![
        boot(),
        partition("radio", Role::LcpuImage, 0x2000_0000, 0x8000)
    ]))
    .is_ok());
}
