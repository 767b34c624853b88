//! The flash table: what is applied, and the bytes that come out.

use sifli_flash_table::ftab::compare::{conforms, differing_words, tolerated};
use sifli_flash_table::ftab::layout::{
    code_length, image_of, role_tag, slot_of, Slot, BOOTLOADER_CODE_LENGTH_OFFSET, DEVICE_OFFSET,
    FTAB_LEN, HCPU_CODE_LENGTH_OFFSET, IMAGES_OFFSET, IMAGE_HEADER_LEN, IMAGE_LEN, LENGTH_OFFSET,
    MAGIC, MAGIC_OFFSET, SLOTS_OFFSET, SLOT_COUNT, SLOT_LEN, VERSION_OFFSET,
};
use sifli_flash_table::ftab::{FlashTable, PopulatedTable, UnknownRole};
use sifli_flash_table::ptab::model::{Device, Document, Flags, Partition, Role};
use sifli_flash_table::ptab::parse;
use sifli_flash_table::ptab::rules::validate;

const REFERENCE_DOCUMENT: &str = r#"{
  "version": 1,
  "device": 52,
  "partitions": [
    { "name": "bootloader", "role": "bootloader", "address": 0x12010000,
      "size": 0x10000, "flags": ["executable", "load_at_boot"] },
    { "name": "hcpu", "role": "hcpu", "address": 0x12020000,
      "size": 0x200000, "flags": ["executable"] },
    { "name": "lcpu", "role": "lcpu", "address": 0x20000000,
      "size": 0x8000, "flags": ["load_at_boot"] }
  ]
}"#;

fn put(bytes: &mut [u8], offset: usize, word: u32) {
    bytes[offset..offset + 4].copy_from_slice(&word.to_le_bytes());
}

fn word(bytes: &[u8], offset: usize) -> u32 {
    u32::from_le_bytes([bytes[offset], bytes[offset + 1], bytes[offset + 2], bytes[offset + 3]])
}

/// The table that the reference document must give, written out word by
/// word.
fn reference_table() -> Vec<u8> {
    let mut bytes = vec![0u8; 0x1600];
    put(&mut bytes, 0x0000, 0x5345_4346);
    put(&mut bytes, 0x0004, 1);
    put(&mut bytes, 0x0008, 52);
    put(&mut bytes, 0x000c, 0x1600);
    // bootloader
    put(&mut bytes, 0x0010, 0x1201_0000);
    put(&mut bytes, 0x0014, 0x0001_0000);
    put(&mut bytes, 0x0018, 0x0000_0301);
    // high-performance core
    put(&mut bytes, 0x0020, 0x1202_0000);
    put(&mut bytes, 0x0024, 0x0020_0000);
    put(&mut bytes, 0x0028, 0x0000_0102);
    // low-power core
    put(&mut bytes, 0x0030, 0x2000_0000);
    put(&mut bytes, 0x0034, 0x0000_8000);
    put(&mut bytes, 0x0038, 0x0000_0203);
    // code lengths
    put(&mut bytes, 0x1000, 0x0000_7fe0);
    put(&mut bytes, 0x1200, 0x001f_ffe0);
    put(&mut bytes, 0x1400, 0x0000_ffe0);
    bytes
}

fn build(text: &str) -> PopulatedTable {
    FlashTable::new().apply(&parse(text).unwrap()).unwrap()
}

fn partition(name: &str, role: Role, address: u64, size: u64, flags: Flags) -> Partition {
    Partition { name: name.as_bytes().to_vec(), role, address, size, flags }
}

fn table_of(version: u32, partitions: Vec<Partition>) -> Result<PopulatedTable, UnknownRole> {
    let table = validate(Document { version, device: Device::Sf32lb52, partitions }).unwrap();
    FlashTable::new().apply(&table)
}

fn boot() -> Partition {
    partition("boot", Role::Bootloader, 0x1201_0000, 0x1_0000, Flags::none())
}

fn app() -> Partition {
    partition("app", Role::HcpuImage, 0x1202_0000, 0x20_0000, Flags::none())
}

#[test]
fn test_ptab_ftab_conversion() {
    let ptab = parse(REFERENCE_DOCUMENT).expect("Failed to parse PTAB JSON");
    let ftab = FlashTable::new().apply(&ptab).expect("Failed to apply PTAB");
    let generated_bytes = ftab.to_bytes();

    // A reference as the vendor's tools make it: the two code lengths count
    // eight bytes of start-up code more, and the image is longer.
    let mut reference_bytes = reference_table();
    put(&mut reference_bytes, 0x1200, 0x001f_ffe8);
    put(&mut reference_bytes, 0x1400, 0x0000_ffe8);
    reference_bytes.extend_from_slice(&[0xff; 8]);

    let diff_addresses = differing_words(&generated_bytes, &reference_bytes);
    assert_eq!(diff_addresses, vec![0x1200, 0x1400]);
    let filtered_diffs: Vec<usize> = diff_addresses
        .into_iter()
        .filter(|&addr| addr != 0x1200 && addr != 0x1400)
        .collect();
    assert!(
        filtered_diffs.is_empty(),
        "Unexpected differences found at addresses: {:?}",
        filtered_diffs
    );
    assert!(conforms(&generated_bytes, &reference_bytes));
}

#[test]
fn reference_document_gives_the_reference_table_byte_for_byte() {
    let bytes = build(REFERENCE_DOCUMENT).to_bytes();
    let reference = reference_table();
    assert_eq!(bytes.len(), reference.len());
    for offset in 0..bytes.len() {
        assert_eq!(bytes[offset], reference[offset], "offset {:#x}", offset);
    }
    assert!(differing_words(&bytes, &reference).is_empty());
    assert!(conforms(&bytes, &reference));
}

#[test]
fn layout_constants() {
    assert_eq!(FTAB_LEN, 0x1600);
    assert_eq!(MAGIC, 0x5345_4346);
    assert_eq!(MAGIC_OFFSET, 0);
    assert_eq!(VERSION_OFFSET, 4);
    assert_eq!(DEVICE_OFFSET, 8);
    assert_eq!(LENGTH_OFFSET, 12);
    assert_eq!(SLOTS_OFFSET, 16);
    assert_eq!(SLOT_LEN, 16);
    assert_eq!(SLOT_COUNT, 16);
    assert_eq!(IMAGES_OFFSET, 0x1000);
    assert_eq!(IMAGE_LEN, 0x200);
    assert_eq!(IMAGE_HEADER_LEN, 32);
    assert_eq!(HCPU_CODE_LENGTH_OFFSET, 0x1200);
    assert_eq!(BOOTLOADER_CODE_LENGTH_OFFSET, 0x1400);
}

#[test]
fn roles_and_their_slots_images_and_tags() {
    assert_eq!(slot_of(Role::Bootloader), Some(0));
    assert_eq!(slot_of(Role::HcpuImage), Some(1));
    assert_eq!(slot_of(Role::LcpuImage), Some(2));
    assert_eq!(slot_of(Role::Filesystem), Some(3));
    assert_eq!(slot_of(Role::Reserved), Some(4));
    assert_eq!(slot_of(Role::UserData), None);
    assert_eq!(image_of(Role::LcpuImage), Some(0));
    assert_eq!(image_of(Role::HcpuImage), Some(1));
    assert_eq!(image_of(Role::Bootloader), Some(2));
    assert_eq!(image_of(Role::Filesystem), None);
    assert_eq!(image_of(Role::Reserved), None);
    assert_eq!(image_of(Role::UserData), None);
    assert_eq!(role_tag(Role::Bootloader), 1);
    assert_eq!(role_tag(Role::HcpuImage), 2);
    assert_eq!(role_tag(Role::LcpuImage), 3);
    assert_eq!(role_tag(Role::Filesystem), 4);
    assert_eq!(role_tag(Role::Reserved), 5);
    assert_eq!(role_tag(Role::UserData), 6);
}

#[test]
fn code_length_leaves_out_the_image_header() {
    assert_eq!(code_length(0x1_0000), 0xffe0);
    assert_eq!(code_length(33), 1);
    assert_eq!(code_length(32), 0);
    assert_eq!(code_length(31), 0);
    assert_eq!(code_length(0), 0);
    assert_eq!(code_length(0xffff_ffff), 0xffff_ffdf);
}

#[test]
fn bytes_have_the_fixed_length_whatever_the_partitions() {
    assert_eq!(build(REFERENCE_DOCUMENT).to_bytes().len(), 0x1600);
    assert_eq!(table_of(1, vec![boot(), app()]).unwrap().to_bytes().len(), 0x1600);
    let many = vec![
        boot(),
        app(),
        partition("radio", Role::LcpuImage, 0x2000_0000, 0x8000, Flags::none()),
        partition("fs", Role::Filesystem, 0x1300_0000, 0x10_0000, Flags::none()),
    ];
    assert_eq!(table_of(1, many).unwrap().to_bytes().len(), 0x1600);
}

#[test]
fn empty_table_is_zero_but_for_magic_and_length() {
    let bytes = FlashTable::new().to_bytes();
    assert_eq!(bytes.len(), 0x1600);
    assert_eq!(word(&bytes, 0), 0x5345_4346);
    assert_eq!(word(&bytes, 12), 0x1600);
    assert!(bytes[4..12].iter().all(|&b| b == 0));
    assert!(bytes[16..].iter().all(|&b| b == 0));
}

#[test]
fn header_holds_magic_and_length() {
    let bytes = table_of(9, vec![boot(), app()]).unwrap().to_bytes();
    assert_eq!(&bytes[0..4], &[0x46, 0x43, 0x45, 0x53]);
    assert_eq!(&bytes[12..16], &[0x00, 0x16, 0x00, 0x00]);
}

#[test]
fn version_and_device_stand_unchanged_in_the_bytes() {
    for version in [0u32, 1, 0x0102_0304, u32::MAX] {
        let table = table_of(version, vec![boot(), app()]).unwrap();
        assert_eq!(table.version(), version);
        assert_eq!(table.device(), 52);
        let bytes = table.to_bytes();
        assert_eq!(word(&bytes, 4), version);
        assert_eq!(word(&bytes, 8), 52);
    }
    let bytes = table_of(0x0102_0304, vec![boot(), app()]).unwrap().to_bytes();
    assert_eq!(&bytes[4..8], &[0x04, 0x03, 0x02, 0x01]);
    assert_eq!(&bytes[8..12], &[52, 0, 0, 0]);
}

#[test]
fn each_partition_goes_to_the_slot_of_its_role() {
    let flags = Flags { executable: true, load_at_boot: false, secure: true };
    let table = table_of(
        1,
        vec![
            partition("fs", Role::Filesystem, 0x1300_0000, 0x10_0000, flags),
            partition("radio", Role::LcpuImage, 0x2000_1000, 0x4000, Flags::none()),
            boot(),
        ],
    )
    .unwrap();
    assert_eq!(
        table.slot(Role::Filesystem),
        Some(Slot { address: 0x1300_0000, length: 0x10_0000, tag: 0x0504 })
    );
    assert_eq!(
        table.slot(Role::LcpuImage),
        Some(Slot { address: 0x2000_1000, length: 0x4000, tag: 3 })
    );
    assert_eq!(
        table.slot(Role::Bootloader),
        Some(Slot { address: 0x1201_0000, length: 0x1_0000, tag: 1 })
    );
    assert_eq!(table.slot(Role::HcpuImage), Some(Slot::empty()));
    assert_eq!(table.slot(Role::Reserved), Some(Slot::empty()));
    assert_eq!(table.slot(Role::UserData), None);
    assert_eq!(table.image_code_length(Role::LcpuImage), Some(0x3fe0));
    assert_eq!(table.image_code_length(Role::Bootloader), Some(0xffe0));
    assert_eq!(table.image_code_length(Role::HcpuImage), Some(0));
    assert_eq!(table.image_code_length(Role::Filesystem), None);
    assert_eq!(table.image_code_length(Role::Reserved), None);
    assert_eq!(table.image_code_length(Role::UserData), None);

    let bytes = table.to_bytes();
    assert_eq!(word(&bytes, 0x10), 0x1201_0000);
    assert_eq!(word(&bytes, 0x14), 0x1_0000);
    assert_eq!(word(&bytes, 0x18), 1);
    assert_eq!(word(&bytes, 0x1c), 0);
    assert_eq!(word(&bytes, 0x30), 0x2000_1000);
    assert_eq!(word(&bytes, 0x34), 0x4000);
    assert_eq!(word(&bytes, 0x38), 3);
    assert_eq!(word(&bytes, 0x40), 0x1300_0000);
    assert_eq!(word(&bytes, 0x44), 0x10_0000);
    assert_eq!(word(&bytes, 0x48), 0x0504);
    assert_eq!(word(&bytes, 0x1000), 0x3fe0);
    assert_eq!(word(&bytes, 0x1400), 0xffe0);
}

#[test]
fn reserved_partition_has_a_slot_of_its_own() {
    let table = table_of(
        1,
        vec![
            boot(),
            app(),
            partition("vendor", Role::Reserved, 0x1fff_0000, 0x1_0000, Flags::none()),
        ],
    )
    .unwrap();
    assert_eq!(
        table.slot(Role::Reserved),
        Some(Slot { address: 0x1fff_0000, length: 0x1_0000, tag: 5 })
    );
    let bytes = table.to_bytes();
    assert_eq!(word(&bytes, 0x50), 0x1fff_0000);
    assert_eq!(word(&bytes, 0x54), 0x1_0000);
    assert_eq!(word(&bytes, 0x58), 5);
    assert_eq!(word(&bytes, 0x5c), 0);
}

#[test]
fn tag_holds_the_flags_above_the_role() {
    let all = Flags { executable: true, load_at_boot: true, secure: true };
    let table = table_of(
        1,
        vec![partition("boot", Role::Bootloader, 0x1201_0000, 0x1_0000, all), app()],
    )
    .unwrap();
    assert_eq!(table.slot(Role::Bootloader).unwrap().tag, 0x0701);
    assert_eq!(table.slot(Role::HcpuImage).unwrap().tag, 0x0002);
}

#[test]
fn absent_role_leaves_its_slot_and_code_length_zero() {
    let table = table_of(1, vec![boot(), app()]).unwrap();
    assert_eq!(table.slot(Role::LcpuImage), Some(Slot::empty()));
    assert_eq!(table.slot(Role::Filesystem), Some(Slot::empty()));
    assert_eq!(Slot::empty(), Slot { address: 0, length: 0, tag: 0 });
    assert_eq!(table.image_code_length(Role::LcpuImage), Some(0));
    let bytes = table.to_bytes();
    assert!(bytes[0x30..0x50].iter().all(|&b| b == 0));
    assert!(bytes[0x1000..0x1200].iter().all(|&b| b == 0));
}

#[test]
fn every_byte_outside_the_fields_is_zero() {
    let bytes = build(REFERENCE_DOCUMENT).to_bytes();
    assert!(bytes[0x50..0x1000].iter().all(|&b| b == 0));
    assert!(bytes[0x1004..0x1200].iter().all(|&b| b == 0));
    assert!(bytes[0x1204..0x1400].iter().all(|&b| b == 0));
    assert!(bytes[0x1404..0x1600].iter().all(|&b| b == 0));
    for slot in 0..3 {
        assert_eq!(word(&bytes, 0x10 + 16 * slot + 12), 0);
    }
}

#[test]
fn no_state_leaks_from_one_conversion_to_the_next() {
    let full = vec![
        boot(),
        app(),
        partition("radio", Role::LcpuImage, 0x2000_0000, 0x8000, Flags::none()),
        partition("fs", Role::Filesystem, 0x1300_0000, 0x10_0000, Flags::none()),
    ];
    let first = table_of(1, full).unwrap().to_bytes();
    assert_ne!(word(&first, 0x30), 0);
    let second = table_of(1, vec![boot(), app()]).unwrap().to_bytes();
    assert!(second[0x30..0x50].iter().all(|&b| b == 0));
    assert_eq!(word(&second, 0x1000), 0);
}

#[test]
fn partition_without_a_slot_is_an_unknown_role() {
    let result = table_of(
        1,
        vec![
            boot(),
            app(),
            partition("log", Role::UserData, 0x1300_0000, 0x1000, Flags::none()),
            partition("log2", Role::UserData, 0x1400_0000, 0x1000, Flags::none()),
        ],
    );
    assert_eq!(result.unwrap_err(), UnknownRole { index: 2, role: Role::UserData });
    let result = table_of(
        1,
        vec![partition("log", Role::UserData, 0x1300_0000, 0x1000, Flags::none()), boot(), app()],
    );
    assert_eq!(result.unwrap_err(), UnknownRole { index: 0, role: Role::UserData });
}

#[test]
fn same_input_gives_the_same_bytes() {
    let first = build(REFERENCE_DOCUMENT).to_bytes();
    let second = build(REFERENCE_DOCUMENT).to_bytes();
    assert_eq!(first, second);
    let table = build(REFERENCE_DOCUMENT);
    assert_eq!(table.to_bytes(), table.to_bytes());
}

#[test]
fn order_and_names_of_partitions_do_not_change_the_bytes() {
    let radio = || partition("radio", Role::LcpuImage, 0x2000_0000, 0x8000, Flags::none());
    let one = table_of(3, vec![boot(), app(), radio()]).unwrap().to_bytes();
    let renamed = partition("other name", Role::LcpuImage, 0x2000_0000, 0x8000, Flags::none());
    let other = table_of(3, vec![renamed, app(), boot()]).unwrap().to_bytes();
    assert_eq!(one, other);
}

#[test]
fn differing_words_are_reported_in_ascending_order() {
    let a = vec![0u8; 20];
    let mut b = vec![0u8; 20];
    assert!(differing_words(&a, &b).is_empty());
    b[17] = 1;
    b[4] = 1;
    b[7] = 9;
    b[8] = 2;
    assert_eq!(differing_words(&a, &b), vec![4, 8, 16]);
    assert_eq!(differing_words(&b, &a), vec![4, 8, 16]);
}

#[test]
fn only_whole_words_that_both_images_have_are_compared() {
    let a = [1u8, 2, 3, 4, 5, 6, 7, 8, 9, 10];
    let b = [1u8, 2, 3, 0, 5, 6, 7, 8, 0];
    assert_eq!(differing_words(&a, &b), vec![0]);
    assert_eq!(differing_words(&a[..3], &b[..3]), Vec::<usize>::new());
    assert_eq!(differing_words(&a, &[]), Vec::<usize>::new());
    assert_eq!(differing_words(&a, &b[..7]), vec![0]);
}

#[test]
fn tolerated_offsets_are_the_two_code_lengths() {
    assert!(tolerated(0x1200));
    assert!(tolerated(0x1400));
    assert!(!tolerated(0x1000));
    assert!(!tolerated(0x1204));
    assert!(!tolerated(0));
}

#[test]
fn conformity_tolerates_the_two_code_lengths_only() {
    let table = build(REFERENCE_DOCUMENT).to_bytes();
    let mut reference = table.clone();
    reference[0x1200] ^= 0xff;
    reference[0x1203] ^= 0x01;
    reference[0x1402] ^= 0x80;
    assert!(conforms(&table, &reference));
    for offset in [0usize, 4, 0x10, 0x11ff, 0x1204, 0x1000, 0x13ff, 0x1404, 0x15ff] {
        let mut other = reference.clone();
        other[offset] ^= 0x01;
        assert!(!conforms(&table, &other), "offset {:#x}", offset);
    }
}

#[test]
fn reference_shorter_than_the_table_does_not_conform() {
    let table = build(REFERENCE_DOCUMENT).to_bytes();
    assert!(!conforms(&table, &table[..table.len() - 1]));
    let mut longer = table.clone();
    longer.push(7);
    assert!(conforms(&table, &longer));
    assert!(!conforms(&longer, &table));
}
