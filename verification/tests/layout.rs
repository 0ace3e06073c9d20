use xpenology_usb::layout::{parse, LayoutError, Scheme, GPT_PROTECTIVE};

fn put(mbr: &mut [u8], slot: usize, kind: u8, start_lba: u32, sectors: u32) {
    let off = 446 + slot * 16;
    mbr[off] = 0x00;
    mbr[off + 4] = kind;
    mbr[off + 8..off + 12].copy_from_slice(&start_lba.to_le_bytes());
    mbr[off + 12..off + 16].copy_from_slice(&sectors.to_le_bytes());
}

fn blank(sector: usize) -> Vec<u8> {
    let mut v = vec![0u8; sector * 4];
    v[510] = 0x55;
    v[511] = 0xAA;
    v
}

#[test]
fn three_partitions_report_the_end_of_the_last() {
    let mut head = blank(512);
    put(&mut head, 0, 0x83, 2048, 61440);
    put(&mut head, 1, 0x83, 63488, 102400);
    put(&mut head, 2, 0x83, 165888, 9611264);
    let l = parse(&head, 32 * 1024 * 1024 * 1024, 512).unwrap();
    assert_eq!(l.bytes, 9_777_152 * 512);
    assert_eq!(l.partitions, 3);
    assert_eq!(l.scheme, Scheme::Mbr);
}

#[test]
fn a_disk_without_a_signature_is_not_a_loader() {
    let mut head = vec![0u8; 2048];
    put(&mut head, 0, 0x83, 2048, 1000);
    assert_eq!(parse(&head, 1 << 30, 512), Err(LayoutError::NoSignature));
}

#[test]
fn an_empty_table_is_not_a_loader() {
    let head = blank(512);
    assert_eq!(parse(&head, 1 << 30, 512), Err(LayoutError::NoPartitions));
}

#[test]
fn gpt_is_refused_by_its_header() {
    let mut head = blank(512);
    put(&mut head, 0, GPT_PROTECTIVE, 1, 0xFFFF_FFFF);
    head[512..520].copy_from_slice(b"EFI PART");
    assert_eq!(parse(&head, 1 << 30, 512), Err(LayoutError::Gpt));
}

#[test]
fn a_protective_mbr_is_refused_even_without_the_header() {
    let mut head = blank(512);
    put(&mut head, 0, GPT_PROTECTIVE, 1, 0xFFFF_FFFF);
    assert_eq!(parse(&head, 1 << 30, 512), Err(LayoutError::Gpt));
}

#[test]
fn a_table_pointing_past_the_device_is_refused() {
    let mut head = blank(512);
    put(&mut head, 0, 0x83, 2048, 100_000);
    let device = 1024 * 1024;
    assert_eq!(
        parse(&head, device, 512),
        Err(LayoutError::BeyondDevice {
            need: 102_048 * 512,
            have: device
        })
    );
}

#[test]
fn partition_order_in_the_table_does_not_matter() {
    let mut head = blank(512);
    put(&mut head, 0, 0x83, 100_000, 1000);
    put(&mut head, 1, 0x83, 2048, 1000);
    put(&mut head, 3, 0x83, 50_000, 1000);
    let l = parse(&head, 1 << 30, 512).unwrap();
    assert_eq!(l.bytes, 101_000 * 512);
    assert_eq!(l.partitions, 3);
}

#[test]
fn four_kilobyte_sectors_scale_the_result() {
    let mut head = blank(4096);
    put(&mut head, 0, 0x83, 256, 2048);
    let l = parse(&head, 1 << 30, 4096).unwrap();
    assert_eq!(l.bytes, 2304 * 4096);
}

#[test]
fn zero_length_entries_are_ignored() {
    let mut head = blank(512);
    put(&mut head, 0, 0x83, 2048, 1000);
    put(&mut head, 1, 0x83, 9000, 0);
    let l = parse(&head, 1 << 30, 512).unwrap();
    assert_eq!(l.partitions, 1);
    assert_eq!(l.bytes, 3048 * 512);
}

#[test]
fn a_head_shorter_than_two_sectors_is_refused() {
    let head = blank(512);
    assert_eq!(
        parse(&head[..512], 1 << 30, 512),
        Err(LayoutError::TooShort {
            need: 1024,
            have: 512
        })
    );
}

#[test]
fn a_partition_reaching_the_very_end_of_the_device_is_accepted() {
    let mut head = blank(512);
    put(&mut head, 0, 0x83, 0, 2048);
    assert_eq!(parse(&head, 2048 * 512, 512).unwrap().bytes, 2048 * 512);
}

#[test]
fn entries_of_type_zero_are_not_partitions() {
    let mut head = blank(512);
    put(&mut head, 0, 0x00, 2048, 1000);
    put(&mut head, 1, 0x83, 2048, 500);
    let l = parse(&head, 1 << 30, 512).unwrap();
    assert_eq!(l.partitions, 1);
    assert_eq!(l.bytes, 2548 * 512);
}

#[test]
fn the_slot_a_partition_sits_in_does_not_change_the_layout() {
    let mut a = blank(512);
    put(&mut a, 0, 0x83, 2048, 6144);
    put(&mut a, 1, 0x0C, 100, 1000);
    let mut b = blank(512);
    put(&mut b, 3, 0x83, 2048, 6144);
    put(&mut b, 2, 0x0C, 100, 1000);
    let la = parse(&a, 1 << 30, 512).unwrap();
    let lb = parse(&b, 1 << 30, 512).unwrap();
    assert_eq!(la.bytes, lb.bytes);
    assert_eq!(la.bytes, 8192 * 512);
    assert_eq!(la.partitions, 2);
    assert_eq!(lb.partitions, 2);
}
