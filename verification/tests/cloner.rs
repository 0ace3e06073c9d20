use std::collections::HashSet;
use xpenology_usb::cloner::{analyze, run, CloneConfig, CloneError};
use xpenology_usb::device::UsbEnumerator;
use xpenology_usb::fake::{FakeEnumerator, FakeReader, FakeWriter};
use xpenology_usb::layout::LayoutError;
use xpenology_usb::model::{BusType, DiskInfo};
use xpenology_usb::pipeline::{Cancel, NeverCancel};
use xpenology_usb::safety::{availability, Rejection};

const SECTOR: u32 = 512;

/// A failure after the target was erased wraps its cause; unwraps it.
fn cause(e: &CloneError) -> &CloneError {
    match e {
        CloneError::TargetErased { cause } => cause,
        other => other,
    }
}

/// A source disk image with one partition that ends at `end_lba`.
fn source_image(device_bytes: usize, end_lba: u32) -> Vec<u8> {
    let mut v: Vec<u8> = (0..device_bytes).map(|i| (i % 251) as u8).collect();
    for b in v[..512].iter_mut() {
        *b = 0;
    }
    let off = 446;
    v[off + 4] = 0x83;
    v[off + 8..off + 12].copy_from_slice(&2048u32.to_le_bytes());
    v[off + 12..off + 16].copy_from_slice(&(end_lba - 2048).to_le_bytes());
    v[510] = 0x55;
    v[511] = 0xAA;
    v
}

fn sticks() -> (DiskInfo, DiskInfo, HashSet<u32>) {
    let e = FakeEnumerator::sample();
    let protected = e.protected_disk_numbers().unwrap();
    let usable: Vec<DiskInfo> = e
        .list_disks()
        .unwrap()
        .into_iter()
        .filter(|d| availability(d, &protected).is_ready())
        .collect();
    (usable[0].clone(), usable[1].clone(), protected)
}

fn clone_with<C: Cancel>(
    verify: bool,
    a: &DiskInfo,
    b: &DiskInfo,
    protected: &HashSet<u32>,
    reader: &mut FakeReader,
    writer: &mut FakeWriter,
    cancel: &C,
) -> Result<xpenology_usb::cloner::CloneSummary, CloneError> {
    run(CloneConfig { verify }, a, b, protected, reader, writer, cancel, |_| {})
}

#[test]
fn a_clone_reproduces_the_source_bytes() {
    let (a, b, protected) = sticks();
    let img = source_image(8 * 1024 * 1024, 8192);
    let mut reader = FakeReader::new(img.clone(), SECTOR);
    let mut writer = FakeWriter::new(16 * 1024 * 1024, SECTOR);

    let s = clone_with(false, &a, &b, &protected, &mut reader, &mut writer, &NeverCancel).unwrap();

    assert_eq!(s.bytes_copied, 8192 * 512);
    assert_eq!(&writer.contents()[..8192 * 512], &img[..8192 * 512]);
    assert!(writer.was_finished());
}

#[test]
fn nothing_is_written_when_the_source_cannot_be_analyzed() {
    let (a, b, protected) = sticks();
    let mut reader = FakeReader::new(vec![0u8; 1024 * 1024], SECTOR);
    let mut writer = FakeWriter::new(16 * 1024 * 1024, SECTOR);

    let e = clone_with(false, &a, &b, &protected, &mut reader, &mut writer, &NeverCancel).unwrap_err();

    assert!(matches!(e, CloneError::Layout(LayoutError::NoSignature)));
    assert!(!writer.was_opened(), "the target was opened: it is already erased");
    assert!(writer.write_offsets().is_empty(), "the target was written");
    assert!(!writer.was_finished());
}

#[test]
fn a_gpt_source_is_refused_before_the_target_is_touched() {
    let (a, b, protected) = sticks();
    let mut img = vec![0u8; 1024 * 1024];
    img[510] = 0x55;
    img[511] = 0xAA;
    img[512..520].copy_from_slice(b"EFI PART");
    let mut reader = FakeReader::new(img, SECTOR);
    let mut writer = FakeWriter::new(16 * 1024 * 1024, SECTOR);

    let e = clone_with(false, &a, &b, &protected, &mut reader, &mut writer, &NeverCancel).unwrap_err();

    assert!(matches!(e, CloneError::Layout(LayoutError::Gpt)));
    assert!(!writer.was_opened());
    assert!(writer.write_offsets().is_empty());
}

#[test]
fn cloning_a_disk_onto_itself_is_refused_before_the_target_is_touched() {
    let (a, _, protected) = sticks();
    let mut reader = FakeReader::new(source_image(8 * 1024 * 1024, 8192), SECTOR);
    let mut writer = FakeWriter::new(16 * 1024 * 1024, SECTOR);

    let e = clone_with(false, &a, &a, &protected, &mut reader, &mut writer, &NeverCancel).unwrap_err();

    assert!(matches!(e, CloneError::Rejected(Rejection::SameDisk)));
    assert!(!writer.was_opened());
    assert!(writer.write_offsets().is_empty());
}

#[test]
fn only_the_partitioned_region_is_copied() {
    let (a, b, protected) = sticks();
    let img = source_image(8 * 1024 * 1024, 8192);
    let mut reader = FakeReader::new(img, SECTOR);
    let mut writer = FakeWriter::new(16 * 1024 * 1024, SECTOR);

    let s = clone_with(false, &a, &b, &protected, &mut reader, &mut writer, &NeverCancel).unwrap();

    assert_eq!(s.bytes_copied, 4 * 1024 * 1024);
    assert_eq!(s.partitions, 1);
}

#[test]
fn cloner_the_partition_table_is_written_last() {
    let (a, b, protected) = sticks();
    let img = source_image(8 * 1024 * 1024, 8192);
    let mut reader = FakeReader::new(img, SECTOR);
    let mut writer = FakeWriter::new(16 * 1024 * 1024, SECTOR);

    clone_with(false, &a, &b, &protected, &mut reader, &mut writer, &NeverCancel).unwrap();

    let offsets = writer.write_offsets();
    assert!(offsets.len() > 1, "one write shows no order");
    assert_eq!(*offsets.last().unwrap(), 0, "offset 0 is not last");
    assert!(
        offsets[..offsets.len() - 1].iter().all(|&o| o > 0),
        "offset 0 written more than once"
    );
}

#[test]
fn verify_catches_a_target_that_lies_about_writing() {
    let (a, b, protected) = sticks();
    let img = source_image(8 * 1024 * 1024, 8192);
    let mut reader = FakeReader::new(img, SECTOR);
    let mut writer = FakeWriter::new(16 * 1024 * 1024, SECTOR).corrupting_after(2 * 1024 * 1024);

    let e = clone_with(true, &a, &b, &protected, &mut reader, &mut writer, &NeverCancel).unwrap_err();

    assert!(
        matches!(cause(&e), CloneError::VerifyMismatch { .. }),
        "got: {e:?}"
    );
}

#[test]
fn a_source_that_disappears_mid_copy_is_reported_as_a_failure() {
    let (a, b, protected) = sticks();
    let mut reader =
        FakeReader::new(source_image(8 * 1024 * 1024, 8192), SECTOR).failing_at(2 * 1024 * 1024);
    let mut writer = FakeWriter::new(16 * 1024 * 1024, SECTOR);

    let e = clone_with(false, &a, &b, &protected, &mut reader, &mut writer, &NeverCancel).unwrap_err();

    assert!(matches!(cause(&e), CloneError::Source(_)), "got: {e:?}");
}

struct Always;

impl Cancel for Always {
    fn is_canceled(&self) -> bool {
        true
    }
}

#[test]
fn cancelling_stops_the_copy() {
    let (a, b, protected) = sticks();
    let mut reader = FakeReader::new(source_image(8 * 1024 * 1024, 8192), SECTOR);
    let mut writer = FakeWriter::new(16 * 1024 * 1024, SECTOR);

    let e = clone_with(false, &a, &b, &protected, &mut reader, &mut writer, &Always).unwrap_err();

    assert!(matches!(e, CloneError::Canceled));
    assert!(!writer.was_opened(), "canceled, yet the target was opened");
    assert!(writer.write_offsets().is_empty());
}

#[test]
fn analyze_reports_the_copy_size_without_touching_anything() {
    let (a, _, protected) = sticks();
    let mut reader = FakeReader::new(source_image(8 * 1024 * 1024, 8192), SECTOR);
    let l = analyze(&mut reader, &a, &protected).unwrap();
    assert_eq!(l.bytes, 4 * 1024 * 1024);
    assert_eq!(l.partitions, 1);
}

#[test]
fn analyze_refuses_a_disk_that_should_never_be_listed() {
    let e = FakeEnumerator::sample();
    let protected = e.protected_disk_numbers().unwrap();
    let internal = e
        .list_disks()
        .unwrap()
        .into_iter()
        .find(|d| d.bus_type != BusType::Usb)
        .expect("the sample holds an internal disk");
    let mut reader = FakeReader::new(source_image(8 * 1024 * 1024, 8192), SECTOR);
    assert!(matches!(
        analyze(&mut reader, &internal, &protected).unwrap_err(),
        CloneError::Rejected(_)
    ));
}

#[test]
fn a_source_swapped_after_selection_is_caught() {
    let (a, b, protected) = sticks();
    let mut other = a.clone();
    other.friendly_name = "다른 장치".into();
    let mut reader =
        FakeReader::new(source_image(8 * 1024 * 1024, 8192), SECTOR).with_observed(other);
    let mut writer = FakeWriter::new(16 * 1024 * 1024, SECTOR);

    let e = clone_with(false, &a, &b, &protected, &mut reader, &mut writer, &NeverCancel).unwrap_err();

    assert!(matches!(e, CloneError::SourceIdentityChanged { .. }));
    assert!(!writer.was_opened());
    assert!(writer.write_offsets().is_empty());
}

#[test]
fn cloner_a_failure_after_the_target_is_opened_says_the_target_is_already_erased() {
    let (a, b, protected) = sticks();
    let mut reader = FakeReader::new(source_image(8 * 1024 * 1024, 8192), SECTOR);
    let mut writer = FakeWriter::new(16 * 1024 * 1024, SECTOR).failing_at(2 * 1024 * 1024);

    let e = clone_with(false, &a, &b, &protected, &mut reader, &mut writer, &NeverCancel).unwrap_err();

    assert!(writer.was_opened(), "must reproduce a failure after opening");
    assert!(
        matches!(e, CloneError::TargetErased { .. }),
        "a failure after erasing was passed up bare: {e:?}"
    );
    assert!(format!("{e:?}").contains("MediaChanged"), "the cause is lost: {e:?}");
}

#[test]
fn a_swapped_source_reports_which_field_diverged() {
    let (a, b, protected) = sticks();
    let mut other = a.clone();
    other.friendly_name = "다른 장치".into();
    let mut reader =
        FakeReader::new(source_image(8 * 1024 * 1024, 8192), SECTOR).with_observed(other);
    let mut writer = FakeWriter::new(16 * 1024 * 1024, SECTOR);

    let e = clone_with(false, &a, &b, &protected, &mut reader, &mut writer, &NeverCancel).unwrap_err();

    let text = format!("{e:?}");
    assert!(text.contains("다른 장치"), "the diverging value was dropped: {text}");
    assert!(text.contains("이름이 다릅니다"), "got: {text}");
}

#[test]
fn a_clone_with_verify_reports_it_verified() {
    let (a, b, protected) = sticks();
    let img = source_image(8 * 1024 * 1024, 8192);
    let mut reader = FakeReader::new(img.clone(), SECTOR);
    let mut writer = FakeWriter::new(16 * 1024 * 1024, SECTOR);

    let s = clone_with(true, &a, &b, &protected, &mut reader, &mut writer, &NeverCancel).unwrap();

    assert!(s.verified);
    assert_eq!(s.source_name, a.friendly_name);
    assert_eq!(s.target_name, b.friendly_name);
    assert_eq!(&writer.contents()[..8192 * 512], &img[..8192 * 512]);
}
