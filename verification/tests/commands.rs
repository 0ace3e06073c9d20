use std::collections::HashSet;
use xpenology_usb::commands::list_from;
use xpenology_usb::device::DeviceError;
use xpenology_usb::device::UsbEnumerator;
use xpenology_usb::commands::{job_target, list_disks_with, loader_named, SourcePlan};
use xpenology_usb::loader::Loader;
use xpenology_usb::fake::FakeEnumerator;
use xpenology_usb::layout::{Layout, Scheme};

#[test]
fn listing_hides_internal_disks_entirely() {
    let entries = list_disks_with(&FakeEnumerator::sample()).unwrap();
    assert!(!entries.iter().any(|e| e.name.contains("990 PRO")));
    assert!(!entries.iter().any(|e| e.name.contains("WDC")));
    assert!(!entries.iter().any(|e| e.number == 0));
}

#[test]
fn listing_keeps_unusable_sticks_visible_with_a_reason() {
    let entries = list_disks_with(&FakeEnumerator::sample()).unwrap();
    let small = entries.iter().find(|e| e.number == 4).unwrap();
    assert!(!small.ready);
    assert_eq!(small.blocked_reason.as_deref(), Some("too_small_for_any_image"));
    assert!(small.blocked_detail.is_some());
}

#[test]
fn empty_card_reader_is_not_listed() {
    let entries = list_disks_with(&FakeEnumerator::sample()).unwrap();
    assert!(!entries.iter().any(|e| e.size_bytes == 0));
}

#[test]
fn ready_entries_carry_display_fields() {
    let entries = list_disks_with(&FakeEnumerator::sample()).unwrap();
    let ok = entries.iter().find(|e| e.ready).unwrap();
    assert!(ok.size_label.ends_with(" GB"), "got {}", ok.size_label);
    assert!(ok.blocked_reason.is_none());
}

#[test]
fn drive_letters_are_exposed_for_recognition() {
    let entries = list_disks_with(&FakeEnumerator::sample()).unwrap();
    let sandisk = entries.iter().find(|e| e.number == 2).unwrap();
    assert_eq!(sandisk.drive_letters, vec!["E:"]);
}

#[test]
fn the_sample_lists_three_sticks_in_order() {
    let entries = list_disks_with(&FakeEnumerator::sample()).unwrap();
    let numbers: Vec<u32> = entries.iter().map(|e| e.number).collect();
    assert_eq!(numbers, vec![2, 3, 4]);
    assert_eq!(entries[2].blocked_detail.as_deref(), Some("8.00 GB"));
    assert_eq!(entries[0].size_label, "30.8 GB");
}

#[test]
fn a_source_plan_shows_the_copy_size() {
    let p = SourcePlan::from_layout(Layout {
        bytes: 4 * 1024 * 1024,
        scheme: Scheme::Mbr,
        partitions: 1,
    });
    assert_eq!(p.bytes, 4_194_304);
    assert_eq!(p.size_label, "4.19 MB");
    assert_eq!(p.partitions, 1);
    assert_eq!(p.scheme, "MBR");
}

#[test]
fn a_loader_is_named_by_its_variant() {
    assert_eq!(loader_named("MShell"), Ok(Loader::MShell));
    assert_eq!(loader_named("Rr"), Ok(Loader::Rr));
    assert_eq!(
        loader_named("rr"),
        Err("알 수 없는 로더: rr".to_string())
    );
}

#[test]
fn a_job_looks_its_disk_up_again_by_number() {
    let e = FakeEnumerator::sample();
    let (protected, d) = job_target(&e, 2).unwrap();
    assert_eq!(d.number, 2);
    assert!(protected.contains(&0));
    assert_eq!(
        job_target(&e, 99).err().unwrap(),
        "선택한 USB를 찾을 수 없습니다"
    );
}

#[test]
fn only_usb_disks_are_listed_whatever_the_sample_holds() {
    let entries = list_disks_with(&FakeEnumerator::sample()).unwrap();
    let e = FakeEnumerator::sample();
    let disks = xpenology_usb::device::UsbEnumerator::list_disks(&e).unwrap();
    for entry in &entries {
        let d = disks.iter().find(|d| d.number == entry.number).unwrap();
        assert_eq!(d.bus_type, xpenology_usb::model::BusType::Usb);
        assert_ne!(d.number, 0);
    }
}

#[test]
fn an_enumeration_failure_comes_back_as_its_debug_text() {
    let e = DeviceError::Io { code: 21, message: "not ready".into() };
    let want = format!("{e:?}");
    match list_from(&HashSet::new(), Err(e)) {
        Err(m) => assert_eq!(m, want),
        Ok(_) => panic!("an enumeration failure was shown as a list"),
    }
    let e = FakeEnumerator::sample();
    let v = list_from(&e.protected_disk_numbers().unwrap(), Ok(e.list_disks().unwrap())).unwrap();
    assert_eq!(v.iter().map(|e| e.number).collect::<Vec<_>>(), vec![2, 3, 4]);
}
