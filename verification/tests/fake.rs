use xpenology_usb::device::{
    DeviceError, RawReader, RawWriter, ReadSession, UsbEnumerator, WriteSession,
};
use xpenology_usb::fake::{FakeEnumerator, FakeReader, FakeWriter};
use xpenology_usb::model::BusType;
use xpenology_usb::safety::{self, Availability};

#[test]
fn sample_never_exposes_internal_disks() {
    let e = FakeEnumerator::sample();
    let protected = e.protected_disk_numbers().unwrap();
    let visible: Vec<_> = e
        .list_disks()
        .unwrap()
        .into_iter()
        .filter(|d| safety::availability(d, &protected).is_visible())
        .collect();
    for d in &visible {
        assert_eq!(
            d.bus_type,
            BusType::Usb,
            "a non-USB device is listed: {}",
            d.friendly_name
        );
        assert_ne!(d.number, 0, "disk 0 is listed");
    }
    assert!(!visible.iter().any(|d| d.friendly_name.contains("990 PRO")));
    assert!(!visible.iter().any(|d| d.friendly_name.contains("WDC")));
    assert!(!visible.iter().any(|d| d.size_bytes == 0));
}

#[test]
fn sample_shows_undersized_stick_as_disabled_not_hidden() {
    let e = FakeEnumerator::sample();
    let protected = e.protected_disk_numbers().unwrap();
    let disks = e.list_disks().unwrap();
    let small = disks.iter().find(|d| d.number == 4).unwrap();
    let a = safety::availability(small, &protected);
    assert!(a.is_visible(), "the 4 GB stick must be shown with its reason");
    assert!(!a.is_ready());
    assert!(matches!(a, Availability::Disabled(_)));
}

#[test]
fn sample_has_two_ready_sticks() {
    let e = FakeEnumerator::sample();
    let protected = e.protected_disk_numbers().unwrap();
    let ready = e
        .list_disks()
        .unwrap()
        .into_iter()
        .filter(|d| safety::availability(d, &protected).is_ready())
        .count();
    assert_eq!(ready, 2, "only the 32 GB and 64 GB sticks can be picked");
}

#[test]
fn fake_session_enforces_sector_alignment() {
    let mut w = FakeWriter::new(4096, 512);
    let disk = FakeEnumerator::sample().list_disks().unwrap()[2].clone();
    let mut s = w.open(&disk).unwrap();
    assert!(s.write_at(0, &[0u8; 100]).is_err());
    assert!(s.write_at(1, &[0u8; 512]).is_err());
    assert!(s.write_at(0, &[0u8; 512]).is_ok());
}

#[test]
fn fake_session_round_trips_and_records_finish() {
    let mut w = FakeWriter::new(2048, 512);
    let disk = FakeEnumerator::sample().list_disks().unwrap()[2].clone();
    let mut s = w.open(&disk).unwrap();
    let payload = [0x42u8; 1024];
    s.write_at(0, &payload).unwrap();
    let mut back = [0u8; 1024];
    s.read_at(0, &mut back).unwrap();
    assert_eq!(back, payload);
    assert!(!w.was_finished());
    s.finish().unwrap();
    assert!(w.was_finished());
}

#[test]
fn zero_tail_clears_the_end() {
    let mut w = FakeWriter::new(2048, 512);
    let disk = FakeEnumerator::sample().list_disks().unwrap()[2].clone();
    let mut s = w.open(&disk).unwrap();
    s.zero_tail(512).unwrap();
    let c = w.contents();
    assert!(c[..1536].iter().all(|b| *b == 0xAA));
    assert!(c[1536..].iter().all(|b| *b == 0));
}

#[test]
fn observed_override_reproduces_device_swap() {
    let disks = FakeEnumerator::sample().list_disks().unwrap();
    let selected = disks[2].clone();
    let mut swapped = disks[3].clone();
    swapped.number = selected.number;

    let mut w = FakeWriter::new(1024, 512).with_observed(swapped);
    let s = w.open(&selected).unwrap();
    assert!(safety::confirm_identity(&selected, s.observed()).is_err());
}

#[test]
fn a_fake_source_reads_back_what_it_was_given() {
    let data: Vec<u8> = (0..4096u32).map(|i| (i % 251) as u8).collect();
    let mut r = FakeReader::new(data.clone(), 512);
    let disk = FakeEnumerator::sample().list_disks().unwrap()[1].clone();
    let mut s = r.open(&disk).unwrap();
    assert_eq!(s.total_bytes(), 4096);
    assert_eq!(s.sector_size(), 512);
    let mut buf = vec![0u8; 1024];
    s.read_at(512, &mut buf).unwrap();
    assert_eq!(buf, data[512..1536]);
}

#[test]
fn a_fake_source_refuses_unaligned_reads_like_a_real_device_does() {
    let mut r = FakeReader::new(vec![0u8; 4096], 512);
    let disk = FakeEnumerator::sample().list_disks().unwrap()[1].clone();
    let mut s = r.open(&disk).unwrap();
    assert!(s.read_at(1, &mut vec![0u8; 512]).is_err());
    assert!(s.read_at(0, &mut vec![0u8; 511]).is_err());
}

#[test]
fn an_abnormal_sector_size_is_refused_when_opening() {
    let disk = FakeEnumerator::sample().list_disks().unwrap()[2].clone();
    assert!(matches!(
        FakeWriter::new(4096, 100).open(&disk),
        Err(DeviceError::BadSectorSize(100))
    ));
    assert!(matches!(
        FakeReader::new(vec![0u8; 4096], 0).open(&disk),
        Err(DeviceError::BadSectorSize(0))
    ));
}

#[test]
fn a_pulled_stick_fails_writes_past_the_point() {
    let mut w = FakeWriter::new(4096, 512).failing_at(1024);
    let disk = FakeEnumerator::sample().list_disks().unwrap()[2].clone();
    let mut s = w.open(&disk).unwrap();
    assert!(s.write_at(0, &[1u8; 1024]).is_ok());
    assert!(matches!(
        s.write_at(1024, &[1u8; 512]),
        Err(DeviceError::MediaChanged { .. })
    ));
    assert_eq!(w.write_offsets(), vec![0]);
}

#[test]
fn a_lying_stick_keeps_only_what_lies_before_the_point() {
    let mut w = FakeWriter::new(2048, 512).corrupting_after(512);
    let disk = FakeEnumerator::sample().list_disks().unwrap()[2].clone();
    let mut s = w.open(&disk).unwrap();
    s.write_at(0, &[7u8; 1024]).unwrap();
    let c = w.contents();
    assert!(c[..512].iter().all(|b| *b == 7));
    assert!(c[512..].iter().all(|b| *b == 0xAA));
}

#[test]
fn a_caching_stick_shows_writes_only_after_a_commit() {
    let mut w = FakeWriter::new(2048, 512).buffering();
    let disk = FakeEnumerator::sample().list_disks().unwrap()[2].clone();
    let mut s = w.open(&disk).unwrap();
    s.write_at(0, &[9u8; 512]).unwrap();
    let mut back = [0u8; 512];
    s.read_at(0, &mut back).unwrap();
    assert!(back.iter().all(|b| *b == 0xAA));
    assert!(!w.was_committed());
    s.commit().unwrap();
    assert!(w.was_committed());
    s.read_at(0, &mut back).unwrap();
    assert!(back.iter().all(|b| *b == 9));
}

#[test]
fn skipped_devices_are_reported() {
    let e = FakeEnumerator::sample().with_skipped(vec!["USB 3: capacity query failed".into()]);
    assert_eq!(e.skipped(), vec!["USB 3: capacity query failed".to_string()]);
    assert_eq!(FakeEnumerator::sample().skipped().len(), 0);
}

#[test]
fn a_commit_puts_the_cached_writes_on_in_order() {
    let mut w = FakeWriter::new(2048, 512).buffering();
    let disk = FakeEnumerator::sample().list_disks().unwrap()[2].clone();
    let mut s = w.open(&disk).unwrap();
    s.write_at(0, &[1u8; 1024]).unwrap();
    s.write_at(512, &[2u8; 512]).unwrap();
    s.commit().unwrap();
    let mut back = [0u8; 2048];
    s.read_at(0, &mut back).unwrap();
    assert!(back[..512].iter().all(|b| *b == 1));
    assert!(back[512..1024].iter().all(|b| *b == 2), "the later write did not win");
    assert!(back[1024..].iter().all(|b| *b == 0xAA));
    assert!(s.finish().is_ok());
    assert!(w.was_finished());
}

#[test]
fn a_caching_stick_that_lies_drops_the_cached_writes_past_its_point() {
    let mut w = FakeWriter::new(2048, 512).buffering().corrupting_after(512);
    let disk = FakeEnumerator::sample().list_disks().unwrap()[2].clone();
    let mut s = w.open(&disk).unwrap();
    s.write_at(0, &[5u8; 1024]).unwrap();
    s.commit().unwrap();
    let c = w.contents();
    assert!(c[..512].iter().all(|b| *b == 5));
    assert!(c[512..].iter().all(|b| *b == 0xAA));
}

#[test]
fn a_write_past_the_end_fails_with_112_and_changes_nothing() {
    let mut w = FakeWriter::new(2048, 512);
    let disk = FakeEnumerator::sample().list_disks().unwrap()[2].clone();
    let mut s = w.open(&disk).unwrap();
    assert_eq!(s.total_bytes(), 2048);
    match s.write_at(1536, &[3u8; 1024]) {
        Err(DeviceError::Io { code, .. }) => assert_eq!(code, 112),
        other => panic!("expected code 112, got {other:?}"),
    }
    let mut back = [0u8; 2048];
    s.read_at(0, &mut back).unwrap();
    assert!(back.iter().all(|b| *b == 0xAA));
    assert!(s.write_at(1024, &[3u8; 1024]).is_ok());
}
