use xpenology_usb::device::{MemorySource, RawWriter, UsbEnumerator, WriteSession};
use xpenology_usb::fake::{FakeEnumerator, FakeWriter};
use xpenology_usb::model::DiskInfo;
use xpenology_usb::pipeline::{NeverCancel, ProgressReporter};
use xpenology_usb::sink::{stream, verify, zero_tail, SinkError, BLOCK, HOLDBACK, TAIL_ZERO};

fn disk() -> DiskInfo {
    FakeEnumerator::sample()
        .list_disks()
        .unwrap()
        .into_iter()
        .find(|d| d.number == 2)
        .expect("the sample has a USB stick")
}

#[test]
fn an_empty_source_is_a_failure_not_a_silent_success() {
    let mut w = FakeWriter::new(16 * 1024 * 1024, 512);
    let mut s = w.open(&disk()).unwrap();
    let mut rep = ProgressReporter::new(|_| {});
    let out = stream(
        &mut MemorySource::new(Vec::new()),
        &mut s,
        Some(0),
        &NeverCancel,
        &mut rep,
    );
    assert!(matches!(out, Err(SinkError::EmptySource)));
    assert!(w.write_offsets().is_empty());
}

#[test]
fn a_stream_shorter_than_the_holdback_reports_what_the_device_actually_holds() {
    let mut w = FakeWriter::new(16 * 1024 * 1024, 512);
    let mut s = w.open(&disk()).unwrap();
    let mut rep = ProgressReporter::new(|_| {});
    let out = stream(
        &mut MemorySource::new(vec![0x5Au8; 700]),
        &mut s,
        Some(700),
        &NeverCancel,
        &mut rep,
    )
    .unwrap();
    assert_eq!(out.bytes, 1024);
}

#[test]
fn a_short_write_is_not_reported_as_a_lying_device() {
    let mut w = FakeWriter::new(16 * 1024 * 1024, 512);
    let mut s = w.open(&disk()).unwrap();
    let mut rep = ProgressReporter::new(|_| {});
    let out = stream(
        &mut MemorySource::new(vec![0x5Au8; 700]),
        &mut s,
        Some(700),
        &NeverCancel,
        &mut rep,
    )
    .unwrap();

    let mut rep2 = ProgressReporter::new(|_| {});
    verify(&mut s, out.bytes, &out.hash, &out.blocks, &NeverCancel, &mut rep2)
        .expect("a sound write was reported as faulty");
}

#[test]
fn a_mismatch_says_which_block_went_wrong() {
    let mut w = FakeWriter::new(16 * 1024 * 1024, 512);
    let mut s = w.open(&disk()).unwrap();
    let mut rep = ProgressReporter::new(|_| {});
    let payload: Vec<u8> = (0..(5 * BLOCK as usize)).map(|i| (i % 251) as u8).collect();
    let out = stream(
        &mut MemorySource::new(payload),
        &mut s,
        None,
        &NeverCancel,
        &mut rep,
    )
    .unwrap();

    let corrupt_at = 3 * BLOCK + 4096;
    let mut sector = vec![0u8; 512];
    s.read_at(corrupt_at, &mut sector).unwrap();
    sector[0] ^= 0xFF;
    s.write_at(corrupt_at, &sector).unwrap();
    s.commit().unwrap();

    let mut rep2 = ProgressReporter::new(|_| {});
    let err = verify(&mut s, out.bytes, &out.hash, &out.blocks, &NeverCancel, &mut rep2)
        .unwrap_err();
    assert!(
        matches!(err, SinkError::VerifyMismatch { at } if at == 3 * BLOCK),
        "the diverging block was not named: {err:?}"
    );
}

#[test]
fn a_mismatch_in_the_partition_table_points_at_offset_zero() {
    let mut w = FakeWriter::new(16 * 1024 * 1024, 512);
    let mut s = w.open(&disk()).unwrap();
    let mut rep = ProgressReporter::new(|_| {});
    let payload: Vec<u8> = (0..(3 * BLOCK as usize)).map(|i| (i % 251) as u8).collect();
    let out = stream(
        &mut MemorySource::new(payload),
        &mut s,
        None,
        &NeverCancel,
        &mut rep,
    )
    .unwrap();

    let mut first = vec![0u8; 512];
    s.read_at(0, &mut first).unwrap();
    first[440..444].copy_from_slice(&[0xDE, 0xAD, 0xBE, 0xEF]);
    s.write_at(0, &first).unwrap();
    s.commit().unwrap();

    let mut rep2 = ProgressReporter::new(|_| {});
    let err = verify(&mut s, out.bytes, &out.hash, &out.blocks, &NeverCancel, &mut rep2)
        .unwrap_err();
    assert!(
        matches!(err, SinkError::VerifyMismatch { at: 0 }),
        "damage to the partition table was not reported at block 0: {err:?}"
    );
}

#[test]
fn the_front_is_written_last_and_the_body_in_order() {
    let mut w = FakeWriter::new(16 * 1024 * 1024, 512);
    let mut s = w.open(&disk()).unwrap();
    let mut rep = ProgressReporter::new(|_| {});
    let payload: Vec<u8> = (0..(10 * BLOCK as usize)).map(|i| (i % 241) as u8).collect();
    let out = stream(
        &mut MemorySource::new(payload.clone()),
        &mut s,
        None,
        &NeverCancel,
        &mut rep,
    )
    .unwrap();
    assert_eq!(out.bytes, 10 * BLOCK);
    assert_eq!(out.blocks.len(), 10);
    assert_eq!(w.write_offsets(), vec![HOLDBACK, 8 * 1024 * 1024, 0]);
    assert_eq!(&w.contents()[..payload.len()], &payload[..]);
}

#[test]
fn zeroing_the_tail_never_reaches_the_image() {
    let mut w = FakeWriter::new(3 * 1024 * 1024, 512);
    let mut s = w.open(&disk()).unwrap();
    zero_tail(&mut s, 2 * 1024 * 1024 + 512).unwrap();
    let c = w.contents();
    assert!(c[..2 * 1024 * 1024 + 512].iter().all(|b| *b == 0xAA));
    assert!(c[2 * 1024 * 1024 + 512..].iter().all(|b| *b == 0));

    let mut w2 = FakeWriter::new(4 * 1024 * 1024, 512);
    let mut s2 = w2.open(&disk()).unwrap();
    zero_tail(&mut s2, 0).unwrap();
    let c2 = w2.contents();
    assert!(c2[c2.len() - TAIL_ZERO as usize..].iter().all(|b| *b == 0));
    assert!(c2[..c2.len() - TAIL_ZERO as usize].iter().all(|b| *b == 0xAA));
}

#[test]
fn an_image_larger_than_the_device_is_refused_before_writing_past_it() {
    let mut w = FakeWriter::new(2 * 1024 * 1024, 512);
    let mut s = w.open(&disk()).unwrap();
    let mut rep = ProgressReporter::new(|_| {});
    let err = stream(
        &mut MemorySource::new(vec![1u8; 3 * 1024 * 1024]),
        &mut s,
        None,
        &NeverCancel,
        &mut rep,
    )
    .unwrap_err();
    assert!(matches!(
        err,
        SinkError::TooSmall { need, have } if need == 3 * 1024 * 1024 && have == 2 * 1024 * 1024
    ));
}
