use xpenology_usb::device::{ByteSource, RawReader, ReadSession, UsbEnumerator};
use xpenology_usb::fake::{FakeEnumerator, FakeReadSession, FakeReader};
use xpenology_usb::model::DiskInfo;
use xpenology_usb::source::SessionReader;

fn disk() -> DiskInfo {
    FakeEnumerator::sample().list_disks().unwrap()[1].clone()
}

fn reader(data: Vec<u8>, limit: u64, chunk: usize) -> SessionReader<FakeReadSession> {
    let s = FakeReader::new(data, 512).open(&disk()).unwrap();
    SessionReader::new(s, limit, chunk)
}

#[test]
fn it_yields_exactly_the_limit_and_then_stops() {
    let data: Vec<u8> = (0..8192u32).map(|i| (i % 251) as u8).collect();
    let mut r = reader(data.clone(), 2048, 1024);
    let mut out = Vec::new();
    r.read_to_end(&mut out).unwrap();
    assert_eq!(out, data[..2048]);
}

#[test]
fn a_caller_asking_for_less_than_a_chunk_still_gets_every_byte_in_order() {
    let data: Vec<u8> = (0..4096u32).map(|i| (i % 251) as u8).collect();
    let mut r = reader(data.clone(), 4096, 1024);
    let mut out = Vec::new();
    let mut small = [0u8; 7];
    loop {
        let n = r.read(&mut small).unwrap();
        if n == 0 {
            break;
        }
        out.extend_from_slice(&small[..n]);
    }
    assert_eq!(out, data);
}

#[test]
fn a_limit_equal_to_the_chunk_size_ends_cleanly() {
    let data: Vec<u8> = (0..2048u32).map(|i| (i % 251) as u8).collect();
    let mut r = reader(data.clone(), 1024, 1024);
    let mut out = Vec::new();
    r.read_to_end(&mut out).unwrap();
    assert_eq!(out, data[..1024]);
}

#[test]
fn it_never_reads_past_the_limit_even_when_the_device_is_bigger() {
    let mut r = reader(vec![0x77u8; 8192], 1536, 1024);
    let mut out = Vec::new();
    r.read_to_end(&mut out).unwrap();
    assert_eq!(out.len(), 1536);
}

#[test]
fn a_read_failure_surfaces_instead_of_being_reported_as_end_of_stream() {
    let s = FakeReader::new(vec![0u8; 8192], 512)
        .failing_at(2048)
        .open(&disk())
        .unwrap();
    let mut r = SessionReader::new(s, 8192, 1024);
    let mut out = Vec::new();
    assert!(r.read_to_end(&mut out).is_err());
}

#[test]
fn the_session_comes_back_so_the_source_can_be_closed() {
    let r = reader(vec![0u8; 1024], 1024, 1024);
    let s = r.into_session();
    assert!(s.finish().is_ok());
}

#[test]
fn reading_into_the_middle_of_a_buffer_keeps_its_front() {
    let data: Vec<u8> = (0..1024u32).map(|i| (i % 251) as u8).collect();
    let mut r = reader(data.clone(), 1024, 512);
    let mut buf = vec![0xEEu8; 600];
    let n = r.read_into(&mut buf, 100).unwrap();
    assert_eq!(n, 500);
    assert!(buf[..100].iter().all(|b| *b == 0xEE));
    assert_eq!(&buf[100..600], &data[..500]);
}

#[test]
fn a_read_hands_out_what_is_buffered_before_going_back_to_the_device() {
    let data: Vec<u8> = (0..2048u32).map(|i| (i % 251) as u8).collect();
    let mut r = reader(data.clone(), 2048, 1024);
    let mut a = [0u8; 300];
    assert_eq!(r.read(&mut a).unwrap(), 300);
    assert_eq!(&a[..], &data[..300]);
    let mut b = [0u8; 2000];
    // Only the rest of the first chunk: the buffer is drained first.
    assert_eq!(r.read(&mut b).unwrap(), 724);
    assert_eq!(&b[..724], &data[300..1024]);
    assert_eq!(r.read(&mut b).unwrap(), 1024);
    assert_eq!(&b[..1024], &data[1024..2048]);
    assert_eq!(r.read(&mut b).unwrap(), 0);
}

#[test]
fn a_read_past_a_failure_point_still_empties_the_buffer_first() {
    let s = FakeReader::new((0..4096u32).map(|i| (i % 251) as u8).collect(), 512)
        .failing_at(1024)
        .open(&disk())
        .unwrap();
    let mut r = SessionReader::new(s, 4096, 1024);
    let mut a = [0u8; 100];
    assert_eq!(r.read(&mut a).unwrap(), 100);
    let mut b = [0u8; 4096];
    assert_eq!(r.read(&mut b).unwrap(), 924);
    assert!(r.read(&mut b).is_err());
}
