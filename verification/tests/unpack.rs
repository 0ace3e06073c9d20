use flate2::write::GzEncoder;
use flate2::Compression;
use std::io::Write;
use zip::write::SimpleFileOptions;
use xpenology_usb::device::ByteSource;
use xpenology_usb::unpack::{gzip_expanded_size, open_image, pick_image, Unpacked, ZipEntry};

fn body(from: usize, to: usize) -> Vec<u8> {
    (from..to).map(|i| (i % 251) as u8).collect()
}

fn read_all(s: &mut Unpacked) -> Vec<u8> {
    let mut out = Vec::new();
    let mut buf = vec![0u8; 64 * 1024];
    loop {
        let n = s.read_into(&mut buf, 0).unwrap();
        if n == 0 {
            break;
        }
        out.extend_from_slice(&buf[..n]);
    }
    out
}

#[test]
fn the_zip_entry_is_chosen_by_size_not_by_position() {
    let real = body(0, 1_000_000);
    let mut w = zip::ZipWriter::new(std::io::Cursor::new(Vec::new()));
    let opt = SimpleFileOptions::default();
    w.start_file("__MACOSX/._rr.img", opt).unwrap();
    w.write_all(&[0u8; 4096]).unwrap();
    w.start_file("rr.img", opt).unwrap();
    w.write_all(&real).unwrap();
    let archive = w.finish().unwrap().into_inner();

    let (mut r, size) = open_image(archive, "rr-26.8.1.img.zip").unwrap();
    let out = read_all(&mut r);

    assert_eq!(size, Some(real.len() as u64), "the picked entry's size differs");
    assert_eq!(out, real, "the shell entry was taken for the image");
}

#[test]
fn a_gzip_download_is_decoded_across_members() {
    let a = body(0, 300_000);
    let b = body(300_000, 700_000);
    let mut data = Vec::new();
    for part in [&a, &b] {
        let mut e = GzEncoder::new(Vec::new(), Compression::default());
        e.write_all(part).unwrap();
        data.extend_from_slice(&e.finish().unwrap());
    }
    let (mut r, size) = open_image(data, "alpine-redpill.v1.m-shell.img.gz").unwrap();
    let out = read_all(&mut r);
    assert_eq!(out.len(), 700_000, "stopped at the first gzip member");
    assert_eq!(&out[..300_000], &a[..]);
    assert_eq!(&out[300_000..], &b[..]);
    // The trailer holds the last member's size only.
    assert_eq!(size, Some(400_000));
}

#[test]
fn an_unknown_format_is_refused() {
    let e = open_image(vec![1, 2, 3], "image.7z").err().unwrap();
    assert_eq!(e, "알 수 없는 압축 형식입니다: image.7z");
}

#[test]
fn a_zip_without_an_image_is_refused() {
    let mut w = zip::ZipWriter::new(std::io::Cursor::new(Vec::new()));
    w.start_file("readme.txt", SimpleFileOptions::default()).unwrap();
    w.write_all(b"hello").unwrap();
    let archive = w.finish().unwrap().into_inner();
    let e = open_image(archive, "rr.img.zip").err().unwrap();
    assert_eq!(e, "압축 파일 안에 .img 가 없습니다");
}

#[test]
fn the_gzip_size_field_is_read_little_endian_and_corrected_past_4_gib() {
    let mut data = vec![0u8; 10];
    data.extend_from_slice(&[0x78, 0x56, 0x34, 0x12]);
    assert_eq!(gzip_expanded_size(&data, "x.img.gz"), Some(0x1234_5678));
    assert_eq!(
        gzip_expanded_size(&data, "x-5gb.img.gz"),
        Some(0x1234_5678 + 4 * 1024 * 1024 * 1024)
    );
    assert_eq!(gzip_expanded_size(&[0, 0, 0], "x.img.gz"), None);
    assert_eq!(gzip_expanded_size(&[9, 0, 0, 0, 0], "x.img.gz"), None);
}

#[test]
fn the_largest_image_entry_is_picked_and_the_last_of_equals() {
    let e = |name: &str, size: u64, is_dir: bool| {
        Some(ZipEntry { name: name.to_string(), size, is_dir })
    };
    let es = vec![
        e("__MACOSX/._RR.IMG", 9_000, false),
        e("grub.img", 100, false),
        None,
        e("images.img", 0, true),
        e("rr.IMG", 5_000, false),
        e("notes.txt", 99_999, false),
        e("other.img", 5_000, false),
    ];
    assert_eq!(pick_image(&es), Some(6));
    assert_eq!(pick_image(&vec![e("a.txt", 1, false), None]), None);
}

#[test]
fn an_image_held_whole_is_read_in_pieces_that_fit_the_room() {
    let real = body(0, 1000);
    let mut w = zip::ZipWriter::new(std::io::Cursor::new(Vec::new()));
    w.start_file("rr.img", SimpleFileOptions::default()).unwrap();
    w.write_all(&real).unwrap();
    let archive = w.finish().unwrap().into_inner();
    let (mut r, _) = open_image(archive, "rr.img.zip").unwrap();
    assert!(matches!(r, Unpacked::Whole(_)));
    let mut buf = vec![0xEEu8; 700];
    assert_eq!(r.read_into(&mut buf, 100).unwrap(), 600);
    assert!(buf[..100].iter().all(|b| *b == 0xEE));
    assert_eq!(&buf[100..], &real[..600]);
    assert_eq!(r.read_into(&mut buf, 0).unwrap(), 400);
    assert_eq!(&buf[..400], &real[600..]);
    assert_eq!(r.read_into(&mut buf, 0).unwrap(), 0);
}
