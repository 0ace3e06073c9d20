use sha2::{Digest, Sha256};
use std::collections::HashSet;
use xpenology_usb::checksum::checksum_for;
use xpenology_usb::device::{MemorySource, UsbEnumerator};
use xpenology_usb::fake::{FakeEnumerator, FakeWriter};
use xpenology_usb::loader::{Asset, Loader, Release};
use xpenology_usb::model::DiskInfo;
use xpenology_usb::pipeline::{Cancel, NeverCancel};
use xpenology_usb::progress::Stage;
use xpenology_usb::runner::{hex32, run, DownloadWatch, Io, RunConfig, RunError};
use xpenology_usb::sink::{HOLDBACK, TAIL_ZERO};

struct FakeIo {
    payload: Vec<u8>,
    declared: u64,
    checksum: Option<String>,
}

impl FakeIo {
    fn new(payload: Vec<u8>) -> Self {
        let declared = payload.len() as u64;
        Self {
            payload,
            declared,
            checksum: None,
        }
    }

    fn with_checksum(mut self, body: &str) -> Self {
        self.checksum = Some(body.to_string());
        self
    }

    fn declaring(mut self, size: u64) -> Self {
        self.declared = size;
        self
    }
}

impl Io for FakeIo {
    type Stream = MemorySource;

    fn fetch_releases(&self, _url: &str) -> Result<Vec<Release>, String> {
        Ok(vec![Release {
            tag_name: "v1.4.2.8".into(),
            draft: false,
            prerelease: false,
            assets: {
                let mut a = vec![Asset {
                    name: "alpine-redpill.v1.4.2.8.m-shell-5GB.img.gz".into(),
                    size: self.declared,
                    browser_download_url: "https://example.invalid/img".into(),
                }];
                if self.checksum.is_some() {
                    a.push(Asset {
                        name: "sha256sum".into(),
                        size: 64,
                        browser_download_url: "https://example.invalid/sha".into(),
                    });
                }
                a
            },
        }])
    }

    fn fetch_text(&self, _url: &str) -> Result<String, String> {
        self.checksum
            .clone()
            .ok_or_else(|| "no checksum file".to_string())
    }

    fn download<D: DownloadWatch>(&self, _url: &str, watch: &mut D) -> Result<Vec<u8>, String> {
        let total = self.payload.len() as u64;
        watch.progress(total / 2, Some(total));
        watch.progress(total, Some(total));
        Ok(self.payload.clone())
    }

    fn open_decompressed(
        &self,
        data: Vec<u8>,
        _name: &str,
    ) -> Result<(MemorySource, Option<u64>), String> {
        let n = data.len() as u64;
        Ok((MemorySource::new(data), Some(n)))
    }
}

fn usb() -> DiskInfo {
    FakeEnumerator::sample().list_disks().unwrap()[2].clone()
}

fn cause(e: &RunError) -> &RunError {
    match e {
        RunError::TargetErased { cause } => cause,
        other => other,
    }
}

fn mshell(verify: bool) -> RunConfig {
    RunConfig {
        loader: Loader::MShell,
        verify,
    }
}

#[test]
fn full_run_writes_the_image_to_the_device() {
    let payload: Vec<u8> = (0..4096u32).map(|i| (i % 251) as u8).collect();
    let io = FakeIo::new(payload.clone());
    let mut writer = FakeWriter::new(1024 * 1024, 512);
    let mut events = Vec::new();

    run(
        mshell(false),
        &usb(),
        &HashSet::new(),
        &io,
        &mut writer,
        &NeverCancel,
        |e| events.push(e),
    )
    .expect("the job must succeed");

    let written = writer.contents();
    assert_eq!(&written[..payload.len()], &payload[..]);
    assert!(writer.was_finished(), "finish was not called");
}

#[test]
fn image_larger_than_the_holdback_is_written_in_the_right_order() {
    let size = (HOLDBACK as usize) * 3 + 12345;
    let payload: Vec<u8> = (0..size).map(|i| (i % 251) as u8).collect();
    let io = FakeIo::new(payload.clone());
    let mut writer = FakeWriter::new(8 * 1024 * 1024, 512);

    run(mshell(false), &usb(), &HashSet::new(), &io, &mut writer, &NeverCancel, |_| {})
        .expect("the job must succeed");

    let written = writer.contents();
    assert_eq!(
        &written[..HOLDBACK as usize],
        &payload[..HOLDBACK as usize],
        "the held-back front was written wrong"
    );
    assert_eq!(
        &written[HOLDBACK as usize..payload.len()],
        &payload[HOLDBACK as usize..],
        "the data after the holdback moved"
    );
}

#[test]
fn runner_the_partition_table_is_written_last() {
    let size = (HOLDBACK as usize) * 2;
    let payload: Vec<u8> = (0..size).map(|i| (i % 241) as u8).collect();
    let io = FakeIo::new(payload.clone());
    let mut writer = FakeWriter::new(8 * 1024 * 1024, 512);
    run(mshell(false), &usb(), &HashSet::new(), &io, &mut writer, &NeverCancel, |_| {}).unwrap();

    let order = writer.write_offsets();
    let first_write_at_zero = order
        .iter()
        .position(|o| *o == 0)
        .expect("offset 0 was never written");
    assert!(
        first_write_at_zero > 0,
        "offset 0 was written first; the partition table must come last"
    );
}

#[test]
fn every_stage_is_reported_in_order() {
    let io = FakeIo::new(vec![7u8; 2048]);
    let mut writer = FakeWriter::new(1024 * 1024, 512);
    let mut events = Vec::new();
    run(
        mshell(false),
        &usb(),
        &HashSet::new(),
        &io,
        &mut writer,
        &NeverCancel,
        |e| events.push(e),
    )
    .unwrap();

    let seen: Vec<Stage> = events.iter().map(|e| e.stage).collect();
    for s in [
        Stage::Resolving,
        Stage::Downloading,
        Stage::Extracting,
        Stage::Preparing,
        Stage::Writing,
        Stage::Finishing,
    ] {
        assert!(seen.contains(&s), "stage {s:?} was not reported");
    }
    assert!(events.last().unwrap().completed.contains(&Stage::Finishing));
}

#[test]
fn tail_is_zeroed_so_an_old_gpt_backup_cannot_survive() {
    let io = FakeIo::new(vec![1u8; 1024]);
    let mut writer = FakeWriter::new(4 * 1024 * 1024, 512);
    run(mshell(false), &usb(), &HashSet::new(), &io, &mut writer, &NeverCancel, |_| {}).unwrap();

    let c = writer.contents();
    let tail = &c[c.len() - TAIL_ZERO as usize..];
    assert!(tail.iter().all(|b| *b == 0), "the end of the device was not cleared");
}

#[test]
fn padding_is_zeroed_not_leaked_heap() {
    let payload = vec![9u8; 700];
    let io = FakeIo::new(payload.clone());
    let mut writer = FakeWriter::new(1024 * 1024, 512);
    run(mshell(false), &usb(), &HashSet::new(), &io, &mut writer, &NeverCancel, |_| {}).unwrap();

    let c = writer.contents();
    assert_eq!(&c[..700], &payload[..]);
    assert!(c[700..1024].iter().all(|b| *b == 0), "the padding is not zero");
}

#[test]
fn refuses_when_the_device_is_a_different_one() {
    let disks = FakeEnumerator::sample().list_disks().unwrap();
    let selected = disks[2].clone();
    let mut swapped = disks[3].clone();
    swapped.number = selected.number;

    let io = FakeIo::new(vec![0u8; 512]);
    let mut writer = FakeWriter::new(1024 * 1024, 512).with_observed(swapped);
    let err = run(mshell(false), &selected, &HashSet::new(), &io, &mut writer, &NeverCancel, |_| {})
        .unwrap_err();
    assert!(matches!(err, RunError::TargetErased { .. }), "got {err:?}");
    assert!(matches!(cause(&err), RunError::IdentityChanged(_)), "got {err:?}");
    let text = format!("{err:?}");
    assert!(text.contains("용량이 다릅니다"), "got {text}");
    assert!(text.contains("30752000000"), "got {text}");
    assert!(text.contains("64055500800"), "got {text}");
}

#[test]
fn refuses_a_protected_disk() {
    let io = FakeIo::new(vec![0u8; 512]);
    let mut writer = FakeWriter::new(1024 * 1024, 512);
    let protected: HashSet<u32> = [2].into_iter().collect();
    let err = run(mshell(false), &usb(), &protected, &io, &mut writer, &NeverCancel, |_| {})
        .unwrap_err();
    assert!(matches!(err, RunError::Rejected(_)), "got {err:?}");
}

#[test]
fn stops_when_the_image_exceeds_the_device() {
    let io = FakeIo::new(vec![3u8; 8192]);
    let mut writer = FakeWriter::new(4096, 512);
    let err = run(mshell(false), &usb(), &HashSet::new(), &io, &mut writer, &NeverCancel, |_| {})
        .unwrap_err();
    assert!(
        matches!(cause(&err), RunError::Rejected(_) | RunError::Device(_)),
        "got {err:?}"
    );
}

#[test]
fn verify_passes_on_a_healthy_device() {
    let io = FakeIo::new((0..8192u32).map(|i| (i % 253) as u8).collect());
    let mut writer = FakeWriter::new(1024 * 1024, 512);
    run(mshell(true), &usb(), &HashSet::new(), &io, &mut writer, &NeverCancel, |_| {})
        .expect("verification must pass on a sound device");
}

#[test]
fn verify_reads_the_medium_and_not_a_cache_that_has_not_landed_yet() {
    let io = FakeIo::new((0..8192u32).map(|i| (i % 253) as u8).collect());
    let mut writer = FakeWriter::new(1024 * 1024, 512).buffering();
    run(mshell(true), &usb(), &HashSet::new(), &io, &mut writer, &NeverCancel, |_| {})
        .expect("a sound write was reported faulty: the cache was not flushed before reading back");
    assert!(writer.was_committed(), "commit was not called before verifying");
}

#[test]
fn verify_catches_a_device_that_lies_about_writing() {
    let io = FakeIo::new((0..8192u32).map(|i| (i % 253) as u8).collect());
    let mut writer = FakeWriter::new(1024 * 1024, 512).corrupting_after(4096);
    let err = run(mshell(true), &usb(), &HashSet::new(), &io, &mut writer, &NeverCancel, |_| {})
        .unwrap_err();
    assert!(
        matches!(cause(&err), RunError::VerifyMismatch { .. }),
        "the damage was not caught: {err:?}"
    );
}

#[test]
fn verify_is_skipped_when_not_requested() {
    let io = FakeIo::new(vec![1u8; 8192]);
    let mut writer = FakeWriter::new(1024 * 1024, 512).corrupting_after(4096);
    run(mshell(false), &usb(), &HashSet::new(), &io, &mut writer, &NeverCancel, |_| {})
        .expect("without verification the job passes");
}

struct AlwaysCancel;
impl Cancel for AlwaysCancel {
    fn is_canceled(&self) -> bool {
        true
    }
}

struct CancelOnceOpened<'a>(&'a FakeWriter);
impl Cancel for CancelOnceOpened<'_> {
    fn is_canceled(&self) -> bool {
        self.0.was_opened()
    }
}

#[test]
fn a_verify_mismatch_does_not_claim_a_position_it_never_computed() {
    let io = FakeIo::new((0..8192u32).map(|i| (i % 253) as u8).collect());
    let mut writer = FakeWriter::new(1024 * 1024, 512).corrupting_after(4096);
    let err = run(mshell(true), &usb(), &HashSet::new(), &io, &mut writer, &NeverCancel, |_| {})
        .unwrap_err();

    let text = format!("{err:?}");
    assert!(matches!(cause(&err), RunError::VerifyMismatch { .. }), "got {text}");
    assert!(
        !text.contains("offset"),
        "the error claims a position it never computed: {text}"
    );
}

#[test]
fn a_download_that_does_not_match_the_published_size_never_reaches_the_device() {
    let io = FakeIo::new(vec![7u8; 4096]).declaring(100);
    let mut writer = FakeWriter::new(1024 * 1024, 512);
    let err = run(mshell(false), &usb(), &HashSet::new(), &io, &mut writer, &NeverCancel, |_| {})
        .unwrap_err();

    assert!(matches!(err, RunError::Download(_)), "got {err:?}");
    assert!(
        !writer.was_opened(),
        "the target was opened: its partition table is gone by then"
    );
}

#[test]
fn a_release_without_a_published_size_still_burns() {
    let io = FakeIo::new(vec![7u8; 4096]).declaring(0);
    let mut writer = FakeWriter::new(1024 * 1024, 512);
    run(mshell(false), &usb(), &HashSet::new(), &io, &mut writer, &NeverCancel, |_| {})
        .expect("an unknown size must not block writing");
}

#[test]
fn runner_a_failure_after_the_target_is_opened_says_the_target_is_already_erased() {
    let payload: Vec<u8> = (0..(HOLDBACK as usize * 2)).map(|i| (i % 251) as u8).collect();
    let io = FakeIo::new(payload);
    let mut writer = FakeWriter::new(8 * 1024 * 1024, 512).failing_at(HOLDBACK + 4096);
    let err = run(mshell(false), &usb(), &HashSet::new(), &io, &mut writer, &NeverCancel, |_| {})
        .unwrap_err();

    assert!(writer.was_opened(), "this must reproduce a failure after opening");
    assert!(
        matches!(err, RunError::TargetErased { .. }),
        "a failure after erasing was passed up as it was: {err:?}"
    );
    assert!(
        format!("{err:?}").contains("MediaChanged"),
        "the cause is lost: {err:?}"
    );
}

#[test]
fn canceling_after_the_target_is_opened_still_says_it_was_erased() {
    let io = FakeIo::new(vec![5u8; 4096]);
    let mut writer = FakeWriter::new(1024 * 1024, 512);
    let watch = writer.same_device();
    let cancel = CancelOnceOpened(&watch);
    let err = run(mshell(false), &usb(), &HashSet::new(), &io, &mut writer, &cancel, |_| {})
        .unwrap_err();

    assert!(writer.was_opened());
    assert!(
        matches!(err, RunError::TargetErased { .. }),
        "the cancel was passed up as it was: {err:?}"
    );
    assert!(format!("{err:?}").contains("Canceled"), "got {err:?}");
}

#[test]
fn a_download_that_fails_the_published_checksum_never_reaches_the_device() {
    let io = FakeIo::new(vec![7u8; 4096]).with_checksum(
        "0000000000000000000000000000000000000000000000000000000000000000  \
         alpine-redpill.v1.4.2.8.m-shell-5GB.img.gz\n",
    );
    let mut writer = FakeWriter::new(1024 * 1024, 512);
    let err = run(mshell(false), &usb(), &HashSet::new(), &io, &mut writer, &NeverCancel, |_| {})
        .unwrap_err();

    assert!(matches!(err, RunError::Download(_)), "got {err:?}");
    assert!(
        !writer.was_opened(),
        "the target was opened: its partition table is gone by then"
    );
}

#[test]
fn a_download_that_matches_the_published_checksum_burns() {
    let payload = vec![7u8; 4096];
    let digest: [u8; 32] = Sha256::digest(&payload).into();
    let io = FakeIo::new(payload).with_checksum(&format!(
        "{}  alpine-redpill.v1.4.2.8.m-shell-5GB.img.gz\n",
        hex32(&digest)
    ));
    let mut writer = FakeWriter::new(1024 * 1024, 512);
    run(mshell(false), &usb(), &HashSet::new(), &io, &mut writer, &NeverCancel, |_| {})
        .expect("a matching checksum was refused");
}

#[test]
fn an_unreadable_checksum_file_does_not_block_the_burn() {
    let io = FakeIo::new(vec![7u8; 4096]).with_checksum("# no digest here\n");
    let mut writer = FakeWriter::new(1024 * 1024, 512);
    run(mshell(false), &usb(), &HashSet::new(), &io, &mut writer, &NeverCancel, |_| {})
        .expect("an unreadable checksum file blocked writing");
}

#[test]
fn a_checksum_line_is_matched_by_asset_name() {
    let body = "aa  other.img.gz\n                    bb  wanted.img.gz\n";
    assert_eq!(checksum_for(body, "wanted.img.gz"), None);

    let good = format!(
        "{}  wanted.img.gz\n{}  other.img.gz\n",
        "ab".repeat(32),
        "cd".repeat(32)
    );
    assert_eq!(checksum_for(&good, "wanted.img.gz"), Some([0xab; 32]));
    assert_eq!(checksum_for(&good, "other.img.gz"), Some([0xcd; 32]));
    assert_eq!(checksum_for(&good, "nowhere.img.gz"), None);
}

#[test]
fn cancel_is_honoured_before_anything_is_written() {
    let io = FakeIo::new(vec![5u8; 4096]);
    let mut writer = FakeWriter::new(1024 * 1024, 512);
    let err = run(mshell(false), &usb(), &HashSet::new(), &io, &mut writer, &AlwaysCancel, |_| {})
        .unwrap_err();
    assert!(matches!(err, RunError::Canceled));
    assert!(writer.contents().iter().all(|b| *b == 0xAA));
}

#[test]
fn a_single_line_checksum_file_is_taken_whatever_its_name() {
    let body = format!("{}  *something-else.img\r\n\n", "0F".repeat(32));
    assert_eq!(checksum_for(&body, "asset.img.gz"), Some([0x0f; 32]));
    assert_eq!(checksum_for("", "asset.img.gz"), None);
}

#[test]
fn a_binary_marker_before_the_name_is_ignored() {
    let body = format!(
        "{}  *wanted.img.gz\n{}  other\n",
        "11".repeat(32),
        "22".repeat(32)
    );
    assert_eq!(checksum_for(&body, "wanted.img.gz"), Some([0x11; 32]));
}

#[test]
fn digests_print_as_lower_case_hex() {
    let mut d = [0u8; 32];
    d[0] = 0xAB;
    d[31] = 0x01;
    let s = hex32(&d);
    assert_eq!(s.len(), 64);
    assert!(s.starts_with("ab00"));
    assert!(s.ends_with("0001"));
}

#[test]
fn an_empty_release_list_fails_to_resolve() {
    struct NoReleases;
    impl Io for NoReleases {
        type Stream = MemorySource;
        fn fetch_releases(&self, _url: &str) -> Result<Vec<Release>, String> {
            Ok(Vec::new())
        }
        fn fetch_text(&self, _url: &str) -> Result<String, String> {
            Err(String::new())
        }
        fn download<D: DownloadWatch>(&self, _url: &str, _w: &mut D) -> Result<Vec<u8>, String> {
            Err(String::new())
        }
        fn open_decompressed(
            &self,
            _data: Vec<u8>,
            _name: &str,
        ) -> Result<(MemorySource, Option<u64>), String> {
            Err(String::new())
        }
    }
    let mut writer = FakeWriter::new(1024 * 1024, 512);
    let err = run(mshell(false), &usb(), &HashSet::new(), &NoReleases, &mut writer, &NeverCancel, |_| {})
        .unwrap_err();
    match err {
        RunError::Resolve(m) => assert_eq!(m, "NoReleases"),
        other => panic!("got {other:?}"),
    }
    assert!(!writer.was_opened());
}

#[test]
fn a_digest_with_a_sign_in_place_of_a_digit_is_not_read() {
    let signed = format!("{}  wanted.img.gz\n", "+f".repeat(32));
    assert_eq!(checksum_for(&signed, "wanted.img.gz"), None);
    let upper = format!("{}  wanted.img.gz\n", "AB".repeat(32));
    assert_eq!(checksum_for(&upper, "wanted.img.gz"), Some([0xab; 32]));
}
