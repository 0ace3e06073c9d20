use xpenology_usb::win::write_protected_from;
use std::collections::HashSet;
use xpenology_usb::device::{DeviceError, UsbEnumerator};
use xpenology_usb::fake::FakeEnumerator;
use xpenology_usb::model::BusType;
use xpenology_usb::win::{
    check_aligned, check_number, check_opened, descriptor_string, drive_prefix, error_for, explain,
    head_to_clear, lock_failure, open_failure, protected_or_disk_zero, refuse_disk_zero,
    retry_write, shrink_after, tail_range, DeviceDescriptor, LockStep, OpenStep,
};

#[test]
fn common_win32_codes_are_explained() {
    assert_eq!(
        explain(87),
        " (잘못된 매개변수 — 대개 섹터 정렬이나 구조체 크기 문제)"
    );
    assert_eq!(explain(1117), " (입출력 장치 오류)");
    assert_eq!(explain(2), "");
}

#[test]
fn an_error_code_says_where_it_happened() {
    assert_eq!(error_for(5, "볼륨 열기"), DeviceError::WriteDenied { op: "볼륨 열기" });
    assert_eq!(error_for(32, "볼륨 열기"), DeviceError::Locked { op: "볼륨 열기" });
    assert_eq!(
        error_for(1110, "되읽기"),
        DeviceError::MediaChanged { op: "되읽기" }
    );
    assert_eq!(
        error_for(2, "물리 디스크 열기(쓰기)"),
        DeviceError::Io {
            code: 2,
            message: "물리 디스크 열기(쓰기) 실패: Win32 오류 2".to_string()
        }
    );
    assert_eq!(
        error_for(21, "쓰기"),
        DeviceError::Io {
            code: 21,
            message: "쓰기 실패: Win32 오류 21 (장치가 준비되지 않음)".to_string()
        }
    );
    assert_eq!(
        error_for(-3, "쓰기"),
        DeviceError::Io {
            code: -3,
            message: "쓰기 실패: Win32 오류 -3".to_string()
        }
    );
}

#[test]
fn opening_waits_only_on_errors_that_waiting_can_cure() {
    assert!(matches!(
        open_failure(2, 0, false, "볼륨 열기"),
        OpenStep::Fail(DeviceError::Io { code: 2, .. })
    ));
    match open_failure(32, 10, false, "볼륨 열기") {
        OpenStep::Retry { last, share_write } => {
            assert_eq!(last, DeviceError::Locked { op: "볼륨 열기" });
            assert!(!share_write);
        }
        other => panic!("got {other:?}"),
    }
    match open_failure(5, 50, false, "볼륨 열기") {
        OpenStep::Retry { last, share_write } => {
            assert_eq!(last, DeviceError::WriteDenied { op: "볼륨 열기" });
            assert!(share_write, "from a third of the attempts on, writing is shared");
        }
        other => panic!("got {other:?}"),
    }
}

#[test]
fn locking_keeps_waiting_only_while_it_can_help() {
    let last = DeviceError::Locked { op: "볼륨 잠금" };
    assert!(matches!(
        lock_failure(DeviceError::WriteDenied { op: "볼륨 잠금" }, last.clone()),
        LockStep::Wait(DeviceError::WriteDenied { .. })
    ));
    match lock_failure(
        DeviceError::Io { code: 32, message: "x".into() },
        last.clone(),
    ) {
        LockStep::Wait(e) => assert_eq!(e, last),
        other => panic!("got {other:?}"),
    }
    assert!(matches!(
        lock_failure(DeviceError::Io { code: 6, message: "x".into() }, last),
        LockStep::Stop(DeviceError::Io { code: 6, .. })
    ));
}

#[test]
fn descriptor_strings_are_read_by_offset_up_to_their_zero() {
    let mut buf = vec![7u8; 8];
    buf.extend_from_slice(b"  SanDisk \0 Cruzer Blade\0   \0");
    assert_eq!(descriptor_string(&buf, 8).as_deref(), Some("SanDisk"));
    assert_eq!(descriptor_string(&buf, 19).as_deref(), Some("Cruzer Blade"));
    assert_eq!(descriptor_string(&buf, 33), None, "blanks are no string");
    assert_eq!(descriptor_string(&buf, 0), None, "offset 0 means none");
    assert_eq!(descriptor_string(&buf, 500), None);
    assert_eq!(descriptor_string(b"abc", 1), None, "no terminating zero");
    assert_eq!(
        descriptor_string(&[0, b'A', 0xFF, b'B', 0], 1).as_deref(),
        Some("A\u{FFFD}B")
    );
}

#[test]
fn the_friendly_name_joins_vendor_and_product() {
    let d = |v: Option<&str>, p: Option<&str>| DeviceDescriptor {
        bus_type: 7,
        vendor: v.map(str::to_string),
        product: p.map(str::to_string),
        serial: None,
    };
    assert_eq!(d(Some("SanDisk "), Some(" Ultra")).friendly_name(), "SanDisk Ultra");
    assert_eq!(d(None, Some("Ultra")).friendly_name(), "Ultra");
    assert_eq!(d(Some("Kingston"), Some("   ")).friendly_name(), "Kingston");
    assert_eq!(d(Some("  "), None).friendly_name(), "USB 저장장치");
}

#[test]
fn a_drive_prefix_needs_a_letter_and_a_colon() {
    assert_eq!(drive_prefix("c:\\Windows").as_deref(), Some("\\\\.\\C:"));
    assert_eq!(drive_prefix("D:").as_deref(), Some("\\\\.\\D:"));
    assert_eq!(drive_prefix("\\\\server\\share"), None);
    assert_eq!(drive_prefix("1:"), None);
    assert_eq!(drive_prefix("C"), None);
}

#[test]
fn finding_no_protected_disk_still_protects_disk_zero() {
    let none: HashSet<u32> = HashSet::new();
    assert_eq!(protected_or_disk_zero(none), HashSet::from([0]));
    assert_eq!(protected_or_disk_zero(HashSet::from([3])), HashSet::from([3]));
}

#[test]
fn the_device_is_checked_before_anything_is_destroyed() {
    let e = FakeEnumerator::sample();
    let disks = e.list_disks().unwrap();
    let stick = disks.iter().find(|d| d.number == 2).unwrap().clone();

    assert!(refuse_disk_zero(&stick).is_ok());
    let mut zero = stick.clone();
    zero.number = 0;
    assert_eq!(
        refuse_disk_zero(&zero),
        Err(DeviceError::IdentityChanged {
            message: "디스크 0 번은 시스템 디스크입니다".to_string()
        })
    );

    assert!(check_number(2, 2).is_ok());
    assert_eq!(
        check_number(2, 3),
        Err(DeviceError::IdentityChanged {
            message: "디스크 번호가 다릅니다: 2 번을 골랐는데 장치는 3 번이라고 답합니다"
                .to_string()
        })
    );

    assert!(check_opened(&stick, &stick).is_ok());
    let mut sata = stick.clone();
    sata.bus_type = BusType::Sata;
    assert_eq!(
        check_opened(&stick, &sata),
        Err(DeviceError::IdentityChanged {
            message: "USB 가 아닙니다: 연결 방식이 Sata 입니다".to_string()
        })
    );
    let mut renamed = stick.clone();
    renamed.friendly_name = "다른 장치".into();
    match check_opened(&stick, &renamed) {
        Err(DeviceError::IdentityChanged { message }) => {
            assert!(message.contains("이름이 다릅니다"), "got {message}")
        }
        other => panic!("got {other:?}"),
    }
    let mut locked = stick.clone();
    locked.is_read_only = true;
    assert_eq!(
        check_opened(&stick, &locked),
        Err(DeviceError::WriteDenied { op: "쓰기 금지 매체 확인" })
    );
}

#[test]
fn the_front_to_clear_is_one_mib_in_whole_sectors() {
    assert_eq!(head_to_clear(8 * 1024 * 1024, 512), 1024 * 1024);
    assert_eq!(head_to_clear(1000, 512), 512);
    assert_eq!(head_to_clear(100, 512), 0);
}

#[test]
fn unaligned_requests_are_refused_with_their_numbers() {
    assert!(check_aligned(4096, 8192, 512, "이미지 쓰기", "준비 단계: 볼륨 0개 잠금").is_ok());
    match check_aligned(100, 512, 512, "이미지 쓰기", "준비 단계: 볼륨 0개 잠금") {
        Err(DeviceError::TargetErased { code, message }) => {
            assert_eq!(code, 87);
            assert!(
                message.contains("정렬 오류: 오프셋 100, 길이 512, 섹터 512"),
                "got {message}"
            );
        }
        other => panic!("got {other:?}"),
    }
}

#[test]
fn failed_writes_are_retried_or_shrunk() {
    let busy = DeviceError::Io { code: 21, message: String::new() };
    let size = DeviceError::Io { code: 87, message: String::new() };
    assert!(retry_write(&busy, 1));
    assert!(!retry_write(&busy, 4));
    assert!(!retry_write(&size, 1));
    assert_eq!(shrink_after(&size, 8 * 1024 * 1024, 512), Some(4 * 1024 * 1024));
    assert_eq!(shrink_after(&size, 1000, 512), Some(512));
    assert_eq!(shrink_after(&size, 512, 512), None);
    assert_eq!(shrink_after(&busy, 8 * 1024 * 1024, 512), None);
}

#[test]
fn the_tail_range_stays_on_the_device_and_on_sectors() {
    let mib = 1024 * 1024;
    assert_eq!(tail_range(16 * mib, 512, mib), (15 * mib, mib));
    assert_eq!(tail_range(16 * mib, 512, 100), (16 * mib - 512, 512));
    assert_eq!(tail_range(1000, 512, 5000), (0, 512));
}

#[test]
fn only_error_19_means_write_protected() {
    assert!(!write_protected_from(&Ok(())));
    assert!(write_protected_from(&Err(DeviceError::Io { code: 19, message: "x".into() })));
    assert!(!write_protected_from(&Err(DeviceError::Io { code: 5, message: "x".into() })));
}
