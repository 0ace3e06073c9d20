use xpenology_usb::device::DeviceError;
use xpenology_usb::prep::{code_of, describe, with_write_context, Prep, Touched};

const UI_KEYS: [&str; 5] = [
    "NeedsElevation",
    "Locked",
    "WriteDenied",
    "MediaChanged",
    "IdentityChanged",
];

fn every_error() -> Vec<DeviceError> {
    vec![
        DeviceError::NeedsElevation,
        DeviceError::NotFound { disk_number: 3 },
        DeviceError::Locked { op: "볼륨 잠금" },
        DeviceError::WriteDenied { op: "장치 쓰기" },
        DeviceError::MediaChanged { op: "장치 읽기" },
        DeviceError::BadSectorSize(0),
        DeviceError::IdentityChanged {
            message: "용량이 다릅니다".into(),
        },
        DeviceError::Io {
            code: 21,
            message: "장치 용량 조회 실패".into(),
        },
    ]
}

#[test]
fn descriptions_never_carry_the_names_the_ui_switches_on() {
    for e in every_error() {
        let d = describe(&e);
        for k in UI_KEYS {
            assert!(!d.contains(k), "a screen-selecting name leaked: {d} ({k})");
        }
    }
}

#[test]
fn the_operation_name_survives_into_the_description() {
    let d = describe(&DeviceError::WriteDenied { op: "캐시 플러시" });
    assert!(d.contains("캐시 플러시"), "got {d}");
    assert!(d.contains("5"), "the Win32 code is gone: {d}");
}

#[test]
fn nothing_touched_leaves_the_error_exactly_as_it_was() {
    let p = Prep::new();
    let e = DeviceError::Locked { op: "볼륨 잠금" };
    assert_eq!(p.explain(e.clone()), e);
}

#[test]
fn an_erased_target_is_reported_as_erased_and_keeps_the_notes() {
    let mut p = Prep::new();
    p.reached(Touched::Mounts);
    p.note("파티션 테이블 삭제 실패 (Win32 5)");
    p.reached(Touched::Layout);
    p.note("파티션 테이블 재인식 실패");

    let out = p.explain(DeviceError::Locked {
        op: "물리 디스크 열기(쓰기)",
    });
    let DeviceError::TargetErased { code, message } = out else {
        panic!("a failure after erasing was passed up as it was: {out:?}");
    };
    assert_eq!(code, 32, "the Win32 code is gone");
    assert!(message.contains("지워진 상태"), "got {message}");
    assert!(message.contains("파티션 테이블 삭제 실패"), "got {message}");
    assert!(message.contains("파티션 테이블 재인식 실패"), "got {message}");
    assert!(message.contains("물리 디스크 열기(쓰기)"), "got {message}");
}

#[test]
fn removing_only_the_drive_letter_is_not_reported_as_an_erased_disk() {
    let mut p = Prep::new();
    p.reached(Touched::Mounts);

    let out = p.explain(DeviceError::Io {
        code: 2,
        message: "물리 디스크 열기(쓰기) 실패: Win32 오류 2".into(),
    });
    assert!(
        !matches!(out, DeviceError::TargetErased { .. }),
        "called erased while the contents are intact: {out:?}"
    );
    let DeviceError::Io { message, .. } = out else {
        panic!("got {out:?}");
    };
    assert!(message.contains("드라이브 문자"), "got {message}");
    assert!(message.contains("내용은 그대로"), "got {message}");
}

#[test]
fn the_recorded_damage_never_walks_backwards() {
    let mut p = Prep::new();
    p.reached(Touched::Layout);
    p.reached(Touched::Mounts);
    assert_eq!(p.touched(), Touched::Layout);
}

#[test]
fn a_failed_volume_scan_is_not_reported_as_a_finished_preparation() {
    let p = Prep::new();
    let s = p.summary(0, false);
    assert!(!s.contains("준비 완료"), "claimed done without checking: {s}");
    assert!(s.contains("확인하지 못함"), "got {s}");
}

#[test]
fn a_clean_preparation_says_what_it_actually_knows() {
    let p = Prep::new();
    let s = p.summary(2, true);
    assert!(s.contains("볼륨 2개 잠금"), "got {s}");
    assert!(s.contains("실패 기록 없음"), "got {s}");
    assert!(!s.contains("준비 완료"), "got {s}");
}

#[test]
fn a_write_failure_carries_where_it_happened_and_what_preparation_saw() {
    let notes = "준비 단계: 볼륨 1개 잠금\n문제:\n  \\\\?\\Volume{x}: 잠금 실패";
    let out = with_write_context(
        DeviceError::Locked { op: "장치 쓰기" },
        "이미지 쓰기",
        Some(25_165_824),
        notes,
    );
    let DeviceError::TargetErased { code, message } = out else {
        panic!("got {out:?}");
    };
    assert_eq!(code, 32);
    assert!(message.contains("25165824"), "the position is missing: {message}");
    assert!(message.contains("잠금 실패"), "the notes were dropped: {message}");
    assert!(message.contains("일부만 쓰인"), "got {message}");
}

#[test]
fn a_flush_failure_is_not_dressed_up_as_a_refused_write() {
    let out = with_write_context(
        DeviceError::Io {
            code: 5,
            message: "캐시 플러시 실패: Win32 오류 5".into(),
        },
        "마무리(캐시 플러시)",
        None,
        "준비 단계: 볼륨 1개 잠금, 실패 기록 없음",
    );
    let DeviceError::TargetErased { message, .. } = out else {
        panic!("got {out:?}");
    };
    assert!(message.contains("마무리(캐시 플러시)"), "got {message}");
    assert!(!message.contains("쓰기를 거부"), "got {message}");
}

#[test]
fn a_refused_write_keeps_the_wording_the_ui_recognises() {
    let out = with_write_context(
        DeviceError::WriteDenied { op: "장치 쓰기" },
        "이미지 쓰기",
        Some(8_388_608),
        "준비 단계: 볼륨 0개 잠금, 실패 기록 없음",
    );
    let DeviceError::Io { code, message } = out else {
        panic!("got {out:?}");
    };
    assert_eq!(code, 5);
    assert!(message.contains("쓰기를 거부"), "got {message}");
    assert!(message.contains("8388608"), "got {message}");
    assert!(message.contains("준비 단계"), "got {message}");
    assert!(message.contains("일부만 쓰인"), "got {message}");
}

#[test]
fn codes_follow_the_win32_numbers() {
    assert_eq!(code_of(&DeviceError::WriteDenied { op: "x" }), 5);
    assert_eq!(code_of(&DeviceError::Locked { op: "x" }), 32);
    assert_eq!(code_of(&DeviceError::MediaChanged { op: "x" }), 1110);
    assert_eq!(code_of(&DeviceError::NeedsElevation), 0);
    assert_eq!(
        code_of(&DeviceError::Io {
            code: 21,
            message: String::new()
        }),
        21
    );
}

#[test]
fn notes_are_listed_one_per_line_in_the_summary() {
    let mut p = Prep::new();
    p.note("a");
    p.note("b");
    assert_eq!(
        p.summary(1, true),
        "준비 단계: 볼륨 1개 잠금\n문제:\n  a\n  b"
    );
}

#[test]
fn the_trail_lists_the_notes_or_says_there_are_none() {
    let mut p = Prep::new();
    assert_eq!(p.trail(), "준비 단계에 남은 실패 기록 없음");
    p.note("E: 잠금 실패");
    p.note("파티션 테이블 재인식 실패");
    assert_eq!(
        p.trail(),
        "준비 단계 기록:\n  E: 잠금 실패\n  파티션 테이블 재인식 실패"
    );
}
