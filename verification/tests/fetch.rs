use xpenology_usb::fetch::{append_piece, finish_body, start_body, BodyStep};
use xpenology_usb::fetch::{
    checksum_fetch_error, give_up, judge_end, judge_reply, parse_content_range, range_from,
    release_list_error, Budget, Ending, Reply, MAX_ATTEMPTS, MAX_FRUITLESS,
};

#[test]
fn a_content_range_gives_its_start_and_whole_size() {
    assert_eq!(
        parse_content_range("bytes 40000-99999/100000"),
        Some((40000, Some(100000)))
    );
    assert_eq!(
        parse_content_range("  bytes   0-39999/ 100000 "),
        Some((0, Some(100000)))
    );
}

#[test]
fn an_unknown_whole_size_is_none_but_the_start_is_kept() {
    assert_eq!(parse_content_range("bytes 500-999/*"), Some((500, None)));
}

#[test]
fn a_content_range_without_a_start_is_refused() {
    assert_eq!(parse_content_range("bytes */100000"), None);
    assert_eq!(parse_content_range("items 0-1/2"), None);
    assert_eq!(parse_content_range("bytes 0-99"), None);
    assert_eq!(parse_content_range(""), None);
    assert_eq!(parse_content_range("bytes -5-9/10"), None);
    assert_eq!(parse_content_range("bytes +7-9/10"), Some((7, Some(10))));
    assert_eq!(
        parse_content_range("bytes 18446744073709551616-1/2"),
        None,
        "a start past u64 does not parse"
    );
}

#[test]
fn a_whole_file_answer_restarts_from_the_front() {
    assert_eq!(
        judge_reply(200, None, Some(100000), 40000),
        Reply::Take { restart: true, total: Some(100000) }
    );
}

#[test]
fn resume_from_the_asked_offset_is_taken_with_the_whole_size() {
    assert_eq!(
        judge_reply(206, Some("bytes 40000-99999/100000"), Some(60000), 40000),
        Reply::Take { restart: false, total: Some(100000) }
    );
    assert_eq!(judge_end(100000, Some(100000)), Ending::Done);
}

#[test]
fn a_partial_answer_from_elsewhere_is_dropped_not_spliced() {
    match judge_reply(206, Some("bytes 0-59999/100000"), Some(60000), 40000) {
        Reply::Retry { reason, restart } => {
            assert!(restart);
            assert_eq!(reason, "서버가 0 바이트부터 보냈습니다 (요청한 자리: 40000)");
        }
        other => panic!("got {other:?}"),
    }
}

#[test]
fn a_partial_answer_without_content_range_is_retried() {
    match judge_reply(206, None, Some(60000), 40000) {
        Reply::Retry { reason, restart } => {
            assert!(!restart);
            assert_eq!(reason, "서버가 Content-Range 없이 206 을 보냈습니다");
        }
        other => panic!("got {other:?}"),
    }
}

#[test]
fn an_unsolicited_partial_answer_reports_the_real_whole_size() {
    assert_eq!(
        judge_reply(206, Some("bytes 0-39999/100000"), Some(40000), 0),
        Reply::Take { restart: false, total: Some(100000) }
    );
    assert!(matches!(judge_end(40000, Some(100000)), Ending::Retry { restart: false, .. }));
}

#[test]
fn without_a_whole_size_the_rest_length_is_added_to_the_start() {
    assert_eq!(
        judge_reply(206, Some("bytes 40000-99999/*"), Some(60000), 40000),
        Reply::Take { restart: false, total: Some(100000) }
    );
}

#[test]
fn another_status_fails_the_download() {
    assert_eq!(
        judge_reply(404, None, None, 0),
        Reply::Fail("내려받기에 실패했습니다 (HTTP 404)".to_string())
    );
}

#[test]
fn the_end_of_a_body_is_judged_against_the_whole_size() {
    assert_eq!(
        judge_end(40000, Some(100000)),
        Ending::Retry {
            reason: "연결이 끊겼습니다 (40000/100000 바이트)".to_string(),
            restart: false
        }
    );
    assert_eq!(
        judge_end(140000, Some(100000)),
        Ending::Retry {
            reason: "받은 양이 알려준 크기보다 많습니다 (140000/100000 바이트)".to_string(),
            restart: true
        }
    );
}

#[test]
fn a_body_of_unknown_length_is_never_complete() {
    assert_eq!(
        judge_reply(200, None, None, 0),
        Reply::Take { restart: true, total: None }
    );
    assert!(matches!(judge_end(40000, None), Ending::Retry { restart: false, .. }));
}

#[test]
fn fruitless_attempts_in_a_row_end_the_download() {
    let mut b = Budget::new();
    assert!(!b.should_wait(), "the first attempt starts at once");
    let mut n = 0;
    while b.may_try() {
        b.record(0);
        n += 1;
        assert!(b.should_wait(), "every later attempt waits first");
    }
    assert_eq!(n, MAX_FRUITLESS);
}

#[test]
fn attempts_that_advance_revive_the_budget() {
    let mut b = Budget::new();
    let mut have = 0u64;
    let mut n = 0;
    while b.may_try() {
        have += 60_000;
        b.record(have);
        n += 1;
    }
    assert_eq!(n, MAX_ATTEMPTS, "only the overall cap stops a transfer that advances");
    assert_eq!(b.fruitless, 0);
}

#[test]
fn the_range_and_give_up_texts() {
    assert_eq!(range_from(40000), "bytes=40000-");
    assert_eq!(
        give_up("연결이 끊겼습니다"),
        "내려받기를 여러 번 시도했지만 완료하지 못했습니다: 연결이 끊겼습니다"
    );
}

#[test]
fn a_spent_rate_limit_is_told_apart() {
    assert_eq!(
        release_list_error(403, "403 Forbidden", Some("0")).as_deref(),
        Some("GitHub API 호출 한도를 초과했습니다. 잠시 후 다시 시도해 주세요.")
    );
    assert_eq!(
        release_list_error(403, "403 Forbidden", Some("12")).as_deref(),
        Some("릴리스 목록을 가져오지 못했습니다 (403 Forbidden)")
    );
    assert_eq!(release_list_error(200, "200 OK", None), None);
    assert_eq!(
        checksum_fetch_error(404, "404 Not Found").as_deref(),
        Some("체크섬을 가져오지 못했습니다 (404 Not Found)")
    );
    assert_eq!(checksum_fetch_error(200, "200 OK"), None);
}

#[test]
fn a_restarting_answer_drops_what_was_received() {
    let mut out = vec![1u8, 2, 3];
    assert_eq!(
        start_body(&mut out, Reply::Take { restart: false, total: Some(10) }),
        BodyStep::Read(Some(10))
    );
    assert_eq!(out, vec![1, 2, 3]);
    append_piece(&mut out, &[4, 5, 6, 7], 2);
    assert_eq!(out, vec![1, 2, 3, 4, 5]);
    assert_eq!(
        start_body(&mut out, Reply::Retry { reason: "again".into(), restart: true }),
        BodyStep::Again("again".into())
    );
    assert!(out.is_empty());
    out.push(9);
    assert_eq!(start_body(&mut out, Reply::Fail("no".into())), BodyStep::Stop("no".into()));
    assert_eq!(out, vec![9]);
    assert_eq!(finish_body(&mut out, Ending::Done), None);
    assert_eq!(out, vec![9]);
    assert_eq!(
        finish_body(&mut out, Ending::Retry { reason: "long".into(), restart: true }),
        Some("long".to_string())
    );
    assert!(out.is_empty());
}
