use xpenology_usb::download::{Action, Download, Event, Phase};

fn answer(status: u16, content_range: Option<&str>, content_length: Option<u64>) -> Event {
    Event::Answer {
        status,
        content_range: content_range.map(|s| s.to_owned()),
        content_length,
    }
}

fn feed(dl: &mut Download, e: Event) -> Action {
    assert!(dl.accepts(&e));
    dl.step(e)
}

#[test]
fn a_download_in_one_go_hands_out_the_body() {
    let (mut dl, first) = Download::start();
    assert!(matches!(first, Action::AskStop));
    let a = feed(&mut dl, Event::Stop(false));
    assert!(matches!(a, Action::Send { wait: false, range: None }));
    let a = feed(&mut dl, answer(200, None, Some(5)));
    assert!(matches!(a, Action::Read));
    let a = feed(&mut dl, Event::Piece(vec![1, 2, 3, 4, 5]));
    assert!(matches!(a, Action::Report { have: 5, total: Some(5) }));
    let a = feed(&mut dl, Event::Stop(false));
    assert!(matches!(a, Action::Read));
    match feed(&mut dl, Event::BodyEnd) {
        Action::Done(bytes) => assert_eq!(bytes, vec![1, 2, 3, 4, 5]),
        _ => panic!("expected the file"),
    }
    assert_eq!(dl.phase, Phase::Over);
}

#[test]
fn a_stop_before_the_first_attempt_cancels() {
    let (mut dl, _) = Download::start();
    match feed(&mut dl, Event::Stop(true)) {
        Action::Fail(m) => assert_eq!(m, "취소됨"),
        _ => panic!("expected a cancel"),
    }
    assert!(!dl.accepts(&Event::Stop(false)));
}

#[test]
fn a_stop_after_a_piece_cancels() {
    let (mut dl, _) = Download::start();
    feed(&mut dl, Event::Stop(false));
    feed(&mut dl, answer(200, None, Some(8)));
    feed(&mut dl, Event::Piece(vec![9; 3]));
    match feed(&mut dl, Event::Stop(true)) {
        Action::Fail(m) => assert_eq!(m, "취소됨"),
        _ => panic!("expected a cancel"),
    }
}

#[test]
fn a_broken_body_resumes_from_where_it_stopped() {
    let (mut dl, _) = Download::start();
    feed(&mut dl, Event::Stop(false));
    feed(&mut dl, answer(200, None, Some(10)));
    feed(&mut dl, Event::Piece(vec![0, 1, 2, 3]));
    feed(&mut dl, Event::Stop(false));
    let a = feed(&mut dl, Event::ReadFailed("reset".to_owned()));
    assert!(matches!(a, Action::AskStop));
    assert_eq!(dl.budget.attempt, 1);
    assert_eq!(dl.budget.best, 4);
    match feed(&mut dl, Event::Stop(false)) {
        Action::Send { wait, range } => {
            assert!(wait);
            assert_eq!(range.as_deref(), Some("bytes=4-"));
        }
        _ => panic!("expected a request"),
    }
    let a = feed(&mut dl, answer(206, Some("bytes 4-9/10"), Some(6)));
    assert!(matches!(a, Action::Read));
    let a = feed(&mut dl, Event::Piece(vec![4, 5, 6, 7, 8, 9]));
    assert!(matches!(a, Action::Report { have: 10, total: Some(10) }));
    feed(&mut dl, Event::Stop(false));
    match feed(&mut dl, Event::BodyEnd) {
        Action::Done(bytes) => assert_eq!(bytes, (0u8..10).collect::<Vec<u8>>()),
        _ => panic!("expected the file"),
    }
}

#[test]
fn a_range_answered_from_elsewhere_drops_what_was_received() {
    let (mut dl, _) = Download::start();
    feed(&mut dl, Event::Stop(false));
    feed(&mut dl, answer(200, None, Some(10)));
    feed(&mut dl, Event::Piece(vec![0, 1, 2, 3]));
    feed(&mut dl, Event::Stop(false));
    feed(&mut dl, Event::ReadFailed("reset".to_owned()));
    feed(&mut dl, Event::Stop(false));
    let a = feed(&mut dl, answer(206, Some("bytes 0-9/10"), Some(10)));
    assert!(matches!(a, Action::AskStop));
    assert!(dl.received.is_empty());
    assert_eq!(dl.last_err, "서버가 0 바이트부터 보냈습니다 (요청한 자리: 4)");
    match feed(&mut dl, Event::Stop(false)) {
        Action::Send { range, .. } => assert!(range.is_none()),
        _ => panic!("expected a request"),
    }
}

#[test]
fn an_error_status_fails_at_once() {
    let (mut dl, _) = Download::start();
    feed(&mut dl, Event::Stop(false));
    match feed(&mut dl, answer(404, None, None)) {
        Action::Fail(m) => assert_eq!(m, "내려받기에 실패했습니다 (HTTP 404)"),
        _ => panic!("expected a failure"),
    }
}

#[test]
fn a_longer_body_than_announced_is_dropped_and_fetched_again() {
    let (mut dl, _) = Download::start();
    feed(&mut dl, Event::Stop(false));
    feed(&mut dl, answer(200, None, Some(2)));
    feed(&mut dl, Event::Piece(vec![1, 2, 3]));
    feed(&mut dl, Event::Stop(false));
    let a = feed(&mut dl, Event::BodyEnd);
    assert!(matches!(a, Action::AskStop));
    assert!(dl.received.is_empty());
    assert_eq!(dl.last_err, "받은 양이 알려준 크기보다 많습니다 (3/2 바이트)");
}

#[test]
fn five_fruitless_attempts_give_up_with_the_last_failure() {
    let (mut dl, _) = Download::start();
    let mut last = Action::AskStop;
    for k in 0..5 {
        assert!(matches!(last, Action::AskStop));
        match feed(&mut dl, Event::Stop(false)) {
            Action::Send { wait, .. } => assert_eq!(wait, k > 0),
            _ => panic!("expected a request"),
        }
        last = feed(&mut dl, Event::SendFailed(format!("no route {k}")));
    }
    match last {
        Action::Fail(m) => {
            assert_eq!(m, "내려받기를 여러 번 시도했지만 완료하지 못했습니다: no route 4")
        }
        _ => panic!("expected to give up"),
    }
    assert_eq!(dl.budget.attempt, 5);
    assert_eq!(dl.budget.fruitless, 5);
}
