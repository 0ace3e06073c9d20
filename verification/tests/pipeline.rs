use std::cell::RefCell;
use std::rc::Rc;
use xpenology_usb::pipeline::{planned_stages, Cancel, NeverCancel, ProgressEvent, ProgressReporter};
use xpenology_usb::progress::Stage;

fn collector() -> (Rc<RefCell<Vec<ProgressEvent>>>, impl FnMut(ProgressEvent)) {
    let out = Rc::new(RefCell::new(Vec::new()));
    let sink = Rc::clone(&out);
    (out, move |e| sink.borrow_mut().push(e))
}

#[test]
fn planned_stages_include_verify_only_when_asked() {
    assert!(!planned_stages(false).contains(&Stage::Verifying));
    assert!(planned_stages(true).contains(&Stage::Verifying));
    assert_eq!(*planned_stages(true).last().unwrap(), Stage::Finishing);
    assert_eq!(*planned_stages(false).last().unwrap(), Stage::Finishing);
}

#[test]
fn beginning_a_stage_marks_the_previous_one_complete() {
    let (out, sink) = collector();
    let mut r = ProgressReporter::new(sink);
    r.begin(Stage::Downloading, None);
    r.begin(Stage::Extracting, None);
    let last = out.borrow().last().unwrap().clone();
    assert_eq!(last.stage, Stage::Extracting);
    assert!(last.completed.contains(&Stage::Resolving));
    assert!(last.completed.contains(&Stage::Downloading));
}

#[test]
fn repeated_percentages_are_not_emitted() {
    let (out, sink) = collector();
    let mut r = ProgressReporter::new(sink);
    r.begin(Stage::Downloading, None);
    let before = out.borrow().len();
    for i in 0..1000u64 {
        r.update(i, Some(100_000), 10_000, 1);
    }
    let emitted = out.borrow().len() - before;
    assert!(emitted <= 100, "too many events: {emitted}");
    assert!(emitted > 0, "no event at all");
}

#[test]
fn burst_reads_do_not_produce_absurd_speeds() {
    let (out, sink) = collector();
    let mut r = ProgressReporter::new(sink);
    r.begin(Stage::Downloading, None);
    let chunk = 256 * 1024u64;
    let mut done = 0u64;
    for i in 0..400 {
        done += chunk;
        let dt = if i % 8 == 0 { 50_000 } else { 50 };
        r.update(done, Some(600_000_000), dt, chunk);
    }
    let speed = out
        .borrow()
        .iter()
        .filter_map(|e| e.bytes_per_sec)
        .max()
        .expect("a speed must be reported");
    assert!(speed < 500_000_000, "absurd speed reported: {} B/s", speed);
}

#[test]
fn update_reports_percent_and_eta() {
    let (out, sink) = collector();
    let mut r = ProgressReporter::new(sink);
    r.begin(Stage::Downloading, Some("m-shell v1.4.2.8".into()));
    r.update(500, Some(1000), 1_000_000, 500);
    let e = out.borrow().last().unwrap().clone();
    assert_eq!(e.percent, Some(50));
    assert_eq!(e.total_bytes, Some(1000));
    assert!(e.bytes_per_sec.is_some());
    assert!(e.eta_secs.is_some());
    assert_eq!(e.detail.as_deref(), Some("m-shell v1.4.2.8"));
}

#[test]
fn unknown_total_produces_indeterminate_progress() {
    let (out, sink) = collector();
    let mut r = ProgressReporter::new(sink);
    r.begin(Stage::Downloading, None);
    r.update(1234, None, 1_000_000, 1234);
    let e = out.borrow().last().unwrap().clone();
    assert_eq!(e.percent, None);
    assert_eq!(e.eta_secs, None);
}

#[test]
fn finish_marks_the_last_stage_complete() {
    let (out, sink) = collector();
    let mut r = ProgressReporter::new(sink);
    r.begin(Stage::Finishing, None);
    r.finish();
    assert!(out
        .borrow()
        .last()
        .unwrap()
        .completed
        .contains(&Stage::Finishing));
}

#[test]
fn detail_is_cleared_between_stages() {
    let (out, sink) = collector();
    let mut r = ProgressReporter::new(sink);
    r.begin(Stage::Downloading, Some("file name".into()));
    r.begin(Stage::Writing, None);
    assert_eq!(out.borrow().last().unwrap().detail, None);
}

#[test]
fn never_cancel_never_cancels() {
    assert!(!NeverCancel.is_canceled());
}
