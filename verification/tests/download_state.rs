use bumble_bee::download_registry::{DownloadEvent, DownloadInfo, DownloadRegistry};
use bumble_bee::downloads::DownloadStatus;
use bumble_bee::transfer::{
    classify_status, disposition_filename, follow_redirect, plan_receive, recover_interrupted, redirect_allowed,
    restore, restore_all, transfer_gate, ReceivePlan, RedirectState, ResponseClass, TransferError, TransferGate, MAX_REDIRECTS,
};
use url::Url;

fn queued(id: u128, name: &str) -> DownloadInfo {
    DownloadInfo::queued(id, format!("https://example.com/{name}"), name.to_string(), format!("/dl/{name}"))
}

#[test]
fn queued_record_starts_empty() {
    let info = queued(7, "a.txt");
    assert_eq!(info.id, 7);
    assert_eq!(info.status, DownloadStatus::Queued);
    assert_eq!(info.downloaded_bytes, 0);
    assert_eq!(info.total_bytes, None);
    assert_eq!(info.error, None);
    assert_eq!(info.destination, "/dl/a.txt");
}

#[test]
fn add_get_list_and_remove() {
    let mut reg = DownloadRegistry::new();
    match reg.add(queued(1, "a.txt")) {
        DownloadEvent::Added(i) => assert_eq!(i.filename, "a.txt"),
        other => panic!("unexpected event {other:?}"),
    }
    reg.add(queued(2, "b.txt"));
    let mut ids: Vec<u128> = reg.list().iter().map(|i| i.id).collect();
    ids.sort();
    assert_eq!(ids, vec![1, 2]);
    assert_eq!(reg.get(2).unwrap().filename, "b.txt");
    assert!(reg.get(3).is_none());
    reg.insert(queued(1, "c.txt"));
    assert_eq!(reg.list().len(), 2);
    assert_eq!(reg.get(1).unwrap().filename, "c.txt");
    assert!(reg.remove_history(1));
    assert!(!reg.remove_history(1));
    assert!(reg.get(1).is_none());
    assert_eq!(reg.list().len(), 1);
}

#[test]
fn pause_resume_and_cancel() {
    let mut reg = DownloadRegistry::new();
    reg.add(queued(5, "a.bin"));
    reg.set_status(5, DownloadStatus::Downloading);
    let (found, event) = reg.pause(5);
    assert!(found);
    match event {
        Some(DownloadEvent::Progress(i)) => assert_eq!(i.status, DownloadStatus::Paused),
        other => panic!("unexpected event {other:?}"),
    }
    assert_eq!(reg.requests(5), (true, false));
    let (found, event) = reg.resume(5);
    assert!(found);
    assert!(matches!(event, Some(DownloadEvent::Progress(ref i)) if i.status == DownloadStatus::Downloading));
    assert_eq!(reg.requests(5), (false, false));
    let (found, event) = reg.resume(5);
    assert!(found);
    assert!(event.is_none());
    assert!(reg.cancel(5));
    assert_eq!(reg.requests(5), (false, true));
    assert_eq!(reg.get(5).unwrap().status, DownloadStatus::Downloading);
    assert_eq!(reg.pause(9).0, false);
    assert!(reg.pause(9).1.is_none());
    assert!(!reg.resume(9).0);
    assert!(!reg.cancel(9));
    assert_eq!(reg.requests(9), (false, false));
}

#[test]
fn transfer_progress_and_completion() {
    let mut reg = DownloadRegistry::new();
    reg.add(queued(3, "a.iso"));
    reg.set_destination(3, "b.iso".to_string(), "/dl/b.iso".to_string());
    reg.begin_receiving(3, Some(100), 10);
    reg.record_progress(3, 60);
    reg.set_speed(3, 1234);
    let info = reg.get(3).unwrap();
    assert_eq!((info.filename.as_str(), info.destination.as_str()), ("b.iso", "/dl/b.iso"));
    assert_eq!((info.total_bytes, info.downloaded_bytes, info.status), (Some(100), 60, DownloadStatus::Downloading));
    assert_eq!(info.speed_bytes_per_second, Some(1234));
    match reg.complete(3, 100, "ab".to_string()) {
        Some(DownloadEvent::Completed(i)) => {
            assert_eq!(i.status, DownloadStatus::Completed);
            assert_eq!(i.total_bytes, Some(100));
            assert_eq!(i.sha256.as_deref(), Some("ab"));
        }
        other => panic!("unexpected event {other:?}"),
    }
    assert!(reg.complete(4, 1, "x".to_string()).is_none());
}

#[test]
fn failure_cancellation_and_restart() {
    let mut reg = DownloadRegistry::new();
    reg.add(queued(8, "a"));
    assert!(!reg.resume_interrupted(8));
    match reg.fail(8, "HTTP 404 Not Found".to_string()) {
        Some(DownloadEvent::Failed(i)) => assert_eq!(i.error.as_deref(), Some("HTTP 404 Not Found")),
        other => panic!("unexpected event {other:?}"),
    }
    reg.cancel(8);
    assert!(reg.resume_interrupted(8));
    let info = reg.get(8).unwrap();
    assert_eq!(info.status, DownloadStatus::Queued);
    assert_eq!(info.error, None);
    assert_eq!(reg.requests(8), (false, false));
    assert!(matches!(reg.finish_cancelled(8), Some(DownloadEvent::Cancelled(ref i)) if i.status == DownloadStatus::Cancelled));
    assert!(!reg.resume_interrupted(8));
    assert!(reg.fail(99, "x".to_string()).is_none());
    assert!(reg.finish_cancelled(99).is_none());
    assert!(!reg.resume_interrupted(99));
}

#[test]
fn records_recovered_after_restart() {
    let mut running = queued(1, "a");
    running.status = DownloadStatus::Downloading;
    let paused = recover_interrupted(running.clone(), Some(42));
    assert_eq!((paused.status, paused.downloaded_bytes), (DownloadStatus::Paused, 42));
    let failed = recover_interrupted(running, None);
    assert_eq!(failed.status, DownloadStatus::Failed);
    assert_eq!(failed.error.as_deref(), Some("Interrupted download has no partial file"));
    let mut done = queued(2, "b");
    done.status = DownloadStatus::Completed;
    let kept = recover_interrupted(done, None);
    assert_eq!(kept.status, DownloadStatus::Completed);
    assert_eq!(kept.error, None);
    let mut reg = DownloadRegistry::new();
    restore(&mut reg, queued(3, "c"), Some(5));
    assert_eq!(reg.get(3).unwrap().status, DownloadStatus::Paused);
}

#[test]
fn response_decisions() {
    assert_eq!(classify_status(301), ResponseClass::Redirect);
    assert_eq!(classify_status(399), ResponseClass::Redirect);
    assert_eq!(classify_status(200), ResponseClass::Success);
    assert_eq!(classify_status(206), ResponseClass::Success);
    assert_eq!(classify_status(404), ResponseClass::Failure);
    assert_eq!(classify_status(100), ResponseClass::Failure);
    assert!(redirect_allowed(MAX_REDIRECTS));
    assert!(!redirect_allowed(MAX_REDIRECTS + 1));
    assert_eq!(plan_receive(206, 10, Some("90")), ReceivePlan { append: true, start_bytes: 10, total_bytes: Some(100) });
    assert_eq!(plan_receive(200, 10, Some("90")), ReceivePlan { append: false, start_bytes: 0, total_bytes: Some(90) });
    assert_eq!(plan_receive(206, 0, Some("+5")), ReceivePlan { append: false, start_bytes: 0, total_bytes: Some(5) });
    assert_eq!(plan_receive(200, 0, Some("abc")), ReceivePlan { append: false, start_bytes: 0, total_bytes: None });
    assert_eq!(plan_receive(200, 0, Some(" 5")), ReceivePlan { append: false, start_bytes: 0, total_bytes: None });
    assert_eq!(plan_receive(200, 3, None), ReceivePlan { append: false, start_bytes: 0, total_bytes: None });
    assert_eq!(
        plan_receive(206, 10, Some("18446744073709551615")),
        ReceivePlan { append: true, start_bytes: 10, total_bytes: Some(u64::MAX) }
    );
    assert_eq!(plan_receive(200, 0, Some("18446744073709551616")).total_bytes, None);
    assert_eq!(transfer_gate(true, true), TransferGate::Stop);
    assert_eq!(transfer_gate(true, false), TransferGate::Wait);
    assert_eq!(transfer_gate(false, false), TransferGate::Go);
    assert_eq!(disposition_filename(Some("attachment; filename=\"a/b.txt\"")), Some("a_b.txt".to_string()));
    assert_eq!(disposition_filename(Some("inline")), None);
    assert_eq!(disposition_filename(None), None);
}

#[test]
fn redirects_resolve_against_the_current_url() {
    let base = Url::parse("https://example.com/a/b").unwrap();
    assert_eq!(follow_redirect(&base, Some("c")).unwrap().as_str(), "https://example.com/a/c");
    assert_eq!(follow_redirect(&base, Some("https://other.org/x")).unwrap().as_str(), "https://other.org/x");
    assert!(matches!(follow_redirect(&base, None), Err(TransferError::MissingLocation)));
    assert!(matches!(follow_redirect(&base, Some("http://[::1")), Err(TransferError::InvalidLocation(_))));
}

#[test]
fn redirect_state_counts_and_stops() {
    assert!(RedirectState::start("not a url").is_err());
    let mut state = RedirectState::start("https://example.com/a/b").unwrap();
    assert!(matches!(state.follow(None), Err(TransferError::MissingLocation)));
    for i in 0..MAX_REDIRECTS {
        assert!(state.may_request());
        state.follow(Some(&format!("/r{i}"))).unwrap();
    }
    assert_eq!(state.url().as_str(), "https://example.com/r9");
    assert!(state.may_request());
    state.follow(Some("/last")).unwrap();
    assert!(!state.may_request());
}

#[test]
fn transfer_error_messages() {
    assert_eq!(TransferError::TooManyRedirects.message(), "too many redirects");
    assert_eq!(TransferError::MissingLocation.message(), "redirect response has no Location header");
    assert_eq!(TransferError::Status(404).message(), "HTTP 404 Not Found");
    assert_eq!(TransferError::Status(799).message(), "HTTP 799 <unknown status code>");
    assert_eq!(TransferError::Status(42).message(), "HTTP 42");
    let base = Url::parse("https://example.com/").unwrap();
    match follow_redirect(&base, Some("http://[::1")) {
        Err(e) => assert_eq!(e.message(), "invalid IPv6 address"),
        Ok(_) => panic!("the location does not parse"),
    }
}

#[test]
fn saved_table_reads_back() {
    let mut done = queued(1, "a");
    done.status = DownloadStatus::Completed;
    let mut running = queued(2, "b");
    running.status = DownloadStatus::Downloading;
    let waiting = queued(3, "c");
    let mut reg = DownloadRegistry::new();
    restore_all(&mut reg, vec![done, running, waiting], &vec![None, Some(7)]);
    let mut list = reg.list();
    list.sort_by_key(|i| i.id);
    assert_eq!(list.iter().map(|i| (i.id, i.status)).collect::<Vec<_>>(), vec![
        (1, DownloadStatus::Completed),
        (2, DownloadStatus::Paused),
        (3, DownloadStatus::Failed),
    ]);
    assert_eq!(list[1].downloaded_bytes, 7);
}

#[test]
fn cancelled_transfer_stops() {
    let mut reg = DownloadRegistry::new();
    reg.add(queued(4, "d"));
    reg.pause(4);
    reg.cancel(4);
    let (paused, cancelled) = reg.requests(4);
    assert_eq!(transfer_gate(paused, cancelled), TransferGate::Stop);
    reg.finish_cancelled(4);
    assert_eq!(reg.get(4).unwrap().status, DownloadStatus::Cancelled);
}

#[test]
fn new_queued_download_has_a_random_v4_id() {
    let a = DownloadInfo::new_queued("https://example.com/a".to_string(), "a".to_string(), "/dl/a".to_string());
    let b = DownloadInfo::new_queued("https://example.com/a".to_string(), "a".to_string(), "/dl/a".to_string());
    assert_eq!((a.id >> 76) & 0xf, 4);
    assert_eq!((a.id >> 62) & 0x3, 2);
    assert_ne!(a.id, b.id);
    assert_eq!(a.status, DownloadStatus::Queued);
    assert_eq!(a.downloaded_bytes, 0);
    assert_eq!(a.filename, "a");
}
