use evremap_config::deviceinfo::DeviceInfo;
use evremap_config::event_logger::{
    CaptureWorker, EventCommandMsg, EventLogger, EventLoggerMsg, EventLoggerOutput, LogRecord,
    LoggerAction, ReadOutcome, StopSignal, WorkerState,
};
use evremap_config::key_code::KeyCode;

fn dev(path: &str) -> DeviceInfo {
    DeviceInfo {
        name: "Keyboard".to_string(),
        phys: None,
        path: path.to_string(),
        supports_remap: true,
    }
}

fn rec(code: u16, value: i32) -> LogRecord {
    LogRecord { key: KeyCode(code), value }
}

#[test]
fn worker_forwards_key_events_and_drops_others() {
    let mut w = CaptureWorker::new();
    assert_eq!(w.state, WorkerState::Idle);
    assert!(w.start(Ok(())).is_none());
    assert_eq!(w.state, WorkerState::Capturing);
    assert!(w.should_read(StopSignal::Empty));
    match w.on_read(ReadOutcome::Key(KeyCode(30), 1)) {
        Some(EventCommandMsg::NewEvent(k, v)) => {
            assert_eq!(k, KeyCode(30));
            assert_eq!(v, 1);
        }
        other => panic!("unexpected {:?}", other),
    }
    assert!(w.on_read(ReadOutcome::Other).is_none());
    assert_eq!(w.state, WorkerState::Capturing);
}

#[test]
fn worker_stops_on_stop_request_or_closed_channel() {
    let mut w = CaptureWorker::new();
    w.start(Ok(()));
    assert!(!w.should_read(StopSignal::Stop));
    assert_eq!(w.state, WorkerState::Stopped);
    assert!(!w.should_read(StopSignal::Empty));

    let mut w = CaptureWorker::new();
    w.start(Ok(()));
    assert!(!w.should_read(StopSignal::Disconnected));
    assert_eq!(w.state, WorkerState::Stopped);
}

#[test]
fn worker_stops_on_resync_and_forwards_failures() {
    let mut w = CaptureWorker::new();
    w.start(Ok(()));
    assert!(w.on_read(ReadOutcome::Sync).is_none());
    assert_eq!(w.state, WorkerState::Stopped);

    let mut w = CaptureWorker::new();
    w.start(Ok(()));
    match w.on_read(ReadOutcome::Failed("read failed".to_string())) {
        Some(EventCommandMsg::ErrorOccured(e)) => assert_eq!(e, "read failed"),
        other => panic!("unexpected {:?}", other),
    }
    assert_eq!(w.state, WorkerState::Stopped);
}

#[test]
fn worker_that_cannot_open_reports_and_stops() {
    let mut w = CaptureWorker::new();
    match w.start(Err("permission denied".to_string())) {
        Some(EventCommandMsg::ErrorOccured(e)) => assert_eq!(e, "permission denied"),
        other => panic!("unexpected {:?}", other),
    }
    assert_eq!(w.state, WorkerState::Stopped);
    assert!(!w.should_read(StopSignal::Empty));
}

#[test]
fn set_device_pauses_clears_and_starts_worker() {
    let mut l = EventLogger::new();
    assert!(l.is_paused());
    assert!(l.device().is_none());
    let a = l.update(EventLoggerMsg::SetDevice(dev("/dev/input/event3")));
    assert_eq!(a, LoggerAction { stop_worker: false, start_worker: true });
    assert!(l.is_paused());
    assert_eq!(l.device().unwrap().path, "/dev/input/event3");
    l.update(EventLoggerMsg::Resume);
    l.update_cmd(EventCommandMsg::NewEvent(KeyCode(30), 1));
    assert_eq!(l.log(), &vec![rec(30, 1)]);
    let a = l.update(EventLoggerMsg::SetDevice(dev("/dev/input/event4")));
    assert_eq!(a, LoggerAction { stop_worker: true, start_worker: true });
    assert!(l.is_paused());
    assert!(l.log().is_empty());
}

#[test]
fn paused_logger_keeps_consuming_without_logging() {
    let mut l = EventLogger::new();
    l.update(EventLoggerMsg::SetDevice(dev("/dev/input/event3")));
    l.update(EventLoggerMsg::Resume);
    l.update_cmd(EventCommandMsg::NewEvent(KeyCode(30), 1));
    let a = l.update(EventLoggerMsg::Pause);
    assert_eq!(a, LoggerAction { stop_worker: false, start_worker: false });
    assert!(l.update_cmd(EventCommandMsg::NewEvent(KeyCode(30), 0)).is_none());
    assert!(l.device().is_some());
    assert_eq!(l.log(), &vec![rec(30, 1)]);
    l.update(EventLoggerMsg::Resume);
    l.update_cmd(EventCommandMsg::NewEvent(KeyCode(48), 1));
    assert_eq!(l.log(), &vec![rec(30, 1), rec(48, 1)]);
}

#[test]
fn events_without_device_are_not_logged() {
    let mut l = EventLogger::new();
    l.update(EventLoggerMsg::Resume);
    l.update_cmd(EventCommandMsg::NewEvent(KeyCode(30), 1));
    assert!(l.log().is_empty());
}

#[test]
fn clear_log_pauses_and_keeps_worker() {
    let mut l = EventLogger::new();
    l.update(EventLoggerMsg::SetDevice(dev("/dev/input/event3")));
    l.update(EventLoggerMsg::Resume);
    l.update_cmd(EventCommandMsg::NewEvent(KeyCode(30), 2));
    let a = l.update(EventLoggerMsg::Clear);
    assert_eq!(a, LoggerAction { stop_worker: false, start_worker: false });
    assert!(l.log().is_empty());
    assert!(l.is_paused());
    assert!(l.device().is_some());
}

#[test]
fn clear_device_stops_worker() {
    let mut l = EventLogger::new();
    let a = l.update(EventLoggerMsg::ClearDevice);
    assert_eq!(a, LoggerAction { stop_worker: false, start_worker: false });
    l.update(EventLoggerMsg::SetDevice(dev("/dev/input/event3")));
    let a = l.update(EventLoggerMsg::ClearDevice);
    assert_eq!(a, LoggerAction { stop_worker: true, start_worker: false });
    assert!(l.device().is_none());
    assert!(l.log().is_empty());
}

#[test]
fn worker_error_is_reported_and_deactivates_device() {
    let mut l = EventLogger::new();
    l.update(EventLoggerMsg::SetDevice(dev("/dev/input/event3")));
    l.update(EventLoggerMsg::Resume);
    match l.update_cmd(EventCommandMsg::ErrorOccured("gone".to_string())) {
        Some(EventLoggerOutput::ErrorOccured(e, ctx)) => {
            assert_eq!(e, "gone");
            assert!(ctx.is_some());
        }
        None => panic!("no error reported"),
    }
    assert!(l.device().is_none());
    l.update_cmd(EventCommandMsg::NewEvent(KeyCode(30), 1));
    assert!(l.log().is_empty());
}
