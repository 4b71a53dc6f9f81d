//! The capture pipeline's decisions: a worker that streams one device's key
//! events until told to stop, and the coordinator that owns at most one such
//! worker, a pause flag and the visible event log.
//!
//! Reading the device, the stop channel and the worker's thread belong to
//! the caller, which feeds what it observed into these state machines and
//! carries out the actions they return.
use vstd::prelude::*;

use crate::deviceinfo::DeviceInfo;
use crate::key_code::KeyCode;

verus! {

// ---------------------------------------------------------------------------
// Worker.

/// What a non-blocking check of the worker's stop channel found.
#[derive(Clone, Copy, Debug, PartialEq, Eq, Structural)]
pub enum StopSignal {
    /// A stop request is waiting.
    Stop,
    /// The coordinator's end of the channel is gone.
    Disconnected,
    /// Nothing is waiting.
    Empty,
}

/// What one blocking read of the device returned.
#[derive(Clone, Debug)]
pub enum ReadOutcome {
    /// A key event with its raw value.
    Key(KeyCode, i32),
    /// An event of another type.
    Other,
    /// The device asks for a resynchronisation.
    Sync,
    /// The read failed; the message says why.
    Failed(String),
}

/// A message from the worker to the coordinator.
#[derive(Clone, Debug)]
pub enum EventCommandMsg {
    NewEvent(KeyCode, i32),
    ErrorOccured(String),
}

/// Life cycle of a capture worker.
#[derive(Clone, Copy, Debug, PartialEq, Eq, Structural)]
pub enum WorkerState {
    Idle,
    Capturing,
    Stopped,
}

/// The decisions of one capture worker.
#[derive(Debug)]
pub struct CaptureWorker {
    pub state: WorkerState,
}

impl CaptureWorker {
    /// A worker that has not opened its device yet.
    pub fn new() -> (r: Self)
        ensures
            r.state == WorkerState::Idle,
    {
        CaptureWorker { state: WorkerState::Idle }
    }

    /// Records the result of opening the device: capturing on success,
    /// stopped with the error forwarded on failure.
    pub fn start(&mut self, opened: Result<(), String>) -> (msg: Option<EventCommandMsg>)
        requires
            old(self).state == WorkerState::Idle,
        ensures
            opened.is_ok() ==> final(self).state == WorkerState::Capturing && msg.is_none(),
            opened.is_err() ==> final(self).state == WorkerState::Stopped && (msg matches Some(
                EventCommandMsg::ErrorOccured(e),
            ) && e == opened->Err_0),
    {
        match opened {
            Ok(()) => {
                self.state = WorkerState::Capturing;
                None
            },
            Err(e) => {
                self.state = WorkerState::Stopped;
                Some(EventCommandMsg::ErrorOccured(e))
            },
        }
    }

    /// Checks the stop channel before the next read: a stop request or a
    /// closed channel ends the capture. Returns whether to read again.
    pub fn should_read(&mut self, signal: StopSignal) -> (r: bool)
        ensures
            r == (old(self).state == WorkerState::Capturing && signal == StopSignal::Empty),
            final(self).state == if old(self).state == WorkerState::Capturing && signal
                != StopSignal::Empty {
                WorkerState::Stopped
            } else {
                old(self).state
            },
    {
        if self.state != WorkerState::Capturing {
            return false;
        }
        match signal {
            StopSignal::Empty => true,
            _ => {
                self.state = WorkerState::Stopped;
                false
            },
        }
    }

    /// Handles one read: a key event is forwarded, other events are
    /// dropped, a resync request ends the capture and a failure is forwarded
    /// and ends it.
    pub fn on_read(&mut self, outcome: ReadOutcome) -> (msg: Option<EventCommandMsg>)
        requires
            old(self).state == WorkerState::Capturing,
        ensures
            outcome matches ReadOutcome::Key(k, v) ==> final(self).state == WorkerState::Capturing
                && (msg matches Some(EventCommandMsg::NewEvent(k2, v2)) && k2 == k && v2 == v),
            outcome matches ReadOutcome::Other ==> final(self).state == WorkerState::Capturing
                && msg.is_none(),
            outcome matches ReadOutcome::Sync ==> final(self).state == WorkerState::Stopped
                && msg.is_none(),
            outcome matches ReadOutcome::Failed(e) ==> final(self).state == WorkerState::Stopped
                && (msg matches Some(EventCommandMsg::ErrorOccured(e2)) && e2 == e),
    {
        match outcome {
            ReadOutcome::Key(k, v) => Some(EventCommandMsg::NewEvent(k, v)),
            ReadOutcome::Other => None,
            ReadOutcome::Sync => {
                self.state = WorkerState::Stopped;
                None
            },
            ReadOutcome::Failed(e) => {
                self.state = WorkerState::Stopped;
                Some(EventCommandMsg::ErrorOccured(e))
            },
        }
    }
}

// ---------------------------------------------------------------------------
// Coordinator.

/// One line of the visible event log.
#[derive(Clone, Copy, Debug, PartialEq, Eq, Structural)]
pub struct LogRecord {
    pub key: KeyCode,
    pub value: i32,
}

/// A request to the coordinator.
#[derive(Clone, Debug)]
pub enum EventLoggerMsg {
    Pause,
    Resume,
    Clear,
    SetDevice(DeviceInfo),
    ClearDevice,
}

/// A failure the coordinator reports to its owner: the message and a
/// context line.
#[derive(Clone, Debug)]
pub enum EventLoggerOutput {
    ErrorOccured(String, Option<String>),
}

/// What the caller must do with the worker after a request.
#[derive(Clone, Copy, Debug, PartialEq, Eq, Structural)]
pub struct LoggerAction {
    /// Send the running worker its stop request.
    pub stop_worker: bool,
    /// Start a worker on the device now held by the coordinator.
    pub start_worker: bool,
}

/// The coordinator: the device being captured, if any, the pause flag and
/// the visible log.
#[derive(Debug)]
pub struct EventLogger {
    device: Option<DeviceInfo>,
    is_paused: bool,
    log: Vec<LogRecord>,
}

/// The coordinator after request `msg` in state `s` (device, paused, log).
pub open spec fn after_msg(
    s: (Option<DeviceInfo>, bool, Seq<LogRecord>),
    msg: EventLoggerMsg,
) -> (Option<DeviceInfo>, bool, Seq<LogRecord>) {
    match msg {
        EventLoggerMsg::Pause => (s.0, true, s.2),
        EventLoggerMsg::Resume => (s.0, false, s.2),
        EventLoggerMsg::Clear => (s.0, true, Seq::empty()),
        EventLoggerMsg::SetDevice(d) => (Some(d), true, Seq::empty()),
        EventLoggerMsg::ClearDevice => (None, true, Seq::empty()),
    }
}

/// What the caller must do with the worker after request `msg` in state `s`.
pub open spec fn action_for(
    s: (Option<DeviceInfo>, bool, Seq<LogRecord>),
    msg: EventLoggerMsg,
) -> LoggerAction {
    match msg {
        EventLoggerMsg::SetDevice(_) => LoggerAction { stop_worker: s.0.is_some(), start_worker: true },
        EventLoggerMsg::ClearDevice => LoggerAction { stop_worker: s.0.is_some(), start_worker: false },
        _ => LoggerAction { stop_worker: false, start_worker: false },
    }
}

/// The coordinator after worker message `cmd` in state `s`: a key event is
/// logged only while a device is active and the log is not paused; an error
/// leaves no active device.
pub open spec fn after_event(
    s: (Option<DeviceInfo>, bool, Seq<LogRecord>),
    cmd: EventCommandMsg,
) -> (Option<DeviceInfo>, bool, Seq<LogRecord>) {
    match cmd {
        EventCommandMsg::NewEvent(k, v) => if !s.1 && s.0.is_some() {
            (s.0, s.1, s.2.push(LogRecord { key: k, value: v }))
        } else {
            s
        },
        EventCommandMsg::ErrorOccured(_) => (None, s.1, s.2),
    }
}

impl View for EventLogger {
    type V = (Option<DeviceInfo>, bool, Seq<LogRecord>);

    closed spec fn view(&self) -> (Option<DeviceInfo>, bool, Seq<LogRecord>) {
        (self.device, self.is_paused, self.log@)
    }
}

impl EventLogger {
    /// No device, paused, empty log.
    pub fn new() -> (r: Self)
        ensures
            r@ == (None::<DeviceInfo>, true, Seq::<LogRecord>::empty()),
    {
        EventLogger { device: None, is_paused: true, log: Vec::new() }
    }

    /// Handles a request and says what to do with the worker.
    pub fn update(&mut self, msg: EventLoggerMsg) -> (action: LoggerAction)
        ensures
            final(self)@ == after_msg(old(self)@, msg),
            action == action_for(old(self)@, msg),
    {
        match msg {
            EventLoggerMsg::Pause => {
                self.is_paused = true;
                LoggerAction { stop_worker: false, start_worker: false }
            },
            EventLoggerMsg::Resume => {
                self.is_paused = false;
                LoggerAction { stop_worker: false, start_worker: false }
            },
            EventLoggerMsg::Clear => {
                self.is_paused = true;
                self.log = Vec::new();
                LoggerAction { stop_worker: false, start_worker: false }
            },
            EventLoggerMsg::SetDevice(dev) => self.set_device(dev),
            EventLoggerMsg::ClearDevice => self.clear_device(),
        }
    }

    /// Handles a message from the worker; an error is passed on to the
    /// owner.
    pub fn update_cmd(&mut self, cmd: EventCommandMsg) -> (out: Option<EventLoggerOutput>)
        ensures
            final(self)@ == after_event(old(self)@, cmd),
            cmd matches EventCommandMsg::NewEvent(_, _) ==> out.is_none(),
            cmd matches EventCommandMsg::ErrorOccured(e) ==> (out matches Some(
                EventLoggerOutput::ErrorOccured(e2, ctx),
            ) && e2 == e && ctx.is_some()),
    {
        match cmd {
            EventCommandMsg::NewEvent(key, value) => {
                if !self.is_paused && self.device.is_some() {
                    self.log.push(LogRecord { key, value });
                }
                None
            },
            EventCommandMsg::ErrorOccured(e) => {
                self.device = None;
                Some(EventLoggerOutput::ErrorOccured(e, Some("Event logger error".to_string())))
            },
        }
    }

    /// The device being captured, if any.
    pub fn device(&self) -> (r: Option<&DeviceInfo>)
        ensures
            r.is_some() == self@.0.is_some(),
            r.is_some() ==> *r.unwrap() == self@.0.unwrap(),
    {
        match &self.device {
            Some(d) => Some(d),
            None => None,
        }
    }

    /// Whether new events are kept out of the log.
    pub fn is_paused(&self) -> (r: bool)
        ensures
            r == self@.1,
    {
        self.is_paused
    }

    /// The visible log, oldest record first.
    pub fn log(&self) -> (r: &Vec<LogRecord>)
        ensures
            r@ == self@.2,
    {
        &self.log
    }

    /// Switches capture to `dev`: the running worker, if any, is asked to
    /// stop, the log is emptied and paused, and a new worker is started.
    fn set_device(&mut self, dev: DeviceInfo) -> (action: LoggerAction)
        ensures
            final(self)@ == (Some(dev), true, Seq::<LogRecord>::empty()),
            action == (LoggerAction { stop_worker: old(self)@.0.is_some(), start_worker: true }),
    {
        let stop_worker = self.device.is_some();
        self.is_paused = true;
        self.log = Vec::new();
        self.device = Some(dev);
        LoggerAction { stop_worker, start_worker: true }
    }

    /// Ends capture: the running worker, if any, is asked to stop and the
    /// log is emptied and paused.
    fn clear_device(&mut self) -> (action: LoggerAction)
        ensures
            final(self)@ == (None::<DeviceInfo>, true, Seq::<LogRecord>::empty()),
            action == (LoggerAction { stop_worker: old(self)@.0.is_some(), start_worker: false }),
    {
        let stop_worker = self.device.is_some();
        self.is_paused = true;
        self.log = Vec::new();
        self.device = None;
        LoggerAction { stop_worker, start_worker: false }
    }
}

/// Pausing never stops consumption: while paused, a key event is taken
/// without asking the worker to stop and leaves the device active and the
/// log unchanged; after resuming, the next key event is appended to the log
/// as it stood.
pub proof fn lemma_pause_keeps_consuming(
    s: (Option<DeviceInfo>, bool, Seq<LogRecord>),
    k1: KeyCode,
    v1: i32,
    k2: KeyCode,
    v2: i32,
)
    requires
        s.0.is_some(),
    ensures
        ({
            let paused = after_msg(s, EventLoggerMsg::Pause);
            let during = after_event(paused, EventCommandMsg::NewEvent(k1, v1));
            let resumed = after_msg(during, EventLoggerMsg::Resume);
            let after = after_event(resumed, EventCommandMsg::NewEvent(k2, v2));
            &&& action_for(s, EventLoggerMsg::Pause) == (LoggerAction {
                stop_worker: false,
                start_worker: false,
            })
            &&& action_for(during, EventLoggerMsg::Resume) == (LoggerAction {
                stop_worker: false,
                start_worker: false,
            })
            &&& during.0 == s.0
            &&& during.2 == s.2
            &&& after.0 == s.0
            &&& after.2 == s.2.push(LogRecord { key: k2, value: v2 })
        }),
{
}

} // verus!
