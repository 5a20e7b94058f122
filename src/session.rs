use vstd::prelude::*;

use crate::codec::{
    decode_telemetry, frame, frame_command, get_request, get_request_command, telemetry_of,
    InsenError,
};
use crate::state::ControllerState;
use crate::store::ControllerStore;

verus! {

/// What an active monitor loop polls, and how often.
#[derive(Clone, Copy, Debug, PartialEq, Eq, Structural)]
pub struct MonitorPlan {
    pub controller_id: u8,
    pub interval_ms: u64,
}

/// The abstract state of a session.
pub struct SessionView {
    pub connected: bool,
    pub monitor: Option<MonitorPlan>,
    pub controllers: Map<u8, ControllerState>,
}

impl SessionView {
    /// The state after a request to monitor `controller_id` at `fps` updates a second:
    /// unchanged while a loop is already running.
    pub open spec fn after_start(self, controller_id: u8, fps: u32) -> SessionView {
        if self.monitor is Some {
            self
        } else {
            SessionView {
                monitor: Some(MonitorPlan { controller_id, interval_ms: (1000u32 / fps) as u64 }),
                ..self
            }
        }
    }

    /// The state after monitoring is stopped.
    pub open spec fn after_stop(self) -> SessionView {
        SessionView { monitor: None, ..self }
    }

    /// The state after the session lets go of its transport.
    pub open spec fn after_disconnect(self) -> SessionView {
        SessionView { connected: false, monitor: None, ..self }
    }

    /// The command to send for `command`, or `NotConnected`.
    pub open spec fn request(self, command: Seq<char>) -> Result<Seq<char>, InsenError> {
        if self.connected {
            Ok(frame(command))
        } else {
            Err(InsenError::NotConnected)
        }
    }
}

/// A client session with one device.
///
/// The session decides; whoever holds the transport performs what it decides:
/// it writes each command line that a method returns, reads one reply, and
/// hands the reply back.
pub struct InsenController {
    connected: bool,
    monitor: Option<MonitorPlan>,
    controllers: ControllerStore,
}

impl View for InsenController {
    type V = SessionView;

    closed spec fn view(&self) -> SessionView {
        SessionView {
            connected: self.connected,
            monitor: self.monitor,
            controllers: self.controllers@,
        }
    }
}

pub open spec fn result_view(r: Result<String, InsenError>) -> Result<Seq<char>, InsenError> {
    match r {
        Ok(s) => Ok(s@),
        Err(e) => Err(e),
    }
}

impl InsenController {
    /// A session with no transport, no monitor loop and nothing heard.
    pub fn new() -> (r: InsenController)
        ensures
            r@.connected == false,
            r@.monitor is None,
            r@.controllers == Map::<u8, ControllerState>::empty(),
    {
        InsenController { connected: false, monitor: None, controllers: ControllerStore::new() }
    }

    /// Takes note of the outcome of opening the transport. When it opened, the
    /// session is connected and the device-information query is returned for
    /// sending; otherwise the session is unchanged and `ConnectionError` results.
    pub fn connect(&mut self, opened: bool) -> (r: Result<String, InsenError>)
        ensures
            opened ==> final(self)@ == (SessionView { connected: true, ..old(self)@ }),
            opened ==> result_view(r) == Ok::<Seq<char>, InsenError>(
                frame(seq!['I', 'N', 'F', 'O']),
            ),
            !opened ==> final(self)@ == old(self)@,
            !opened ==> r == Err::<String, InsenError>(InsenError::ConnectionError),
    {
        if !opened {
            return Err(InsenError::ConnectionError);
        }
        self.connected = true;
        self.get_device_info()
    }

    /// Stops any monitor loop and lets go of the transport. Returns whether a
    /// transport was held, that is, whether it is now to be released.
    pub fn disconnect(&mut self) -> (release: bool)
        ensures
            final(self)@ == old(self)@.after_disconnect(),
            release == old(self)@.connected,
    {
        self.stop_monitoring();
        let release = self.connected;
        self.connected = false;
        release
    }

    /// The line to write for `command`, or `NotConnected` without a transport.
    pub fn send_command(&self, command: &str) -> (r: Result<String, InsenError>)
        ensures
            result_view(r) == self@.request(command@),
    {
        if !self.connected {
            return Err(InsenError::NotConnected);
        }
        Ok(frame_command(command))
    }

    /// Decodes a telemetry response and, when it is well formed, records the
    /// state it reports as the last known state of its controller.
    pub fn parse_controller_input(&mut self, response: &str, timestamp: u64) -> (r: Result<
        ControllerState,
        InsenError,
    >)
        ensures
            match telemetry_of(response@, timestamp) {
                Some(st) => {
                    &&& r == Ok::<ControllerState, InsenError>(st)
                    &&& final(self)@ == (SessionView {
                        controllers: old(self)@.controllers.insert(st.id, st),
                        ..old(self)@
                    })
                },
                None => {
                    &&& r == Err::<ControllerState, InsenError>(InsenError::ParseError)
                    &&& final(self)@ == old(self)@
                },
            },
    {
        let r = decode_telemetry(response, timestamp);
        if let Ok(st) = r {
            self.controllers.put(st.id, st);
        }
        r
    }

    /// The device-information query: `INFO`.
    pub fn get_device_info(&self) -> (r: Result<String, InsenError>)
        ensures
            result_view(r) == self@.request(seq!['I', 'N', 'F', 'O']),
    {
        proof {
            reveal_strlit("INFO");
        }
        assert("INFO"@ =~= seq!['I', 'N', 'F', 'O']);
        self.send_command("INFO")
    }

    /// The status query: `STATUS`.
    pub fn get_status(&self) -> (r: Result<String, InsenError>)
        ensures
            result_view(r) == self@.request(seq!['S', 'T', 'A', 'T', 'U', 'S']),
    {
        proof {
            reveal_strlit("STATUS");
        }
        assert("STATUS"@ =~= seq!['S', 'T', 'A', 'T', 'U', 'S']);
        self.send_command("STATUS")
    }

    /// The query for the list of attached controllers: `LIST`.
    pub fn list_controllers(&self) -> (r: Result<String, InsenError>)
        ensures
            result_view(r) == self@.request(seq!['L', 'I', 'S', 'T']),
    {
        proof {
            reveal_strlit("LIST");
        }
        assert("LIST"@ =~= seq!['L', 'I', 'S', 'T']);
        self.send_command("LIST")
    }

    /// The query for the state of controller `controller_id`: `GET <id>`.
    pub fn input_request(&self, controller_id: u8) -> (r: Result<String, InsenError>)
        ensures
            result_view(r) == self@.request(get_request(controller_id)),
    {
        let command = get_request_command(controller_id);
        self.send_command(command.as_str())
    }

    /// The state reported by the reply to an input request, recorded as in
    /// `parse_controller_input`; a malformed reply gives `None`.
    pub fn get_controller_input(&mut self, reply: &str, timestamp: u64) -> (r: Option<
        ControllerState,
    >)
        ensures
            r == telemetry_of(reply@, timestamp),
            match telemetry_of(reply@, timestamp) {
                Some(st) => final(self)@ == (SessionView {
                    controllers: old(self)@.controllers.insert(st.id, st),
                    ..old(self)@
                }),
                None => final(self)@ == old(self)@,
            },
    {
        match self.parse_controller_input(reply, timestamp) {
            Ok(st) => Some(st),
            Err(_) => None,
        }
    }

    /// Starts monitoring `controller_id` at `fps` updates a second. Returns the
    /// plan of the loop to launch, or `None` when a loop is already running, in
    /// which case nothing changes.
    pub fn start_monitoring(&mut self, controller_id: u8, fps: u32) -> (r: Option<MonitorPlan>)
        requires
            fps > 0,
        ensures
            final(self)@ == old(self)@.after_start(controller_id, fps),
            r == (if old(self)@.monitor is Some {
                None::<MonitorPlan>
            } else {
                final(self)@.monitor
            }),
    {
        if self.monitor.is_some() {
            return None;
        }
        let plan = MonitorPlan { controller_id, interval_ms: (1000u32 / fps) as u64 };
        self.monitor = Some(plan);
        Some(plan)
    }

    /// Stops monitoring; a running loop ends at its next check.
    pub fn stop_monitoring(&mut self)
        ensures
            final(self)@ == old(self)@.after_stop(),
    {
        self.monitor = None;
    }

    /// The request a running monitor loop sends on its next tick, or `None`
    /// once monitoring has stopped and the loop is to end.
    pub fn poll_request(&self) -> (r: Option<Result<String, InsenError>>)
        ensures
            match self@.monitor {
                Some(plan) => r matches Some(q) && result_view(q) == self@.request(
                    get_request(plan.controller_id),
                ),
                None => r is None,
            },
    {
        match self.monitor {
            Some(plan) => Some(self.input_request(plan.controller_id)),
            None => None,
        }
    }

    /// The plan of the running monitor loop, if one runs.
    pub fn monitor_plan(&self) -> (r: Option<MonitorPlan>)
        ensures
            r == self@.monitor,
    {
        self.monitor
    }

    /// Whether a transport is held.
    pub fn is_connected(&self) -> (r: bool)
        ensures
            r == self@.connected,
    {
        self.connected
    }

    /// The last known state of controller `id`, if it has been heard from.
    pub fn controller_state(&self, id: u8) -> (r: Option<ControllerState>)
        ensures
            r == (if self@.controllers.contains_key(id) {
                Some(self@.controllers[id])
            } else {
                None::<ControllerState>
            }),
    {
        self.controllers.get(id)
    }
}

/// Stopping when no monitor loop runs changes nothing.
pub proof fn lemma_stop_when_idle(s: SessionView)
    requires
        s.monitor is None,
    ensures
        s.after_stop() == s,
{
}

/// A second start without a stop in between changes nothing: the first loop
/// stays the only one, and the second call launches none.
pub proof fn lemma_start_twice(s: SessionView, first_id: u8, first_fps: u32, second_id: u8, second_fps: u32)
    ensures
        s.after_start(first_id, first_fps).monitor is Some,
        s.after_start(first_id, first_fps).after_start(second_id, second_fps) == s.after_start(
            first_id,
            first_fps,
        ),
{
}

/// A second disconnect changes nothing and has no transport left to release.
pub proof fn lemma_disconnect_twice(s: SessionView)
    ensures
        !s.after_disconnect().connected,
        s.after_disconnect().after_disconnect() == s.after_disconnect(),
{
}

} // verus!
