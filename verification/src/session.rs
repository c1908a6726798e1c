//! Decisions of a client session and of the event pipeline to Lua.
//!
//! A session task builds the client, reports the outcome, then pumps client
//! events until the server goes away; each step here says which lifecycle
//! state to store and which [`LuaEvent`] to send. On the main thread a
//! zero-delay timer drains those events and turns each into one
//! `hook.Run("Buttplug<Name>", ...)` call; it removes itself once the
//! session's final event has been drained.

use vstd::prelude::*;
use vstd::string::*;

use crate::device::DeviceHandle;
use crate::lifecycle::{start_edge, stop_edge, STATE_RUNNING, STATE_STARTING, STATE_STOPPED, STATE_STOPPING};

verus! {

/// Events destined for Lua hooks. Strings are pre-formatted on the worker so
/// the main thread only has to push values.
pub enum LuaEvent {
    Ready,
    StartFailed(String),
    Stopped,
    DeviceAdded { index: u32, name: String },
    DeviceRemoved { index: u32, name: String },
    ScanFinished,
    Error(String),
}

/// What the client's event stream reports, as plain values: the device
/// index and name for device events, the error's text for errors.
pub enum ClientEvent {
    DeviceAdded { index: u32, name: String },
    DeviceRemoved { index: u32, name: String },
    ScanningFinished,
    ServerDisconnect,
    PingTimeout,
    Error(String),
    /// Any event the session does not act on.
    Other,
}

/// What the session does with one client event.
pub enum SessionStep {
    /// Send this event to Lua and keep pumping.
    Forward(LuaEvent),
    /// Keep pumping without telling Lua anything.
    Skip,
    /// The server is gone: stop pumping and tear the session down.
    End,
}

/// The stage of client construction that failed.
pub enum SetupStage {
    DeviceConfig,
    DeviceManager,
    Server,
    Connect,
}

/// The state to store and the event to send once client setup has finished.
pub struct SetupOutcome {
    pub next_state: u8,
    pub event: LuaEvent,
    /// Whether the client is installed and its events are to be pumped.
    pub pump: bool,
}

/// The argument a hook receives after its name.
pub enum HookArg {
    Nothing,
    Text(String),
    Device(DeviceHandle),
}

/// One `hook.Run(hook, arg)` call.
pub struct HookCall {
    pub hook: &'static str,
    pub arg: HookArg,
}

// ---------------------------------------------------------------------------
// Specification
// ---------------------------------------------------------------------------

pub open spec fn session_step_spec(ev: ClientEvent) -> SessionStep {
    match ev {
        ClientEvent::DeviceAdded { index, name } => SessionStep::Forward(
            LuaEvent::DeviceAdded { index, name },
        ),
        ClientEvent::DeviceRemoved { index, name } => SessionStep::Forward(
            LuaEvent::DeviceRemoved { index, name },
        ),
        ClientEvent::ScanningFinished => SessionStep::Forward(LuaEvent::ScanFinished),
        ClientEvent::ServerDisconnect => SessionStep::End,
        ClientEvent::PingTimeout => SessionStep::End,
        ClientEvent::Error(text) => SessionStep::Forward(LuaEvent::Error(text)),
        ClientEvent::Other => SessionStep::Skip,
    }
}

pub open spec fn setup_outcome_spec(result: Result<(), String>) -> SetupOutcome {
    match result {
        Ok(()) => SetupOutcome { next_state: STATE_RUNNING, event: LuaEvent::Ready, pump: true },
        Err(e) => SetupOutcome {
            next_state: STATE_STOPPED,
            event: LuaEvent::StartFailed(e),
            pump: false,
        },
    }
}

pub open spec fn stage_label(stage: SetupStage) -> Seq<char> {
    match stage {
        SetupStage::DeviceConfig => "device config manager"@,
        SetupStage::DeviceManager => "device manager"@,
        SetupStage::Server => "server"@,
        SetupStage::Connect => "connect"@,
    }
}

/// The hook each event fires.
pub open spec fn hook_name_spec(ev: LuaEvent) -> Seq<char> {
    match ev {
        LuaEvent::Ready => "ButtplugReady"@,
        LuaEvent::StartFailed(_) => "ButtplugStartFailed"@,
        LuaEvent::Stopped => "ButtplugDisconnected"@,
        LuaEvent::DeviceAdded { .. } => "ButtplugDeviceAdded"@,
        LuaEvent::DeviceRemoved { .. } => "ButtplugDeviceRemoved"@,
        LuaEvent::ScanFinished => "ButtplugScanFinished"@,
        LuaEvent::Error(_) => "ButtplugError"@,
    }
}

/// The argument of the hook each event fires.
pub open spec fn hook_arg_matches(ev: LuaEvent, arg: HookArg) -> bool {
    match ev {
        LuaEvent::StartFailed(text) => arg matches HookArg::Text(t) && t@ == text@,
        LuaEvent::Error(text) => arg matches HookArg::Text(t) && t@ == text@,
        LuaEvent::DeviceAdded { index, name } => arg matches HookArg::Device(d) && d.index == index
            && d.name@ == name@,
        LuaEvent::DeviceRemoved { index, name } => arg matches HookArg::Device(d) && d.index
            == index && d.name@ == name@,
        _ => arg is Nothing,
    }
}

pub open spec fn banner_spec(version: Seq<char>, buttplug_version: Seq<char>) -> Seq<char> {
    "[gmod-buttplug] module loaded (v"@ + version + ", buttplug-rs v"@ + buttplug_version
        + " embedded)"@
}

// ---------------------------------------------------------------------------
// Session task
// ---------------------------------------------------------------------------

/// What to do once the client has been built (`Ok`) or has failed to build
/// (`Err` with the reason). On success the client is installed before the
/// state becomes `RUNNING` and `Ready` is sent; on failure the state goes
/// back to `STOPPED`, so a new start is accepted, and `StartFailed` carries
/// the reason.
pub fn on_setup(result: Result<(), String>) -> (r: SetupOutcome)
    ensures
        r == setup_outcome_spec(result),
{
    match result {
        Ok(()) => SetupOutcome { next_state: STATE_RUNNING, event: LuaEvent::Ready, pump: true },
        Err(e) => SetupOutcome {
            next_state: STATE_STOPPED,
            event: LuaEvent::StartFailed(e),
            pump: false,
        },
    }
}

/// What the session does with one client event: device and scan events and
/// errors are forwarded to Lua, a server disconnect or a ping timeout ends
/// the session, anything else is skipped.
pub fn session_step(ev: ClientEvent) -> (r: SessionStep)
    ensures
        r == session_step_spec(ev),
{
    match ev {
        ClientEvent::DeviceAdded { index, name } => SessionStep::Forward(
            LuaEvent::DeviceAdded { index, name },
        ),
        ClientEvent::DeviceRemoved { index, name } => SessionStep::Forward(
            LuaEvent::DeviceRemoved { index, name },
        ),
        ClientEvent::ScanningFinished => SessionStep::Forward(LuaEvent::ScanFinished),
        ClientEvent::ServerDisconnect => SessionStep::End,
        ClientEvent::PingTimeout => SessionStep::End,
        ClientEvent::Error(text) => SessionStep::Forward(LuaEvent::Error(text)),
        ClientEvent::Other => SessionStep::Skip,
    }
}

/// The state to store and the event to send when the session is over: the
/// client is dropped, the state is `STOPPED` and Lua hears `Stopped`.
pub fn on_session_end() -> (r: (u8, LuaEvent))
    ensures
        r.0 == STATE_STOPPED,
        r.1 is Stopped,
{
    (STATE_STOPPED, LuaEvent::Stopped)
}

/// The reason sent with `StartFailed` when `stage` of client construction
/// fails with `detail`: `"<stage>: <detail>"`.
pub fn setup_failure(stage: SetupStage, detail: &str) -> (r: String)
    ensures
        r@ == stage_label(stage) + ": "@ + detail@,
{
    let mut r = match stage {
        SetupStage::DeviceConfig => String::from_str("device config manager"),
        SetupStage::DeviceManager => String::from_str("device manager"),
        SetupStage::Server => String::from_str("server"),
        SetupStage::Connect => String::from_str("connect"),
    };
    r.append(": ");
    r.append(detail);
    r
}

// ---------------------------------------------------------------------------
// Main-thread drain
// ---------------------------------------------------------------------------

/// The hook call an event turns into.
pub fn hook_call(ev: LuaEvent) -> (c: HookCall)
    ensures
        c.hook@ == hook_name_spec(ev),
        hook_arg_matches(ev, c.arg),
{
    match ev {
        LuaEvent::Ready => HookCall { hook: "ButtplugReady", arg: HookArg::Nothing },
        LuaEvent::Stopped => HookCall { hook: "ButtplugDisconnected", arg: HookArg::Nothing },
        LuaEvent::ScanFinished => HookCall { hook: "ButtplugScanFinished", arg: HookArg::Nothing },
        LuaEvent::StartFailed(msg) => HookCall { hook: "ButtplugStartFailed", arg: HookArg::Text(msg) },
        LuaEvent::Error(msg) => HookCall { hook: "ButtplugError", arg: HookArg::Text(msg) },
        LuaEvent::DeviceAdded { index, name } => HookCall {
            hook: "ButtplugDeviceAdded",
            arg: HookArg::Device(DeviceHandle { index, name }),
        },
        LuaEvent::DeviceRemoved { index, name } => HookCall {
            hook: "ButtplugDeviceRemoved",
            arg: HookArg::Device(DeviceHandle { index, name }),
        },
    }
}

/// One step of the drain: the hook call for `ev`, and whether the session's
/// final event has now been drained (`stopped_seen` carries this across the
/// events of one tick). The timer removes itself after a tick that drained
/// it.
pub fn drain_step(ev: LuaEvent, stopped_seen: bool) -> (r: (HookCall, bool))
    ensures
        r.0.hook@ == hook_name_spec(ev),
        hook_arg_matches(ev, r.0.arg),
        r.1 == (stopped_seen || ev is Stopped),
{
    let stopped = match ev {
        LuaEvent::Stopped => true,
        _ => false,
    };
    (hook_call(ev), stopped_seen || stopped)
}

/// The line printed when the module is loaded.
pub fn load_banner(version: &str, buttplug_version: &str) -> (r: String)
    ensures
        r@ == banner_spec(version@, buttplug_version@),
{
    let mut r = String::from_str("[gmod-buttplug] module loaded (v");
    r.append(version);
    r.append(", buttplug-rs v");
    r.append(buttplug_version);
    r.append(" embedded)");
    r
}

// ---------------------------------------------------------------------------
// Laws
// ---------------------------------------------------------------------------

/// A full round trip `Start → Ready → Disconnect → Disconnected → Start`
/// is legal: each request is accepted from the state the previous step
/// left, and after the session ends a new start is accepted again.
pub proof fn law_lifecycle_round_trip()
    ensures
        start_edge(STATE_STOPPED) == Some(STATE_STARTING),
        setup_outcome_spec(Ok(())).next_state == STATE_RUNNING,
        stop_edge(setup_outcome_spec(Ok(())).next_state) == Some(STATE_STOPPING),
        start_edge(STATE_STOPPING) is None,
        start_edge(STATE_STOPPED) is Some,
{
}

/// A start whose setup fails leaves the cell where a retry is accepted.
pub proof fn law_failed_start_can_be_retried(reason: String)
    ensures
        start_edge(setup_outcome_spec(Err(reason)).next_state) == Some(STATE_STARTING),
        setup_outcome_spec(Err(reason)).event == LuaEvent::StartFailed(reason),
        !setup_outcome_spec(Err(reason)).pump,
{
}

/// While a session is starting, neither a second start nor a stop is
/// accepted; once it runs, only a stop is.
pub proof fn law_transitions_are_exclusive()
    ensures
        start_edge(STATE_STARTING) is None,
        stop_edge(STATE_STARTING) is None,
        start_edge(STATE_RUNNING) is None,
        stop_edge(STATE_RUNNING) is Some,
        stop_edge(STATE_STOPPED) is None,
{
}

/// Device, scan and error events reach Lua as the same kind of event with
/// the same index, name or text: a device that was added is announced as
/// added, one that was removed as removed.
pub proof fn law_events_forwarded_unchanged(index: u32, name: String, text: String)
    ensures
        session_step_spec(ClientEvent::DeviceAdded { index, name }) == SessionStep::Forward(
            LuaEvent::DeviceAdded { index, name },
        ),
        session_step_spec(ClientEvent::DeviceRemoved { index, name }) == SessionStep::Forward(
            LuaEvent::DeviceRemoved { index, name },
        ),
        session_step_spec(ClientEvent::Error(text)) == SessionStep::Forward(LuaEvent::Error(text)),
        session_step_spec(ClientEvent::ScanningFinished) == SessionStep::Forward(
            LuaEvent::ScanFinished,
        ),
{
}

/// Which kind of event `ev` is, as a number.
pub open spec fn event_kind(ev: LuaEvent) -> int {
    match ev {
        LuaEvent::Ready => 0,
        LuaEvent::StartFailed(_) => 1,
        LuaEvent::Stopped => 2,
        LuaEvent::DeviceAdded { .. } => 3,
        LuaEvent::DeviceRemoved { .. } => 4,
        LuaEvent::ScanFinished => 5,
        LuaEvent::Error(_) => 6,
    }
}

/// Each kind of event fires its own fixed hook, whatever the event carries.
pub proof fn law_one_hook_per_event_kind(index: u32, name: String, text: String)
    ensures
        hook_name_spec(LuaEvent::Ready) == "ButtplugReady"@,
        hook_name_spec(LuaEvent::StartFailed(text)) == "ButtplugStartFailed"@,
        hook_name_spec(LuaEvent::Stopped) == "ButtplugDisconnected"@,
        hook_name_spec(LuaEvent::DeviceAdded { index, name }) == "ButtplugDeviceAdded"@,
        hook_name_spec(LuaEvent::DeviceRemoved { index, name }) == "ButtplugDeviceRemoved"@,
        hook_name_spec(LuaEvent::ScanFinished) == "ButtplugScanFinished"@,
        hook_name_spec(LuaEvent::Error(text)) == "ButtplugError"@,
{
}

/// Events of different kinds fire different hooks, so a listener can tell
/// them apart by the hook name alone.
pub proof fn law_hooks_tell_kinds_apart(a: LuaEvent, b: LuaEvent)
    ensures
        event_kind(a) != event_kind(b) ==> hook_name_spec(a) != hook_name_spec(b),
{
    reveal_strlit("ButtplugReady");
    reveal_strlit("ButtplugStartFailed");
    reveal_strlit("ButtplugDisconnected");
    reveal_strlit("ButtplugDeviceAdded");
    reveal_strlit("ButtplugDeviceRemoved");
    reveal_strlit("ButtplugScanFinished");
    reveal_strlit("ButtplugError");
    let x = hook_name_spec(a);
    let y = hook_name_spec(b);
    if event_kind(a) != event_kind(b) && x == y {
        assert(x.len() == y.len());
        assert(x[8] == y[8]);
        assert(x[9] == y[9]);
    }
}

/// The pump only ends on a server disconnect or a ping timeout; every device,
/// scan and error event reaches Lua unchanged.
pub proof fn law_only_disconnects_end_the_session(ev: ClientEvent)
    ensures
        session_step_spec(ev) is End <==> (ev is ServerDisconnect || ev is PingTimeout),
        session_step_spec(ev) is Skip <==> ev is Other,
{
}

} // verus!
