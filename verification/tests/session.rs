use gmod_buttplug::session::{
    drain_step, hook_call, load_banner, session_step, setup_failure, ClientEvent, HookArg,
    LuaEvent, SessionStep, SetupStage,
};

#[test]
fn device_events_are_forwarded() {
    match session_step(ClientEvent::DeviceAdded { index: 2, name: "Calor".to_string() }) {
        SessionStep::Forward(LuaEvent::DeviceAdded { index, name }) => {
            assert_eq!(index, 2);
            assert_eq!(name, "Calor");
        }
        _ => panic!("expected DeviceAdded to be forwarded"),
    }
    match session_step(ClientEvent::DeviceRemoved { index: 7, name: "Pad".to_string() }) {
        SessionStep::Forward(LuaEvent::DeviceRemoved { index, name }) => {
            assert_eq!(index, 7);
            assert_eq!(name, "Pad");
        }
        _ => panic!("expected DeviceRemoved to be forwarded"),
    }
}

#[test]
fn scan_and_error_events_are_forwarded() {
    assert!(matches!(
        session_step(ClientEvent::ScanningFinished),
        SessionStep::Forward(LuaEvent::ScanFinished)
    ));
    match session_step(ClientEvent::Error("boom".to_string())) {
        SessionStep::Forward(LuaEvent::Error(m)) => assert_eq!(m, "boom"),
        _ => panic!("expected Error to be forwarded"),
    }
}

#[test]
fn disconnects_end_the_session_and_others_are_skipped() {
    assert!(matches!(session_step(ClientEvent::ServerDisconnect), SessionStep::End));
    assert!(matches!(session_step(ClientEvent::PingTimeout), SessionStep::End));
    assert!(matches!(session_step(ClientEvent::Other), SessionStep::Skip));
}

#[test]
fn hook_names_and_arguments() {
    let c = hook_call(LuaEvent::Ready);
    assert_eq!(c.hook, "ButtplugReady");
    assert!(matches!(c.arg, HookArg::Nothing));

    let c = hook_call(LuaEvent::Stopped);
    assert_eq!(c.hook, "ButtplugDisconnected");
    assert!(matches!(c.arg, HookArg::Nothing));

    let c = hook_call(LuaEvent::ScanFinished);
    assert_eq!(c.hook, "ButtplugScanFinished");

    let c = hook_call(LuaEvent::StartFailed("server: nope".to_string()));
    assert_eq!(c.hook, "ButtplugStartFailed");
    match c.arg {
        HookArg::Text(t) => assert_eq!(t, "server: nope"),
        _ => panic!("expected a text argument"),
    }

    let c = hook_call(LuaEvent::Error("e".to_string()));
    assert_eq!(c.hook, "ButtplugError");
    assert!(matches!(c.arg, HookArg::Text(_)));

    let c = hook_call(LuaEvent::DeviceAdded { index: 1, name: "A".to_string() });
    assert_eq!(c.hook, "ButtplugDeviceAdded");
    match c.arg {
        HookArg::Device(d) => {
            assert_eq!(d.index, 1);
            assert_eq!(d.describe(), "buttplug.Device[1: A]");
        }
        _ => panic!("expected a device argument"),
    }

    let c = hook_call(LuaEvent::DeviceRemoved { index: 9, name: "B".to_string() });
    assert_eq!(c.hook, "ButtplugDeviceRemoved");
    assert!(matches!(c.arg, HookArg::Device(_)));
}

#[test]
fn drain_uninstalls_only_after_stopped() {
    let mut seen = false;
    for ev in [LuaEvent::Ready, LuaEvent::ScanFinished, LuaEvent::Error("x".to_string())] {
        let (_, s) = drain_step(ev, seen);
        seen = s;
    }
    assert!(!seen);
    let (call, s) = drain_step(LuaEvent::Stopped, seen);
    assert_eq!(call.hook, "ButtplugDisconnected");
    assert!(s);
    let (_, s) = drain_step(LuaEvent::Ready, s);
    assert!(s);
}

#[test]
fn setup_failure_messages() {
    assert_eq!(setup_failure(SetupStage::DeviceConfig, "bad json"), "device config manager: bad json");
    assert_eq!(setup_failure(SetupStage::DeviceManager, "x"), "device manager: x");
    assert_eq!(setup_failure(SetupStage::Server, "y"), "server: y");
    assert_eq!(setup_failure(SetupStage::Connect, "z"), "connect: z");
}

#[test]
fn banner_text() {
    assert_eq!(
        load_banner("0.2.0", "10.0.3"),
        "[gmod-buttplug] module loaded (v0.2.0, buttplug-rs v10.0.3 embedded)"
    );
}
