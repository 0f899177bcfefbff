use pwrsurge::acpi::{AcpiEvent, BusId, DeviceClass};
use pwrsurge::evdev::InputEventStruct;
use pwrsurge::event::{
    dispatch_outcome, plan_input_dispatch, plan_power_dispatch, DispatchOutcome, DispatchPlan,
    HandlerSymbol, MuxOutput, MuxState, SourceRead,
};
use pwrsurge::filter::{AcpiFilter, EvdevFilter};

fn power_event() -> AcpiEvent {
    AcpiEvent {
        device_class: DeviceClass("battery".to_string()),
        bus_id: BusId("PNP0C0A:00".to_string()),
        event_type: 0x80,
        event_data: 0,
    }
}

fn attr(atype: u16, payload: &[u8]) -> Vec<u8> {
    let alen = 4 + payload.len();
    let mut out = Vec::new();
    out.extend_from_slice(&(alen as u16).to_ne_bytes());
    out.extend_from_slice(&atype.to_ne_bytes());
    out.extend_from_slice(payload);
    while out.len() % 4 != 0 {
        out.push(0);
    }
    out
}

fn power_msg() -> Vec<u8> {
    let body = attr(1, &power_event().serialize().unwrap());
    let total = 20 + body.len();
    let mut out = Vec::new();
    out.extend_from_slice(&(total as u32).to_ne_bytes());
    out.extend_from_slice(&25u16.to_ne_bytes());
    out.extend_from_slice(&0u16.to_ne_bytes());
    out.extend_from_slice(&1u32.to_ne_bytes());
    out.extend_from_slice(&0u32.to_ne_bytes());
    out.extend_from_slice(&[0u8, 1, 0, 0]);
    out.extend_from_slice(&body);
    out
}

fn input_event() -> InputEventStruct {
    InputEventStruct {
        timestamp_sec: 100,
        timestamp_usec: 200,
        event_type: 1,
        event_code: 0,
        event_value: 1,
    }
}

#[test]
fn mux_decodes_each_open_source() {
    let mut mux = MuxState::new(2);
    match mux.mux_step(SourceRead::SocketMessage(power_msg())) {
        MuxOutput::Power(ev) => assert_eq!(ev, power_event()),
        _ => panic!("expected a power event"),
    }
    match mux.mux_step(SourceRead::DeviceData(0, input_event().serialize())) {
        MuxOutput::Input(src, ev) => {
            assert_eq!(src, 0);
            assert_eq!(ev, input_event());
        },
        _ => panic!("expected an input event"),
    }
}

#[test]
fn three_records_with_one_corrupt_all_valid_surface() {
    let mut mux = MuxState::new(2);
    let mut surfaced = 0;

    match mux.mux_step(SourceRead::SocketMessage(power_msg())) {
        MuxOutput::Power(_) => surfaced += 1,
        _ => panic!("first record should decode"),
    }
    match mux.mux_step(SourceRead::SocketMessage(vec![0xFF; 10])) {
        MuxOutput::SkippedMessage(_) => {},
        _ => panic!("corrupt record should be skipped, not fatal"),
    }
    match mux.mux_step(SourceRead::DeviceData(1, input_event().serialize())) {
        MuxOutput::Input(1, _) => surfaced += 1,
        _ => panic!("device read should still decode"),
    }
    match mux.mux_step(SourceRead::SocketMessage(power_msg())) {
        MuxOutput::Power(_) => surfaced += 1,
        _ => panic!("socket should still be consumed after a corrupt record"),
    }

    assert_eq!(surfaced, 3);
    assert!(mux.socket_open());
    assert!(mux.device_open(0));
    assert!(mux.device_open(1));
}

#[test]
fn device_end_closes_only_that_source() {
    let mut mux = MuxState::new(2);
    match mux.mux_step(SourceRead::DeviceEnd(0)) {
        MuxOutput::SourceClosed(0) => {},
        _ => panic!("expected the source to close"),
    }
    assert!(!mux.device_open(0));
    assert!(mux.device_open(1));
    assert!(mux.socket_open());
    match mux.mux_step(SourceRead::DeviceData(0, input_event().serialize())) {
        MuxOutput::Ignored => {},
        _ => panic!("a closed source yields nothing"),
    }
    match mux.mux_step(SourceRead::DeviceData(1, input_event().serialize())) {
        MuxOutput::Input(1, _) => {},
        _ => panic!("the other source still works"),
    }
}

#[test]
fn short_device_read_is_skipped_without_closing() {
    let mut mux = MuxState::new(1);
    match mux.mux_step(SourceRead::DeviceData(0, vec![1, 2, 3])) {
        MuxOutput::SkippedRead(0, _) => {},
        _ => panic!("expected a skipped read"),
    }
    assert!(mux.device_open(0));
}

#[test]
fn admitted_power_event_is_planned_for_acpi_handler() {
    let filter = AcpiFilter::new(vec!["battery".to_string()]);
    match plan_power_dispatch(&filter, &power_event()) {
        DispatchPlan::Invoke(sym, buf) => {
            assert_eq!(sym, HandlerSymbol::AcpiHandler);
            assert_eq!(sym.name(), "acpi_handler");
            assert_eq!(buf.len(), 44);
            assert_eq!(buf, power_event().serialize().unwrap());
        },
        _ => panic!("expected an invocation"),
    }
}

#[test]
fn rejected_power_event_never_reaches_the_dispatcher() {
    let filter = AcpiFilter::new(vec!["ac_adapter".to_string()]);
    match plan_power_dispatch(&filter, &power_event()) {
        DispatchPlan::Rejected => {},
        _ => panic!("the filter should reject this event"),
    }
}

#[test]
fn admitted_input_event_is_planned_for_evdev_handler() {
    let filter = EvdevFilter::new(vec![1], Vec::new(), Vec::new());
    match plan_input_dispatch(&filter, &input_event()) {
        DispatchPlan::Invoke(sym, buf) => {
            assert_eq!(sym, HandlerSymbol::EvdevHandler);
            assert_eq!(sym.name(), "evdev_handler");
            assert_eq!(buf, input_event().serialize());
        },
        _ => panic!("expected an invocation"),
    }
}

#[test]
fn missing_symbol_does_not_halt_later_dispatches() {
    let acpi_filter = AcpiFilter::new(Vec::new());
    let evdev_filter = EvdevFilter::new(Vec::new(), Vec::new(), Vec::new());

    // the power handler is missing from the plugin: recorded, not fatal
    match plan_power_dispatch(&acpi_filter, &power_event()) {
        DispatchPlan::Invoke(sym, _) => {
            assert_eq!(sym, HandlerSymbol::AcpiHandler);
            assert_eq!(dispatch_outcome(None), DispatchOutcome::SymbolMissing);
        },
        _ => panic!("expected an invocation"),
    }

    // a later event for a different, resolvable symbol still dispatches
    match plan_input_dispatch(&evdev_filter, &input_event()) {
        DispatchPlan::Invoke(sym, _) => {
            assert_eq!(sym, HandlerSymbol::EvdevHandler);
            assert_eq!(dispatch_outcome(Some(0)), DispatchOutcome::HandlerDone);
        },
        _ => panic!("expected an invocation"),
    }
}

#[test]
fn nonzero_handler_status_is_recorded_not_raised() {
    assert_eq!(dispatch_outcome(Some(3)), DispatchOutcome::HandlerFailed(3));
    assert_eq!(dispatch_outcome(Some(0)), DispatchOutcome::HandlerDone);
}
