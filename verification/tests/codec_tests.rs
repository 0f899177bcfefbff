use pwrsurge::acpi::{AcpiEvent, BusId, CodecError, DeviceClass};
use pwrsurge::evdev::InputEventStruct;

fn sample_event() -> AcpiEvent {
    AcpiEvent {
        device_class: DeviceClass("AAAAAA".to_string()),
        bus_id: BusId("AAAAA".to_string()),
        event_type: 5,
        event_data: 7,
    }
}

fn sample_bytes() -> Vec<u8> {
    let mut buf = Vec::new();
    buf.extend_from_slice(&[
        65, 65, 65, 65, 65, 65, 0, 0, 0, 0, 0, 0, 0, 0, 0, 0, 0, 0, 0, 0,
    ]);
    buf.extend_from_slice(&[65, 65, 65, 65, 65, 0, 0, 0, 0, 0, 0, 0, 0, 0, 0, 0]);
    buf.extend_from_slice(&5u32.to_ne_bytes());
    buf.extend_from_slice(&7u32.to_ne_bytes());
    buf
}

#[test]
fn test_acpi_event_serialize() {
    let state = sample_event().serialize().unwrap();
    assert_eq!(state.as_slice(), sample_bytes().as_slice());
}

#[test]
fn test_acpi_event_deserialize() {
    let acpi_event = AcpiEvent::deserialize(sample_bytes().as_slice()).unwrap();
    assert_eq!(acpi_event, sample_event());
}

#[test]
fn acpi_encode_is_always_44_bytes() {
    let short = AcpiEvent {
        device_class: DeviceClass("b".to_string()),
        bus_id: BusId(String::new()),
        event_type: 0,
        event_data: 0,
    };
    assert_eq!(short.serialize().unwrap().len(), 44);
    let long = AcpiEvent {
        device_class: DeviceClass("nineteen-byte-class".to_string()),
        bus_id: BusId("fifteen-byte-id".to_string()),
        event_type: u32::MAX,
        event_data: u32::MAX,
    };
    assert_eq!(long.serialize().unwrap().len(), 44);
}

#[test]
fn acpi_round_trip_preserves_every_field() {
    let ev = AcpiEvent {
        device_class: DeviceClass("battery".to_string()),
        bus_id: BusId("PNP0C0A:00".to_string()),
        event_type: 0x80,
        event_data: 0,
    };
    let buf = ev.serialize().unwrap();
    let back = AcpiEvent::deserialize(buf.as_slice()).unwrap();
    assert_eq!(back, ev);
}

#[test]
fn acpi_round_trip_keeps_multibyte_text() {
    let ev = AcpiEvent {
        device_class: DeviceClass("b\u{e2}ttery".to_string()),
        bus_id: BusId("bus\u{fc}".to_string()),
        event_type: 1,
        event_data: 2,
    };
    let buf = ev.serialize().unwrap();
    assert_eq!(buf.len(), 44);
    let back = AcpiEvent::deserialize(buf.as_slice()).unwrap();
    assert_eq!(back, ev);
}

#[test]
fn acpi_encode_rejects_oversized_device_class() {
    let ev = AcpiEvent {
        device_class: DeviceClass("twenty-byte-class-xx".to_string()),
        bus_id: BusId("ok".to_string()),
        event_type: 0,
        event_data: 0,
    };
    assert_eq!(ev.serialize().unwrap_err(), CodecError::FieldTooLong);
}

#[test]
fn acpi_encode_rejects_oversized_bus_id() {
    let ev = AcpiEvent {
        device_class: DeviceClass("ok".to_string()),
        bus_id: BusId("sixteen-byte-id!".to_string()),
        event_type: 0,
        event_data: 0,
    };
    assert_eq!(ev.serialize().unwrap_err(), CodecError::FieldTooLong);
}

#[test]
fn acpi_encode_rejects_interior_nul() {
    let ev = AcpiEvent {
        device_class: DeviceClass("bat\u{0}tery".to_string()),
        bus_id: BusId("ok".to_string()),
        event_type: 0,
        event_data: 0,
    };
    assert_eq!(ev.serialize().unwrap_err(), CodecError::InteriorNul);
}

#[test]
fn acpi_decode_needs_a_terminator() {
    let mut buf = vec![65u8; 44];
    buf[20 + 5] = 0; // bus_id region terminated, device_class region not
    assert_eq!(
        AcpiEvent::deserialize(buf.as_slice()).unwrap_err(),
        CodecError::MalformedRecord
    );
}

#[test]
fn acpi_decode_rejects_invalid_text() {
    let mut buf = sample_bytes();
    buf[0] = 0xFF; // not valid UTF-8 on its own
    assert_eq!(
        AcpiEvent::deserialize(buf.as_slice()).unwrap_err(),
        CodecError::MalformedRecord
    );
}

#[test]
fn acpi_decode_rejects_wrong_sizes() {
    let buf = sample_bytes();
    assert_eq!(
        AcpiEvent::deserialize(&buf[..43]).unwrap_err(),
        CodecError::ShortRead
    );
    let mut long = buf.clone();
    long.push(0);
    assert_eq!(
        AcpiEvent::deserialize(long.as_slice()).unwrap_err(),
        CodecError::MalformedRecord
    );
}

#[test]
fn input_event_round_trip() {
    let ev = InputEventStruct {
        timestamp_sec: 1_600_000_000,
        timestamp_usec: 123_456,
        event_type: 1,
        event_code: 30,
        event_value: -2,
    };
    let buf = ev.serialize();
    assert_eq!(buf.len(), 24);
    let back = InputEventStruct::deserialize(buf.as_slice()).unwrap();
    assert_eq!(back, ev);
}

#[test]
fn input_event_layout_matches_kernel_record() {
    let ev = InputEventStruct {
        timestamp_sec: 2,
        timestamp_usec: 3,
        event_type: 0x0101,
        event_code: 0x0202,
        event_value: 5,
    };
    let buf = ev.serialize();
    let mut expected = Vec::new();
    expected.extend_from_slice(&2i64.to_ne_bytes());
    expected.extend_from_slice(&3i64.to_ne_bytes());
    expected.extend_from_slice(&0x0101u16.to_ne_bytes());
    expected.extend_from_slice(&0x0202u16.to_ne_bytes());
    expected.extend_from_slice(&5i32.to_ne_bytes());
    assert_eq!(buf, expected);
}

#[test]
fn input_event_decode_rejects_short_read() {
    let buf = [0u8; 23];
    assert_eq!(
        InputEventStruct::deserialize(&buf).unwrap_err(),
        CodecError::ShortRead
    );
}

#[test]
fn input_event_decode_rejects_long_read() {
    let buf = [0u8; 25];
    assert_eq!(
        InputEventStruct::deserialize(&buf).unwrap_err(),
        CodecError::MalformedRecord
    );
}
