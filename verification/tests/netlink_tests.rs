use pwrsurge::acpi::{AcpiEvent, BusId, DeviceClass};
use pwrsurge::netlink::{acpi_event, family_request, parse_family_response, NetlinkError};

/// One attribute with its header and alignment padding.
fn attr(atype: u16, payload: &[u8]) -> Vec<u8> {
    let alen = 4 + payload.len();
    let mut out = Vec::new();
    out.extend_from_slice(&(alen as u16).to_ne_bytes());
    out.extend_from_slice(&atype.to_ne_bytes());
    out.extend_from_slice(payload);
    while out.len() % 4 != 0 {
        out.push(0);
    }
    out
}

/// A generic-netlink message of the given type around an attribute stream.
fn genl_msg(nl_type: u16, attrs: &[Vec<u8>]) -> Vec<u8> {
    let mut body = Vec::new();
    for a in attrs {
        body.extend_from_slice(a);
    }
    let total = 20 + body.len();
    let mut out = Vec::new();
    out.extend_from_slice(&(total as u32).to_ne_bytes());
    out.extend_from_slice(&nl_type.to_ne_bytes());
    out.extend_from_slice(&0u16.to_ne_bytes());
    out.extend_from_slice(&1u32.to_ne_bytes());
    out.extend_from_slice(&0u32.to_ne_bytes());
    out.extend_from_slice(&[0u8, 2, 0, 0]);
    out.extend_from_slice(&body);
    out
}

fn encoded_power_event() -> Vec<u8> {
    AcpiEvent {
        device_class: DeviceClass("battery".to_string()),
        bus_id: BusId("PNP0C0A:00".to_string()),
        event_type: 0x80,
        event_data: 0,
    }
    .serialize()
    .unwrap()
}

#[test]
fn family_request_has_the_fixed_control_layout() {
    let req = family_request("acpi_event", 1, 0).unwrap();
    let mut expected = Vec::new();
    expected.extend_from_slice(&36u32.to_ne_bytes()); // total length
    expected.extend_from_slice(&16u16.to_ne_bytes()); // control family
    expected.extend_from_slice(&1u16.to_ne_bytes()); // request flag
    expected.extend_from_slice(&1u32.to_ne_bytes()); // sequence
    expected.extend_from_slice(&0u32.to_ne_bytes()); // pid
    expected.extend_from_slice(&[3, 2, 0, 0]); // get-family, version, reserved
    expected.extend_from_slice(&15u16.to_ne_bytes()); // attribute length
    expected.extend_from_slice(&2u16.to_ne_bytes()); // family-name attribute
    expected.extend_from_slice(b"acpi_event\0");
    expected.push(0); // alignment padding
    assert_eq!(req, expected);
}

#[test]
fn family_request_needs_no_padding_at_the_alignment_boundary() {
    let req = family_request("acpi_events", 2, 0).unwrap();
    // 11 name bytes and the terminator fill the attribute to its alignment
    assert_eq!(req.len(), 36);
    assert_eq!(&req[24..], b"acpi_events\0");
}

#[test]
fn family_request_rejects_an_oversized_name() {
    assert_eq!(
        family_request("sixteen-byte-nam", 1, 0).unwrap_err(),
        NetlinkError::NameTooLong
    );
}

fn groups_attr(name: &str, id: u32) -> Vec<u8> {
    let mut rec = Vec::new();
    rec.extend_from_slice(&attr(2, &id.to_ne_bytes()));
    let mut zname = name.as_bytes().to_vec();
    zname.push(0);
    rec.extend_from_slice(&attr(1, &zname));
    attr(7, &attr(1, &rec))
}

#[test]
fn resolve_finds_family_and_group_ids() {
    let msg = genl_msg(
        16,
        &[attr(1, &25u16.to_ne_bytes()), groups_attr("acpi_mc_group", 8)],
    );
    let (family_id, group_id) = parse_family_response(&msg, "acpi_mc_group").unwrap();
    assert_eq!(family_id, 25);
    assert_eq!(group_id, 8);
}

#[test]
fn resolve_reports_a_missing_group() {
    let msg = genl_msg(
        16,
        &[attr(1, &25u16.to_ne_bytes()), groups_attr("other_group", 8)],
    );
    assert_eq!(
        parse_family_response(&msg, "acpi_mc_group").unwrap_err(),
        NetlinkError::FamilyNotFound
    );
}

#[test]
fn resolve_reports_kernel_errors() {
    let msg = genl_msg(2, &[]);
    assert_eq!(
        parse_family_response(&msg, "acpi_mc_group").unwrap_err(),
        NetlinkError::KernelError
    );
}

#[test]
fn resolve_rejects_truncated_responses() {
    let msg = genl_msg(16, &[attr(1, &25u16.to_ne_bytes())]);
    assert_eq!(
        parse_family_response(&msg[..10], "acpi_mc_group").unwrap_err(),
        NetlinkError::ProtocolError
    );
}

#[test]
fn resolve_needs_the_family_id() {
    let msg = genl_msg(16, &[groups_attr("acpi_mc_group", 8)]);
    assert_eq!(
        parse_family_response(&msg, "acpi_mc_group").unwrap_err(),
        NetlinkError::ProtocolError
    );
}

#[test]
fn acpi_event_is_read_from_the_event_attribute() {
    let msg = genl_msg(25, &[attr(1, &encoded_power_event())]);
    let ev = acpi_event(&msg).unwrap();
    assert_eq!(ev.device_class, DeviceClass("battery".to_string()));
    assert_eq!(ev.bus_id, BusId("PNP0C0A:00".to_string()));
    assert_eq!(ev.event_type, 0x80);
    assert_eq!(ev.event_data, 0);
}

#[test]
fn acpi_event_without_payload_attribute() {
    let msg = genl_msg(25, &[attr(9, b"side data")]);
    assert_eq!(acpi_event(&msg).unwrap_err(), NetlinkError::MissingPayload);
}

#[test]
fn acpi_event_with_malformed_record() {
    let msg = genl_msg(25, &[attr(1, &[0xFFu8; 44])]);
    assert_eq!(acpi_event(&msg).unwrap_err(), NetlinkError::MalformedEvent);
}

#[test]
fn acpi_event_from_kernel_error_message() {
    let msg = genl_msg(2, &[attr(1, &encoded_power_event())]);
    assert_eq!(acpi_event(&msg).unwrap_err(), NetlinkError::KernelError);
}
