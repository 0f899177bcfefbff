//! Fixed-layout codec for the kernel's power-management event record: two
//! zero-padded text fields of fixed width followed by two native-order 32-bit
//! integers, 44 bytes in all. Encoding rejects a field that cannot be
//! represented on the wire instead of truncating it; decoding cuts each text
//! field at its first zero byte and fails if no terminator is present.

use vstd::bytes::{lemma_auto_spec_u32_to_from_le_bytes, spec_u32_from_le_bytes, spec_u32_to_le_bytes, u32_from_le_bytes, u32_to_le_bytes};
use vstd::prelude::*;
use vstd::slice::{slice_index_get, slice_subrange, slice_to_vec};
use vstd::string::StrSliceExecFns;
use vstd::utf8::{decode_utf8, decode_utf8_encode_utf8, encode_utf8, encode_utf8_decode_utf8, encode_utf8_valid_utf8, valid_utf8};

use crate::text::string_from_utf8;
use crate::{ACPI_EVENT_SIZE, BUS_ID_SIZE, DEVICE_CLASS_SIZE};

verus! {

/// Why a record could not be encoded or decoded.
#[derive(Clone, Copy, Debug, PartialEq, Eq, Structural)]
pub enum CodecError {
    /// A text field's encoding does not fit its fixed wire region.
    FieldTooLong,
    /// A text field contains a zero character, which the wire format cannot
    /// represent.
    InteriorNul,
    /// A wire region has no zero terminator, is not valid text, or the buffer
    /// has trailing bytes beyond the record.
    MalformedRecord,
    /// Fewer bytes were available than one record needs.
    ShortRead,
}

/// The semantic category of a power event, e.g. battery or AC adapter.
#[derive(Debug)]
pub struct DeviceClass(pub String);

/// The kernel bus identifier of the device the event concerns.
#[derive(Debug)]
pub struct BusId(pub String);

/// One decoded power-management event.
#[derive(Debug)]
pub struct AcpiEvent {
    pub device_class: DeviceClass,
    pub bus_id: BusId,
    pub event_type: u32,
    pub event_data: u32,
}

/// The mathematical content of an [`AcpiEvent`].
pub struct AcpiEventView {
    pub device_class: Seq<char>,
    pub bus_id: Seq<char>,
    pub event_type: u32,
    pub event_data: u32,
}

impl View for DeviceClass {
    type V = Seq<char>;

    open spec fn view(&self) -> Seq<char> {
        self.0@
    }
}

impl View for BusId {
    type V = Seq<char>;

    open spec fn view(&self) -> Seq<char> {
        self.0@
    }
}

impl View for AcpiEvent {
    type V = AcpiEventView;

    open spec fn view(&self) -> AcpiEventView {
        AcpiEventView {
            device_class: self.device_class@,
            bus_id: self.bus_id@,
            event_type: self.event_type,
            event_data: self.event_data,
        }
    }
}

impl PartialEq for DeviceClass {
    fn eq(&self, other: &DeviceClass) -> bool {
        self.0 == other.0
    }
}

impl vstd::std_specs::cmp::PartialEqSpecImpl for DeviceClass {
    open spec fn obeys_eq_spec() -> bool {
        true
    }

    open spec fn eq_spec(&self, other: &DeviceClass) -> bool {
        self@ == other@
    }
}

impl PartialEq for BusId {
    fn eq(&self, other: &BusId) -> bool {
        self.0 == other.0
    }
}

impl vstd::std_specs::cmp::PartialEqSpecImpl for BusId {
    open spec fn obeys_eq_spec() -> bool {
        true
    }

    open spec fn eq_spec(&self, other: &BusId) -> bool {
        self@ == other@
    }
}

impl PartialEq for AcpiEvent {
    fn eq(&self, other: &AcpiEvent) -> bool {
        self.device_class == other.device_class && self.bus_id == other.bus_id
            && self.event_type == other.event_type && self.event_data == other.event_data
    }
}

impl vstd::std_specs::cmp::PartialEqSpecImpl for AcpiEvent {
    open spec fn obeys_eq_spec() -> bool {
        true
    }

    open spec fn eq_spec(&self, other: &AcpiEvent) -> bool {
        self@.device_class == other@.device_class && self@.bus_id == other@.bus_id
            && self@.event_type == other@.event_type && self@.event_data == other@.event_data
    }
}

/// No byte of `s` is zero.
pub open spec fn no_zero_bytes(s: Seq<u8>) -> bool {
    forall|i: int| 0 <= i < s.len() ==> s[i] != 0
}

/// `i` is the position of the first zero byte of `s`.
pub open spec fn zero_at_first(s: Seq<u8>, i: int) -> bool {
    0 <= i < s.len() && s[i] == 0 && (forall|j: int| 0 <= j < i ==> s[j] != 0)
}

pub proof fn lemma_zero_at_first_unique(s: Seq<u8>, i: int, j: int)
    requires
        zero_at_first(s, i),
        zero_at_first(s, j),
    ensures
        i == j,
{
}

/// The UTF-8 encoding of `s` fits a `cap`-byte zero-terminated wire region:
/// strictly smaller than `cap`, leaving room for the terminator, and free of
/// zero bytes, which would end the field early.
pub open spec fn field_fits(s: Seq<char>, cap: int) -> bool {
    encode_utf8(s).len() < cap && no_zero_bytes(encode_utf8(s))
}

/// The `cap`-byte wire region holding `s`: its UTF-8 bytes, zero-padded.
pub open spec fn spec_field_encode(s: Seq<char>, cap: int) -> Seq<u8> {
    encode_utf8(s) + Seq::new((cap - encode_utf8(s).len()) as nat, |i: int| 0u8)
}

/// The text stored in a fixed wire region: the bytes before the first zero,
/// decoded as UTF-8. `None` if no zero byte or invalid text.
pub open spec fn spec_field_decode(region: Seq<u8>) -> Option<Seq<char>> {
    if exists|i: int| zero_at_first(region, i) {
        let p = choose|i: int| zero_at_first(region, i);
        if valid_utf8(region.subrange(0, p)) {
            Some(decode_utf8(region.subrange(0, p)))
        } else {
            None
        }
    } else {
        None
    }
}

/// Which error encoding the text field `s` into a `cap`-byte region reports.
pub open spec fn spec_field_err(s: Seq<char>, cap: int) -> Option<CodecError> {
    if encode_utf8(s).len() >= cap {
        Some(CodecError::FieldTooLong)
    } else if !no_zero_bytes(encode_utf8(s)) {
        Some(CodecError::InteriorNul)
    } else {
        None
    }
}

impl AcpiEventView {
    /// Both text fields can be represented on the wire.
    pub open spec fn wf(self) -> bool {
        field_fits(self.device_class, DEVICE_CLASS_SIZE as int) && field_fits(
            self.bus_id,
            BUS_ID_SIZE as int,
        )
    }
}

/// The error encoding reports for an event that is not well formed: the
/// device-class field's fault, or failing that the bus-id field's.
pub open spec fn spec_acpi_encode_err(v: AcpiEventView) -> CodecError {
    if spec_field_err(v.device_class, DEVICE_CLASS_SIZE as int) is Some {
        spec_field_err(v.device_class, DEVICE_CLASS_SIZE as int)->Some_0
    } else {
        spec_field_err(v.bus_id, BUS_ID_SIZE as int)->Some_0
    }
}

/// The 44-byte wire image of a power event.
pub open spec fn spec_acpi_encode(v: AcpiEventView) -> Seq<u8> {
    spec_field_encode(v.device_class, DEVICE_CLASS_SIZE as int) + spec_field_encode(
        v.bus_id,
        BUS_ID_SIZE as int,
    ) + spec_u32_to_le_bytes(v.event_type) + spec_u32_to_le_bytes(v.event_data)
}

/// The power event a 44-byte buffer denotes, if it is well-formed.
pub open spec fn spec_acpi_decode(b: Seq<u8>) -> Option<AcpiEventView> {
    if b.len() == ACPI_EVENT_SIZE {
        match (spec_field_decode(b.subrange(0, 20)), spec_field_decode(b.subrange(20, 36))) {
            (Some(dc), Some(bus)) => Some(
                AcpiEventView {
                    device_class: dc,
                    bus_id: bus,
                    event_type: spec_u32_from_le_bytes(b.subrange(36, 40)),
                    event_data: spec_u32_from_le_bytes(b.subrange(40, 44)),
                },
            ),
            _ => None,
        }
    } else {
        None
    }
}

/// The position of the first zero byte of `buf[lo..hi]`, if any.
fn first_zero_in(buf: &[u8], lo: usize, hi: usize) -> (r: Option<usize>)
    requires
        lo <= hi <= buf@.len(),
    ensures
        r matches Some(i) ==> lo <= i < hi && buf@[i as int] == 0 && (forall|j: int|
            lo <= j < i ==> buf@[j] != 0),
        r is None ==> forall|j: int| lo <= j < hi ==> buf@[j] != 0,
{
    let mut i: usize = lo;
    while i < hi
        invariant
            lo <= i <= hi <= buf@.len(),
            forall|j: int| lo <= j < i ==> buf@[j] != 0,
        decreases hi - i,
    {
        if *slice_index_get(buf, i) == 0 {
            return Some(i);
        }
        i = i + 1;
    }
    None
}

/// Encode the text `s` into a `cap`-byte zero-padded region.
fn encode_field(s: &String, cap: usize) -> (r: Result<Vec<u8>, CodecError>)
    requires
        cap >= 1,
    ensures
        r is Ok <==> field_fits(s@, cap as int),
        r matches Ok(v) ==> v@ == spec_field_encode(s@, cap as int) && v@.len() == cap,
        r matches Err(e) ==> spec_field_err(s@, cap as int) == Some(e),
{
    let bytes = s.as_str().as_bytes_vec();
    if bytes.len() >= cap {
        return Err(CodecError::FieldTooLong);
    }
    if first_zero_in(bytes.as_slice(), 0, bytes.len()).is_some() {
        return Err(CodecError::InteriorNul);
    }
    let n = bytes.len();
    let mut out = bytes;
    out.resize(cap, 0u8);
    proof {
        assert(out@ =~= spec_field_encode(s@, cap as int));
    }
    Ok(out)
}

/// Decode the `cap`-byte region `buf[lo..lo+cap]` as a text field.
fn decode_field(buf: &[u8], lo: usize, cap: usize) -> (r: Result<String, CodecError>)
    requires
        lo + cap <= buf@.len(),
    ensures
        r is Ok <==> spec_field_decode(buf@.subrange(lo as int, lo + cap)) is Some,
        r matches Ok(s) ==> spec_field_decode(buf@.subrange(lo as int, lo + cap)) == Some(s@)
            && field_fits(s@, cap as int),
        r matches Err(e) ==> e == CodecError::MalformedRecord,
{
    let ghost region = buf@.subrange(lo as int, lo + cap);
    let _total = buf.len();
    match first_zero_in(buf, lo, lo + cap) {
        None => {
            proof {
                assert forall|i: int| !zero_at_first(region, i) by {
                    if 0 <= i < region.len() {
                        assert(region[i] == buf@[lo + i]);
                    }
                }
            }
            Err(CodecError::MalformedRecord)
        },
        Some(p) => {
            proof {
                assert forall|j: int| 0 <= j < p - lo implies region[j] != 0 by {
                    assert(region[j] == buf@[lo + j]);
                }
                assert(region[p - lo] == buf@[p as int]);
                assert(zero_at_first(region, p - lo));
                let c = choose|i: int| zero_at_first(region, i);
                lemma_zero_at_first_unique(region, c, p - lo);
            }
            let content = slice_to_vec(slice_subrange(buf, lo, p));
            proof {
                assert(content@ =~= region.subrange(0, p - lo));
            }
            match string_from_utf8(content) {
                None => Err(CodecError::MalformedRecord),
                Some(s) => {
                    proof {
                        broadcast use decode_utf8_encode_utf8;

                        assert(encode_utf8(s@) == region.subrange(0, p - lo));
                        assert forall|j: int| 0 <= j < encode_utf8(s@).len() implies encode_utf8(
                            s@,
                        )[j] != 0 by {
                            assert(region.subrange(0, p - lo)[j] == buf@[lo + j]);
                        }
                    }
                    Ok(s)
                },
            }
        },
    }
}

impl AcpiEvent {
    /// Both text fields can be represented on the wire, so the event has a
    /// 44-byte encoding.
    pub open spec fn wf(self) -> bool {
        self@.wf()
    }

    /// Encode this event as its fixed 44-byte wire record. Fails, rather
    /// than truncating, when a text field cannot be represented.
    pub fn serialize(&self) -> (r: Result<Vec<u8>, CodecError>)
        ensures
            r is Ok <==> self.wf(),
            r matches Ok(v) ==> v@ == spec_acpi_encode(self@) && v@.len() == ACPI_EVENT_SIZE,
            r matches Err(e) ==> e == spec_acpi_encode_err(self@),
    {
        let mut out = match encode_field(&self.device_class.0, DEVICE_CLASS_SIZE) {
            Ok(v) => v,
            Err(e) => {
                return Err(e);
            },
        };
        let mut bus = match encode_field(&self.bus_id.0, BUS_ID_SIZE) {
            Ok(v) => v,
            Err(e) => {
                return Err(e);
            },
        };
        out.append(&mut bus);
        let mut ty = u32_to_le_bytes(self.event_type);
        out.append(&mut ty);
        let mut data = u32_to_le_bytes(self.event_data);
        out.append(&mut data);
        proof {
            assert(out@ =~= spec_acpi_encode(self@));
        }
        Ok(out)
    }

    /// Decode one 44-byte wire record. The buffer must hold exactly one
    /// record: fewer bytes fail as a short read, trailing bytes as malformed.
    pub fn deserialize(buf: &[u8]) -> (r: Result<AcpiEvent, CodecError>)
        ensures
            r is Ok <==> spec_acpi_decode(buf@) is Some,
            r matches Ok(ev) ==> spec_acpi_decode(buf@) == Some(ev@) && ev.wf(),
            r matches Err(e) ==> e == (if buf@.len() < ACPI_EVENT_SIZE {
                CodecError::ShortRead
            } else {
                CodecError::MalformedRecord
            }),
    {
        if buf.len() < ACPI_EVENT_SIZE {
            return Err(CodecError::ShortRead);
        }
        if buf.len() > ACPI_EVENT_SIZE {
            return Err(CodecError::MalformedRecord);
        }
        let device_class = match decode_field(buf, 0, DEVICE_CLASS_SIZE) {
            Ok(s) => DeviceClass(s),
            Err(e) => {
                return Err(e);
            },
        };
        let bus_id = match decode_field(buf, DEVICE_CLASS_SIZE, BUS_ID_SIZE) {
            Ok(s) => BusId(s),
            Err(e) => {
                return Err(e);
            },
        };
        let event_type = u32_from_le_bytes(slice_subrange(buf, 36, 40));
        let event_data = u32_from_le_bytes(slice_subrange(buf, 40, 44));
        let ev = AcpiEvent { device_class, bus_id, event_type, event_data };
        proof {
            assert(spec_acpi_decode(buf@) == Some(ev@));
        }
        Ok(ev)
    }
}

/// Law: a text field whose encoding does not leave room for its terminator
/// makes the whole event unencodable — `serialize` then returns an error
/// rather than a silently truncated record, and the error names the fault.
pub proof fn lemma_encode_rejects_oversize(v: AcpiEventView)
    requires
        encode_utf8(v.device_class).len() >= DEVICE_CLASS_SIZE || encode_utf8(v.bus_id).len()
            >= BUS_ID_SIZE,
    ensures
        !v.wf(),
        encode_utf8(v.device_class).len() >= DEVICE_CLASS_SIZE ==> spec_acpi_encode_err(v)
            == CodecError::FieldTooLong,
        field_fits(v.device_class, DEVICE_CLASS_SIZE as int) ==> spec_acpi_encode_err(v)
            == CodecError::FieldTooLong,
{
}

/// Law: a field that fits its region decodes back to itself.
pub proof fn lemma_field_round_trip(s: Seq<char>, cap: int)
    requires
        field_fits(s, cap),
    ensures
        spec_field_decode(spec_field_encode(s, cap)) == Some(s),
        spec_field_encode(s, cap).len() == cap,
{
    broadcast use encode_utf8_valid_utf8, encode_utf8_decode_utf8;

    let bytes = encode_utf8(s);
    let region = spec_field_encode(s, cap);
    let n = bytes.len() as int;
    assert(region[n] == 0);
    assert forall|j: int| 0 <= j < n implies region[j] != 0 by {
        assert(region[j] == bytes[j]);
    }
    assert(zero_at_first(region, n));
    let c = choose|i: int| zero_at_first(region, i);
    lemma_zero_at_first_unique(region, c, n);
    assert(region.subrange(0, n) =~= bytes);
}

/// Law: encoding always yields exactly one 44-byte record, and decoding it
/// yields the event back, field for field.
pub proof fn lemma_acpi_round_trip(v: AcpiEventView)
    requires
        v.wf(),
    ensures
        spec_acpi_encode(v).len() == ACPI_EVENT_SIZE,
        spec_acpi_decode(spec_acpi_encode(v)) == Some(v),
{
    lemma_auto_spec_u32_to_from_le_bytes();
    lemma_field_round_trip(v.device_class, DEVICE_CLASS_SIZE as int);
    lemma_field_round_trip(v.bus_id, BUS_ID_SIZE as int);
    let b = spec_acpi_encode(v);
    assert(b.subrange(0, 20) =~= spec_field_encode(v.device_class, DEVICE_CLASS_SIZE as int));
    assert(b.subrange(20, 36) =~= spec_field_encode(v.bus_id, BUS_ID_SIZE as int));
    assert(b.subrange(36, 40) =~= spec_u32_to_le_bytes(v.event_type));
    assert(b.subrange(40, 44) =~= spec_u32_to_le_bytes(v.event_data));
    assert(spec_acpi_decode(b) == Some(v));
}

} // verus!
