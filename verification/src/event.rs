//! The event loop's decisions: a multiplexer state machine that turns raw
//! reads from the socket and the device files into typed events while
//! keeping every source's failures to itself, and the dispatch planner that
//! decides, for each decoded event, whether and how the plugin is called.
//!
//! The surrounding loop performs the reads, resolves the planned handler
//! symbol and makes the native call; every decision in between is made
//! here.

use vstd::prelude::*;

use crate::acpi::{spec_acpi_encode, spec_acpi_encode_err, AcpiEvent, AcpiEventView, CodecError};
use crate::evdev::{spec_input_decode, spec_input_encode, InputEventStruct, INPUT_EVENT_SIZE};
use crate::filter::{spec_admits_input, spec_admits_power, AcpiFilter, EvdevFilter};
use crate::netlink::{spec_acpi_event, NetlinkError};

verus! {

/// What one turn of the surrounding loop handed the multiplexer: a datagram
/// from the socket, one read from a device file, or a source's end.
pub enum SourceRead {
    /// A datagram received from the multicast socket.
    SocketMessage(Vec<u8>),
    /// The bytes one read from the numbered device file returned.
    DeviceData(usize, Vec<u8>),
    /// The numbered device file reached its end.
    DeviceEnd(usize),
    /// Reading the numbered device file failed; the device is gone.
    DeviceFault(usize),
    /// Reading the socket failed.
    SocketFault,
}

/// The mathematical content of a [`SourceRead`].
pub enum SourceReadV {
    SocketMessage(Seq<u8>),
    DeviceData(usize, Seq<u8>),
    DeviceEnd(usize),
    DeviceFault(usize),
    SocketFault,
}

impl View for SourceRead {
    type V = SourceReadV;

    open spec fn view(&self) -> SourceReadV {
        match self {
            SourceRead::SocketMessage(b) => SourceReadV::SocketMessage(b@),
            SourceRead::DeviceData(i, b) => SourceReadV::DeviceData(*i, b@),
            SourceRead::DeviceEnd(i) => SourceReadV::DeviceEnd(*i),
            SourceRead::DeviceFault(i) => SourceReadV::DeviceFault(*i),
            SourceRead::SocketFault => SourceReadV::SocketFault,
        }
    }
}

/// What the multiplexer made of one read.
pub enum MuxOutput {
    /// A decoded, typed power event.
    Power(AcpiEvent),
    /// A decoded, typed input event, tagged with its source.
    Input(usize, InputEventStruct),
    /// A socket message that did not decode; it is dropped and logged.
    SkippedMessage(NetlinkError),
    /// A device read that did not decode; it is dropped and logged.
    SkippedRead(usize, CodecError),
    /// The named device source is closed from here on.
    SourceClosed(usize),
    /// The socket source is closed from here on.
    SocketClosed,
    /// A read from a source that is not open; nothing happens.
    Ignored,
}

/// The mathematical content of a [`MuxOutput`].
pub enum MuxOutputV {
    Power(AcpiEventView),
    Input(usize, InputEventStruct),
    SkippedMessage(NetlinkError),
    SkippedRead(usize, CodecError),
    SourceClosed(usize),
    SocketClosed,
    Ignored,
}

impl View for MuxOutput {
    type V = MuxOutputV;

    open spec fn view(&self) -> MuxOutputV {
        match self {
            MuxOutput::Power(ev) => MuxOutputV::Power(ev@),
            MuxOutput::Input(i, ev) => MuxOutputV::Input(*i, *ev),
            MuxOutput::SkippedMessage(e) => MuxOutputV::SkippedMessage(*e),
            MuxOutput::SkippedRead(i, e) => MuxOutputV::SkippedRead(*i, *e),
            MuxOutput::SourceClosed(i) => MuxOutputV::SourceClosed(*i),
            MuxOutput::SocketClosed => MuxOutputV::SocketClosed,
            MuxOutput::Ignored => MuxOutputV::Ignored,
        }
    }
}

/// Which sources are still open: the socket and each device file.
pub struct MuxState {
    socket_open: bool,
    devices_open: Vec<bool>,
}

/// The mathematical content of a [`MuxState`].
pub struct MuxStateV {
    pub socket_open: bool,
    pub devices: Seq<bool>,
}

impl View for MuxState {
    type V = MuxStateV;

    closed spec fn view(&self) -> MuxStateV {
        MuxStateV { socket_open: self.socket_open, devices: self.devices_open@ }
    }
}

/// One multiplexer step: what the next state and output are for a given
/// read. A message or read that fails to decode is skipped and changes no
/// source's state; a source that ends is closed alone.
pub open spec fn spec_mux_step(s: MuxStateV, r: SourceReadV) -> (MuxStateV, MuxOutputV) {
    match r {
        SourceReadV::SocketMessage(b) => {
            if !s.socket_open {
                (s, MuxOutputV::Ignored)
            } else {
                match spec_acpi_event(b) {
                    Ok(v) => (s, MuxOutputV::Power(v)),
                    Err(e) => (s, MuxOutputV::SkippedMessage(e)),
                }
            }
        },
        SourceReadV::DeviceData(i, b) => {
            if i >= s.devices.len() || !s.devices[i as int] {
                (s, MuxOutputV::Ignored)
            } else {
                match spec_input_decode(b) {
                    Some(ev) => (s, MuxOutputV::Input(i, ev)),
                    None => (
                        s,
                        MuxOutputV::SkippedRead(
                            i,
                            if b.len() < INPUT_EVENT_SIZE {
                                CodecError::ShortRead
                            } else {
                                CodecError::MalformedRecord
                            },
                        ),
                    ),
                }
            }
        },
        SourceReadV::DeviceEnd(i) => {
            if i < s.devices.len() && s.devices[i as int] {
                (
                    MuxStateV { socket_open: s.socket_open, devices: s.devices.update(i as int, false) },
                    MuxOutputV::SourceClosed(i),
                )
            } else {
                (s, MuxOutputV::Ignored)
            }
        },
        SourceReadV::DeviceFault(i) => {
            if i < s.devices.len() && s.devices[i as int] {
                (
                    MuxStateV { socket_open: s.socket_open, devices: s.devices.update(i as int, false) },
                    MuxOutputV::SourceClosed(i),
                )
            } else {
                (s, MuxOutputV::Ignored)
            }
        },
        SourceReadV::SocketFault => {
            if s.socket_open {
                (
                    MuxStateV { socket_open: false, devices: s.devices },
                    MuxOutputV::SocketClosed,
                )
            } else {
                (s, MuxOutputV::Ignored)
            }
        },
    }
}

impl MuxState {
    /// All sources open: the socket and `num_devices` device files.
    pub fn new(num_devices: usize) -> (r: Self)
        ensures
            r@.socket_open,
            r@.devices.len() == num_devices,
            forall|i: int| 0 <= i < num_devices ==> r@.devices[i],
    {
        let mut devices_open: Vec<bool> = Vec::new();
        let mut i: usize = 0;
        while i < num_devices
            invariant
                i <= num_devices,
                devices_open@.len() == i,
                forall|j: int| 0 <= j < i ==> devices_open@[j],
            decreases num_devices - i,
        {
            devices_open.push(true);
            i = i + 1;
        }
        MuxState { socket_open: true, devices_open }
    }

    /// The socket source is still open.
    pub fn socket_open(&self) -> (r: bool)
        ensures
            r == self@.socket_open,
    {
        self.socket_open
    }

    /// How many device sources the multiplexer watches.
    pub fn num_devices(&self) -> (r: usize)
        ensures
            r == self@.devices.len(),
    {
        self.devices_open.len()
    }

    /// The numbered device source is still open.
    pub fn device_open(&self, i: usize) -> (r: bool)
        requires
            i < self@.devices.len(),
        ensures
            r == self@.devices[i as int],
    {
        self.devices_open[i]
    }

    /// Feed one read into the multiplexer and take its decision.
    pub fn mux_step(&mut self, read: SourceRead) -> (r: MuxOutput)
        ensures
            (final(self)@, r@) == spec_mux_step(old(self)@, read@),
    {
        match read {
            SourceRead::SocketMessage(b) => {
                if !self.socket_open {
                    MuxOutput::Ignored
                } else {
                    match crate::netlink::acpi_event(b.as_slice()) {
                        Ok(ev) => MuxOutput::Power(ev),
                        Err(e) => MuxOutput::SkippedMessage(e),
                    }
                }
            },
            SourceRead::DeviceData(i, b) => {
                if i >= self.devices_open.len() {
                    MuxOutput::Ignored
                } else if !self.devices_open[i] {
                    MuxOutput::Ignored
                } else {
                    match InputEventStruct::deserialize(b.as_slice()) {
                        Ok(ev) => MuxOutput::Input(i, ev),
                        Err(e) => MuxOutput::SkippedRead(i, e),
                    }
                }
            },
            SourceRead::DeviceEnd(i) => self.close_device(i),
            SourceRead::DeviceFault(i) => self.close_device(i),
            SourceRead::SocketFault => {
                if self.socket_open {
                    self.socket_open = false;
                    MuxOutput::SocketClosed
                } else {
                    MuxOutput::Ignored
                }
            },
        }
    }

    /// Close the numbered device source, leaving every other source as it
    /// was.
    fn close_device(&mut self, i: usize) -> (r: MuxOutput)
        ensures
            ({
                let s = old(self)@;
                if i < s.devices.len() && s.devices[i as int] {
                    final(self)@ == (MuxStateV {
                        socket_open: s.socket_open,
                        devices: s.devices.update(i as int, false),
                    }) && r@ == MuxOutputV::SourceClosed(i as usize)
                } else {
                    final(self)@ == s && r@ == MuxOutputV::Ignored
                }
            }),
    {
        if i < self.devices_open.len() && self.devices_open[i] {
            let _old_flag = self.devices_open.remove(i);
            self.devices_open.insert(i, false);
            proof {
                assert(self.devices_open@ =~= old(self)@.devices.update(i as int, false));
            }
            MuxOutput::SourceClosed(i)
        } else {
            MuxOutput::Ignored
        }
    }
}

/// Law: multiplexer isolation. A message or read that fails to decode
/// changes no source's state, so every other open source is read exactly as
/// before; and a source that ends or faults closes that source alone.
pub proof fn lemma_mux_isolation(s: MuxStateV, r: SourceReadV)
    ensures
        spec_mux_step(s, r).1 matches MuxOutputV::SkippedMessage(_) ==> spec_mux_step(s, r).0 == s,
        spec_mux_step(s, r).1 matches MuxOutputV::SkippedRead(..) ==> spec_mux_step(s, r).0 == s,
        spec_mux_step(s, r).0.devices.len() == s.devices.len(),
        forall|i: usize, j: int|
            (r == SourceReadV::DeviceEnd(i) || r == SourceReadV::DeviceFault(i)) && 0 <= j
                < s.devices.len() && j != i ==> spec_mux_step(s, r).0.devices[j] == s.devices[j],
        (r matches SourceReadV::DeviceEnd(_) || r matches SourceReadV::DeviceFault(_) || r matches
        SourceReadV::DeviceData(..)) ==> spec_mux_step(s, r).0.socket_open == s.socket_open,
        r == SourceReadV::SocketFault ==> spec_mux_step(s, r).0.devices == s.devices,
{
}

/// The fixed symbol a handler is resolved by in the loaded plugin.
#[derive(Clone, Copy, Debug, PartialEq, Eq, Structural)]
pub enum HandlerSymbol {
    /// The power-event handler, exported as `acpi_handler`.
    AcpiHandler,
    /// The input-event handler, exported as `evdev_handler`.
    EvdevHandler,
}

impl HandlerSymbol {
    /// The exported name this symbol is looked up under.
    pub fn name(&self) -> (r: &'static str)
        ensures
            *self == HandlerSymbol::AcpiHandler ==> r@ == "acpi_handler"@,
            *self == HandlerSymbol::EvdevHandler ==> r@ == "evdev_handler"@,
    {
        match self {
            HandlerSymbol::AcpiHandler => "acpi_handler",
            HandlerSymbol::EvdevHandler => "evdev_handler",
        }
    }
}

/// The dispatcher's decision for one decoded event.
pub enum DispatchPlan {
    /// Resolve the symbol and call it with exactly these marshalled bytes.
    Invoke(HandlerSymbol, Vec<u8>),
    /// The filter rejected the event; the plugin is not called.
    Rejected,
    /// The event cannot be marshalled; it is dropped and logged.
    EncodeFailed(CodecError),
}

/// The mathematical content of a [`DispatchPlan`].
pub enum DispatchPlanV {
    Invoke(HandlerSymbol, Seq<u8>),
    Rejected,
    EncodeFailed(CodecError),
}

impl View for DispatchPlan {
    type V = DispatchPlanV;

    open spec fn view(&self) -> DispatchPlanV {
        match self {
            DispatchPlan::Invoke(sym, buf) => DispatchPlanV::Invoke(*sym, buf@),
            DispatchPlan::Rejected => DispatchPlanV::Rejected,
            DispatchPlan::EncodeFailed(e) => DispatchPlanV::EncodeFailed(*e),
        }
    }
}

/// The plan for a power event: if the whitelist admits its device class,
/// call the power handler with the 44-byte encoding of the event.
pub open spec fn spec_plan_power(ws: Seq<Seq<char>>, ev: AcpiEventView) -> DispatchPlanV {
    if !spec_admits_power(ws, ev.device_class) {
        DispatchPlanV::Rejected
    } else if ev.wf() {
        DispatchPlanV::Invoke(HandlerSymbol::AcpiHandler, spec_acpi_encode(ev))
    } else {
        DispatchPlanV::EncodeFailed(spec_acpi_encode_err(ev))
    }
}

/// The plan for an input event: if all whitelist dimensions admit it, call
/// the input handler with the event's 24-byte record, which needs no
/// further marshalling.
pub open spec fn spec_plan_input(f: crate::filter::EvdevFilterView, ev: InputEventStruct) -> DispatchPlanV {
    if spec_admits_input(f, ev.event_type, ev.event_code, ev.event_value) {
        DispatchPlanV::Invoke(HandlerSymbol::EvdevHandler, spec_input_encode(ev))
    } else {
        DispatchPlanV::Rejected
    }
}

/// Decide whether and how a power event is dispatched.
pub fn plan_power_dispatch(filter: &AcpiFilter, ev: &AcpiEvent) -> (r: DispatchPlan)
    ensures
        r@ == spec_plan_power(filter@, ev@),
{
    if !filter.admits_device_class(&ev.device_class.0) {
        DispatchPlan::Rejected
    } else {
        match ev.serialize() {
            Ok(buf) => DispatchPlan::Invoke(HandlerSymbol::AcpiHandler, buf),
            Err(e) => DispatchPlan::EncodeFailed(e),
        }
    }
}

/// Decide whether and how an input event is dispatched.
pub fn plan_input_dispatch(filter: &EvdevFilter, ev: &InputEventStruct) -> (r: DispatchPlan)
    ensures
        r@ == spec_plan_input(filter@, *ev),
{
    if filter.admits_input_event(ev.event_type, ev.event_code, ev.event_value) {
        DispatchPlan::Invoke(HandlerSymbol::EvdevHandler, ev.serialize())
    } else {
        DispatchPlan::Rejected
    }
}

/// What one native call came to, as the daemon records it. None of these is
/// a fault of the daemon.
#[derive(Clone, Copy, Debug, PartialEq, Eq, Structural)]
pub enum DispatchOutcome {
    /// The handler ran and returned zero.
    HandlerDone,
    /// The handler ran and returned this non-zero status; logged, never
    /// escalated.
    HandlerFailed(i32),
    /// The plugin exports no such symbol; the event is dropped and logged.
    SymbolMissing,
}

/// The outcome one resolution-and-call attempt is recorded as: `None` when
/// the symbol was missing, otherwise the handler's return status.
pub open spec fn spec_dispatch_outcome(call: Option<i32>) -> DispatchOutcome {
    match call {
        None => DispatchOutcome::SymbolMissing,
        Some(status) => if status == 0 {
            DispatchOutcome::HandlerDone
        } else {
            DispatchOutcome::HandlerFailed(status)
        },
    }
}

/// Record what the surrounding loop's resolution and native call came to.
pub fn dispatch_outcome(call: Option<i32>) -> (r: DispatchOutcome)
    ensures
        r == spec_dispatch_outcome(call),
{
    match call {
        None => DispatchOutcome::SymbolMissing,
        Some(status) => {
            if status == 0 {
                DispatchOutcome::HandlerDone
            } else {
                DispatchOutcome::HandlerFailed(status)
            }
        },
    }
}

/// Law: dispatch isolation. A missing symbol or failing handler is a
/// recorded outcome, never a fault; and because a plan is a function of the
/// filter and the event alone, any later event is planned exactly as if the
/// failure had not happened: it is dispatched precisely when admitted.
pub proof fn lemma_dispatch_isolation(
    ws: Seq<Seq<char>>,
    f: crate::filter::EvdevFilterView,
    power: AcpiEventView,
    input: InputEventStruct,
)
    ensures
        spec_dispatch_outcome(None) == DispatchOutcome::SymbolMissing,
        forall|status: i32|
            spec_dispatch_outcome(Some(status)) != DispatchOutcome::SymbolMissing,
        spec_admits_power(ws, power.device_class) && power.wf() ==> spec_plan_power(ws, power)
            == DispatchPlanV::Invoke(HandlerSymbol::AcpiHandler, spec_acpi_encode(power)),
        !spec_admits_power(ws, power.device_class) ==> spec_plan_power(ws, power)
            == DispatchPlanV::Rejected,
        spec_admits_input(f, input.event_type, input.event_code, input.event_value)
            ==> spec_plan_input(f, input) == DispatchPlanV::Invoke(
            HandlerSymbol::EvdevHandler,
            spec_input_encode(input),
        ),
        !spec_admits_input(f, input.event_type, input.event_code, input.event_value)
            ==> spec_plan_input(f, input) == DispatchPlanV::Rejected,
{
}

} // verus!
