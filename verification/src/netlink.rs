//! The generic-netlink message layer: attribute streams, the control-family
//! resolution handshake, and extraction of power events from multicast
//! messages. Every layout here must match the kernel ABI byte for byte; the
//! byte order is the little-endian order of the supported hosts.

use vstd::bytes::{spec_u16_from_le_bytes, spec_u32_from_le_bytes, u16_from_le_bytes, u32_from_le_bytes, spec_u16_to_le_bytes, spec_u32_to_le_bytes, u16_to_le_bytes, u32_to_le_bytes};
use vstd::prelude::*;
use vstd::slice::{slice_index_get, slice_subrange, slice_to_vec};
use vstd::string::StrSliceExecFns;
use vstd::utf8::encode_utf8;

use crate::acpi::{spec_acpi_decode, AcpiEvent, AcpiEventView};

verus! {

/// Length of the fixed netlink message header.
pub const NLMSG_HDRLEN: usize = 16;

/// Length of the generic-netlink header that follows it.
pub const GENL_HDRLEN: usize = 4;

/// Message type of the generic-netlink control family.
pub const GENL_ID_CTRL: u16 = 16;

/// Message type of a kernel error reply.
pub const NLMSG_ERROR: u16 = 2;

/// Control command asking for a family description by name.
pub const CTRL_CMD_GETFAMILY: u8 = 3;

/// Version carried in control-family requests.
pub const CTRL_VERSION: u8 = 2;

/// Flag marking a request message.
pub const NLM_F_REQUEST: u16 = 1;

/// Control attribute holding the numeric family id.
pub const CTRL_ATTR_FAMILY_ID: u16 = 1;

/// Control attribute holding the family name.
pub const CTRL_ATTR_FAMILY_NAME: u16 = 2;

/// Control attribute nesting the family's multicast groups.
pub const CTRL_ATTR_MCAST_GROUPS: u16 = 7;

/// Group attribute holding the group name.
pub const CTRL_MCAST_GRP_NAME: u16 = 1;

/// Group attribute holding the numeric group id.
pub const CTRL_MCAST_GRP_ID: u16 = 2;

/// Attribute of a power-event multicast message holding the event record.
pub const ACPI_EVENT_ATTR: u16 = 1;

/// Why a netlink exchange failed.
#[derive(Clone, Copy, Debug, PartialEq, Eq, Structural)]
pub enum NetlinkError {
    /// A message or attribute stream is malformed or truncated.
    ProtocolError,
    /// The kernel answered with an error message.
    KernelError,
    /// The response names no matching family or multicast group.
    FamilyNotFound,
    /// A multicast message carries no event attribute.
    MissingPayload,
    /// The event attribute does not hold a well-formed event record.
    MalformedEvent,
    /// A name does not fit the fixed-width field a request stores it in.
    NameTooLong,
}

/// `n` rounded up to the attribute alignment of four bytes.
pub open spec fn align4(n: int) -> int {
    if n % 4 == 0 {
        n
    } else {
        n + 4 - (n % 4)
    }
}

/// How far one attribute of stated length `alen` advances in a stream of
/// `dlen` remaining bytes: its aligned length, or all that remains when the
/// final padding is absent.
pub open spec fn attr_step(alen: int, dlen: int) -> int {
    if align4(alen) <= dlen {
        align4(alen)
    } else {
        dlen
    }
}

/// The stream is a well-formed sequence of attributes: each header fits and
/// states a length that covers its header and lies within the stream.
pub open spec fn spec_attrs_wf(d: Seq<u8>) -> bool
    decreases d.len(),
{
    if d.len() == 0 {
        true
    } else if d.len() < 4 {
        false
    } else {
        let alen = spec_u16_from_le_bytes(d.subrange(0, 2)) as int;
        4 <= alen <= d.len() && spec_attrs_wf(d.skip(attr_step(alen, d.len() as int)))
    }
}

/// The attributes of the stream, each a type and its payload, in order.
/// Meaningful on well-formed streams; a malformed tail yields no further
/// attributes.
pub open spec fn spec_attrs(d: Seq<u8>) -> Seq<(u16, Seq<u8>)>
    decreases d.len(),
{
    if d.len() < 4 {
        Seq::empty()
    } else {
        let alen = spec_u16_from_le_bytes(d.subrange(0, 2)) as int;
        if 4 <= alen <= d.len() {
            seq![
                (spec_u16_from_le_bytes(d.subrange(2, 4)), d.subrange(4, alen)),
            ] + spec_attrs(d.skip(attr_step(alen, d.len() as int)))
        } else {
            Seq::empty()
        }
    }
}

/// One parsed attribute: its numeric type and its payload bytes.
pub struct NlAttr {
    pub atype: u16,
    pub payload: Vec<u8>,
}

impl View for NlAttr {
    type V = (u16, Seq<u8>);

    open spec fn view(&self) -> (u16, Seq<u8>) {
        (self.atype, self.payload@)
    }
}

/// Parse a flat attribute stream. Returns all attributes exactly when the
/// stream is well formed, and rejects it otherwise.
pub fn parse_attrs(d: &[u8]) -> (r: Option<Vec<NlAttr>>)
    ensures
        r is Some <==> spec_attrs_wf(d@),
        r matches Some(v) ==> Seq::new(v@.len(), |i: int| v@[i]@) == spec_attrs(d@),
{
    let n = d.len();
    let mut out: Vec<NlAttr> = Vec::new();
    let mut pos: usize = 0;
    let ghost full = spec_attrs(d@);
    let ghost done: Seq<(u16, Seq<u8>)> = Seq::empty();
    proof {
        assert(d@.skip(0) =~= d@);
    }
    loop
        invariant_except_break
            full == done + spec_attrs(d@.skip(pos as int)),
            spec_attrs_wf(d@) <==> spec_attrs_wf(d@.skip(pos as int)),
        invariant
            pos <= n,
            n == d@.len(),
            full == spec_attrs(d@),
            done.len() == out@.len(),
            forall|i: int| 0 <= i < out@.len() ==> (#[trigger] out@[i])@ == done[i],
        ensures
            spec_attrs_wf(d@),
            full == done,
        decreases n - pos,
    {
        let ghost suffix = d@.skip(pos as int);
        let rem = n - pos;
        if rem == 0 {
            proof {
                assert(suffix.len() == 0);
                assert(full =~= done);
            }
            break ;
        }
        if rem < 4 {
            proof {
                assert(!spec_attrs_wf(suffix));
            }
            return None;
        }
        let alen = u16_from_le_bytes(slice_subrange(d, pos, pos + 2)) as usize;
        let atype = u16_from_le_bytes(slice_subrange(d, pos + 2, pos + 4));
        proof {
            assert(suffix.subrange(0, 2) =~= d@.subrange(pos as int, pos + 2));
            assert(suffix.subrange(2, 4) =~= d@.subrange(pos + 2, pos + 4));
        }
        if alen < 4 || alen > rem {
            proof {
                assert(!spec_attrs_wf(suffix));
            }
            return None;
        }
        let payload = slice_to_vec(slice_subrange(d, pos + 4, pos + alen));
        proof {
            assert(payload@ =~= suffix.subrange(4, alen as int));
        }
        out.push(NlAttr { atype, payload });
        let aligned = (alen + 3) / 4 * 4;
        let step = if aligned <= rem {
            aligned
        } else {
            rem
        };
        proof {
            assert(aligned == align4(alen as int)) by (nonlinear_arith)
                requires
                    4 <= alen <= 65535,
                    aligned == ((alen + 3) / 4 * 4),
            ;
            assert(step == attr_step(alen as int, suffix.len() as int));
            assert(d@.skip(pos + step) =~= suffix.skip(step as int));
            done = done + seq![(atype, suffix.subrange(4, alen as int))];
        }
        pos = pos + step;
    }
    Some(out)
}

/// The payload of the first attribute of type `t`.
pub open spec fn spec_find_attr(attrs: Seq<(u16, Seq<u8>)>, t: u16) -> Option<Seq<u8>>
    decreases attrs.len(),
{
    if attrs.len() == 0 {
        None
    } else if attrs[0].0 == t {
        Some(attrs[0].1)
    } else {
        spec_find_attr(attrs.drop_first(), t)
    }
}

proof fn lemma_find_attr_skip(attrs: Seq<(u16, Seq<u8>)>, t: u16, i: int)
    requires
        0 <= i <= attrs.len(),
        forall|j: int| 0 <= j < i ==> (#[trigger] attrs[j]).0 != t,
    ensures
        spec_find_attr(attrs, t) == spec_find_attr(attrs.skip(i), t),
    decreases i,
{
    if i > 0 {
        lemma_find_attr_skip(attrs.drop_first(), t, i - 1);
        assert(attrs.drop_first().skip(i - 1) =~= attrs.skip(i));
    } else {
        assert(attrs.skip(0) =~= attrs);
    }
}

/// Find the first attribute of type `t` among `attrs`.
pub fn find_attr<'a>(attrs: &'a Vec<NlAttr>, t: u16) -> (r: Option<&'a Vec<u8>>)
    ensures
        r matches Some(p) ==> spec_find_attr(Seq::new(attrs@.len(), |i: int| attrs@[i]@), t)
            == Some(p@),
        r is None ==> spec_find_attr(Seq::new(attrs@.len(), |i: int| attrs@[i]@), t) is None,
{
    let ghost aseq = Seq::new(attrs@.len(), |i: int| attrs@[i]@);
    let n = attrs.len();
    let mut i: usize = 0;
    while i < n
        invariant
            i <= n,
            n == attrs@.len(),
            aseq == Seq::new(attrs@.len(), |k: int| attrs@[k]@),
            forall|j: int| 0 <= j < i ==> (#[trigger] aseq[j]).0 != t,
        decreases n - i,
    {
        if attrs[i].atype == t {
            proof {
                lemma_find_attr_skip(aseq, t, i as int);
                assert(aseq.skip(i as int)[0] == aseq[i as int]);
            }
            return Some(&attrs[i].payload);
        }
        i = i + 1;
    }
    proof {
        lemma_find_attr_skip(aseq, t, n as int);
        assert(aseq.skip(n as int) =~= Seq::<(u16, Seq<u8>)>::empty());
    }
    None
}

/// The mathematical content of one parsed generic-netlink message.
pub struct GenlMsgView {
    pub nl_type: u16,
    pub nl_flags: u16,
    pub nl_seq: u32,
    pub nl_pid: u32,
    pub cmd: u8,
    pub version: u8,
    pub attrs: Seq<(u16, Seq<u8>)>,
}

/// One parsed generic-netlink message: the netlink header fields, the
/// generic header, and the flat attribute stream that follows them.
pub struct GenlMsg {
    pub nl_type: u16,
    pub nl_flags: u16,
    pub nl_seq: u32,
    pub nl_pid: u32,
    pub cmd: u8,
    pub version: u8,
    pub attrs: Vec<NlAttr>,
}

impl View for GenlMsg {
    type V = GenlMsgView;

    open spec fn view(&self) -> GenlMsgView {
        GenlMsgView {
            nl_type: self.nl_type,
            nl_flags: self.nl_flags,
            nl_seq: self.nl_seq,
            nl_pid: self.nl_pid,
            cmd: self.cmd,
            version: self.version,
            attrs: Seq::new(self.attrs@.len(), |i: int| self.attrs@[i]@),
        }
    }
}

/// The first message of buffer `b`, if `b` starts with a well-formed
/// generic-netlink message: the stated length must cover both headers, lie
/// within the buffer, and frame a well-formed attribute stream.
pub open spec fn spec_genl_parse(b: Seq<u8>) -> Option<GenlMsgView> {
    if b.len() >= NLMSG_HDRLEN + GENL_HDRLEN {
        let mlen = spec_u32_from_le_bytes(b.subrange(0, 4)) as int;
        if NLMSG_HDRLEN + GENL_HDRLEN <= mlen <= b.len() && spec_attrs_wf(b.subrange(20, mlen)) {
            Some(
                GenlMsgView {
                    nl_type: spec_u16_from_le_bytes(b.subrange(4, 6)),
                    nl_flags: spec_u16_from_le_bytes(b.subrange(6, 8)),
                    nl_seq: spec_u32_from_le_bytes(b.subrange(8, 12)),
                    nl_pid: spec_u32_from_le_bytes(b.subrange(12, 16)),
                    cmd: b[16],
                    version: b[17],
                    attrs: spec_attrs(b.subrange(20, mlen)),
                },
            )
        } else {
            None
        }
    } else {
        None
    }
}

/// Parse the first generic-netlink message of a received buffer. Bytes
/// beyond the message's stated length are ignored.
pub fn parse_genl(b: &[u8]) -> (r: Result<GenlMsg, NetlinkError>)
    ensures
        r is Ok <==> spec_genl_parse(b@) is Some,
        r matches Ok(m) ==> spec_genl_parse(b@) == Some(m@),
        r matches Err(e) ==> e == NetlinkError::ProtocolError,
{
    let n = b.len();
    if n < NLMSG_HDRLEN + GENL_HDRLEN {
        return Err(NetlinkError::ProtocolError);
    }
    let mlen = u32_from_le_bytes(slice_subrange(b, 0, 4)) as usize;
    if mlen < NLMSG_HDRLEN + GENL_HDRLEN || mlen > n {
        return Err(NetlinkError::ProtocolError);
    }
    let attr_bytes = slice_subrange(b, 20, mlen);
    let attrs = match parse_attrs(attr_bytes) {
        Some(v) => v,
        None => {
            return Err(NetlinkError::ProtocolError);
        },
    };
    let m = GenlMsg {
        nl_type: u16_from_le_bytes(slice_subrange(b, 4, 6)),
        nl_flags: u16_from_le_bytes(slice_subrange(b, 6, 8)),
        nl_seq: u32_from_le_bytes(slice_subrange(b, 8, 12)),
        nl_pid: u32_from_le_bytes(slice_subrange(b, 12, 16)),
        cmd: *slice_index_get(b, 16),
        version: *slice_index_get(b, 17),
        attrs,
    };
    proof {
        assert(spec_genl_parse(b@) == Some(m@));
    }
    Ok(m)
}

/// The outcome of reading one multicast message as a power event.
pub open spec fn spec_acpi_event(b: Seq<u8>) -> Result<AcpiEventView, NetlinkError> {
    match spec_genl_parse(b) {
        None => Err(NetlinkError::ProtocolError),
        Some(m) => {
            if m.nl_type == NLMSG_ERROR {
                Err(NetlinkError::KernelError)
            } else {
                match spec_find_attr(m.attrs, ACPI_EVENT_ATTR) {
                    None => Err(NetlinkError::MissingPayload),
                    Some(p) => match spec_acpi_decode(p) {
                        Some(v) => Ok(v),
                        None => Err(NetlinkError::MalformedEvent),
                    },
                }
            }
        },
    }
}

/// Extract the power event one multicast message carries: parse the
/// message, take its event attribute, and decode the 44-byte record.
pub fn acpi_event(msg: &[u8]) -> (r: Result<AcpiEvent, NetlinkError>)
    ensures
        r matches Ok(ev) ==> spec_acpi_event(msg@) == Ok::<AcpiEventView, NetlinkError>(ev@),
        r matches Err(e) ==> spec_acpi_event(msg@) == Err::<AcpiEventView, NetlinkError>(e),
{
    let m = match parse_genl(msg) {
        Ok(m) => m,
        Err(e) => {
            return Err(e);
        },
    };
    if m.nl_type == NLMSG_ERROR {
        return Err(NetlinkError::KernelError);
    }
    let payload = match find_attr(&m.attrs, ACPI_EVENT_ATTR) {
        Some(p) => p,
        None => {
            return Err(NetlinkError::MissingPayload);
        },
    };
    match AcpiEvent::deserialize(payload.as_slice()) {
        Ok(ev) => Ok(ev),
        Err(_) => Err(NetlinkError::MalformedEvent),
    }
}

/// The wire image of a control request asking for the family named `name`:
/// netlink header, generic header, and one family-name attribute holding
/// the zero-terminated name, padded to attribute alignment.
pub open spec fn spec_family_request(name: Seq<char>, seqno: u32, pid: u32) -> Seq<u8> {
    let nameb = encode_utf8(name);
    let alen = 4 + nameb.len() + 1;
    let total = 20 + align4(alen as int);
    spec_u32_to_le_bytes(total as u32) + spec_u16_to_le_bytes(GENL_ID_CTRL) + spec_u16_to_le_bytes(
        NLM_F_REQUEST,
    ) + spec_u32_to_le_bytes(seqno) + spec_u32_to_le_bytes(pid) + seq![
        CTRL_CMD_GETFAMILY,
        CTRL_VERSION,
        0u8,
        0u8,
    ] + spec_u16_to_le_bytes(alen as u16) + spec_u16_to_le_bytes(CTRL_ATTR_FAMILY_NAME) + nameb
        + seq![0u8] + Seq::new((align4(alen as int) - alen) as nat, |i: int| 0u8)
}

/// Build the control request that resolves a family name. The name must
/// fit the kernel's 16-byte family-name field, terminator included.
pub fn family_request(name: &str, seqno: u32, pid: u32) -> (r: Result<Vec<u8>, NetlinkError>)
    ensures
        r is Ok <==> crate::acpi::field_fits(name@, 16),
        r matches Ok(v) ==> v@ == spec_family_request(name@, seqno, pid),
        r matches Err(e) ==> e == NetlinkError::NameTooLong,
{
    let nameb = name.as_bytes_vec();
    let nb = nameb.len();
    if nb >= 16 {
        return Err(NetlinkError::NameTooLong);
    }
    let mut has_zero = false;
    let mut i: usize = 0;
    while i < nb
        invariant
            i <= nb,
            nb == nameb@.len(),
            has_zero <==> exists|j: int| 0 <= j < i && nameb@[j] == 0,
        decreases nb - i,
    {
        if nameb[i] == 0 {
            has_zero = true;
        }
        i = i + 1;
    }
    if has_zero {
        return Err(NetlinkError::NameTooLong);
    }
    let alen = 4 + nb + 1;
    let aligned = (alen + 3) / 4 * 4;
    proof {
        vstd::bytes::lemma_auto_spec_u16_to_from_le_bytes();
        vstd::bytes::lemma_auto_spec_u32_to_from_le_bytes();
        assert(aligned == align4(alen as int)) by (nonlinear_arith)
            requires
                4 <= alen <= 65535,
                aligned == ((alen + 3) / 4 * 4),
        ;
        assert(align4(alen as int) - alen < 4);
    }
    let total = 20 + aligned;
    let mut out = u32_to_le_bytes(total as u32);
    let mut part = u16_to_le_bytes(GENL_ID_CTRL);
    out.append(&mut part);
    let mut part = u16_to_le_bytes(NLM_F_REQUEST);
    out.append(&mut part);
    let mut part = u32_to_le_bytes(seqno);
    out.append(&mut part);
    let mut part = u32_to_le_bytes(pid);
    out.append(&mut part);
    out.push(CTRL_CMD_GETFAMILY);
    out.push(CTRL_VERSION);
    out.push(0u8);
    out.push(0u8);
    let mut part = u16_to_le_bytes(alen as u16);
    out.append(&mut part);
    let mut part = u16_to_le_bytes(CTRL_ATTR_FAMILY_NAME);
    out.append(&mut part);
    let mut namev = nameb;
    out.append(&mut namev);
    out.push(0u8);
    let mut pad = aligned - alen;
    proof {
        let target = spec_family_request(name@, seqno, pid);
        assert(out@ =~= target.take(target.len() - pad));
    }
    while pad > 0
        invariant
            nb == encode_utf8(name@).len(),
            nb < 16,
            alen == 4 + nb + 1,
            aligned == align4(alen as int),
            aligned - alen < 4,
            pad <= aligned - alen,
            out@ == spec_family_request(name@, seqno, pid).take(
                spec_family_request(name@, seqno, pid).len() - pad,
            ),
        decreases pad,
    {
        out.push(0u8);
        pad = pad - 1;
        proof {
            vstd::bytes::lemma_auto_spec_u16_to_from_le_bytes();
            vstd::bytes::lemma_auto_spec_u32_to_from_le_bytes();
            let target = spec_family_request(name@, seqno, pid);
            assert(target[target.len() - pad - 1] == 0u8);
            assert(out@ =~= target.take(target.len() - pad));
        }
    }
    proof {
        let target = spec_family_request(name@, seqno, pid);
        assert(out@ =~= target);
    }
    Ok(out)
}

/// A group record names `gname`: its nested attributes are well formed and
/// its name attribute holds exactly the zero-terminated name.
pub open spec fn group_matches(g: (u16, Seq<u8>), gname: Seq<char>) -> bool {
    spec_attrs_wf(g.1) && spec_find_attr(spec_attrs(g.1), CTRL_MCAST_GRP_NAME) == Some(
        encode_utf8(gname) + seq![0u8],
    )
}

/// The id a group record states, when it states one of the right width.
pub open spec fn group_id_of(g: (u16, Seq<u8>)) -> Option<u32> {
    if spec_attrs_wf(g.1) {
        match spec_find_attr(spec_attrs(g.1), CTRL_MCAST_GRP_ID) {
            Some(p) => if p.len() == 4 {
                Some(spec_u32_from_le_bytes(p))
            } else {
                None
            },
            None => None,
        }
    } else {
        None
    }
}

/// The id of the first group record that names `gname` and states an id.
pub open spec fn spec_find_group(groups: Seq<(u16, Seq<u8>)>, gname: Seq<char>) -> Option<u32>
    decreases groups.len(),
{
    if groups.len() == 0 {
        None
    } else if group_matches(groups[0], gname) && group_id_of(groups[0]) is Some {
        group_id_of(groups[0])
    } else {
        spec_find_group(groups.drop_first(), gname)
    }
}

proof fn lemma_find_group_skip(groups: Seq<(u16, Seq<u8>)>, gname: Seq<char>, i: int)
    requires
        0 <= i <= groups.len(),
        forall|j: int|
            0 <= j < i ==> !(group_matches(#[trigger] groups[j], gname) && group_id_of(groups[j])
                is Some),
    ensures
        spec_find_group(groups, gname) == spec_find_group(groups.skip(i), gname),
    decreases i,
{
    if i > 0 {
        lemma_find_group_skip(groups.drop_first(), gname, i - 1);
        assert(groups.drop_first().skip(i - 1) =~= groups.skip(i));
    } else {
        assert(groups.skip(0) =~= groups);
    }
}

/// What resolving `gname` against a control response yields: the family id
/// and the matching group's id, or the failure the response dictates.
pub open spec fn spec_resolve(b: Seq<u8>, gname: Seq<char>) -> Result<(u16, u32), NetlinkError> {
    match spec_genl_parse(b) {
        None => Err(NetlinkError::ProtocolError),
        Some(m) => {
            if m.nl_type == NLMSG_ERROR {
                Err(NetlinkError::KernelError)
            } else if m.nl_type != GENL_ID_CTRL {
                Err(NetlinkError::ProtocolError)
            } else {
                match spec_find_attr(m.attrs, CTRL_ATTR_FAMILY_ID) {
                    Some(fp) => {
                        if fp.len() == 2 {
                            match spec_find_attr(m.attrs, CTRL_ATTR_MCAST_GROUPS) {
                                Some(gp) => {
                                    if spec_attrs_wf(gp) {
                                        match spec_find_group(spec_attrs(gp), gname) {
                                            Some(gid) => Ok(
                                                (spec_u16_from_le_bytes(fp), gid),
                                            ),
                                            None => Err(NetlinkError::FamilyNotFound),
                                        }
                                    } else {
                                        Err(NetlinkError::ProtocolError)
                                    }
                                },
                                None => Err(NetlinkError::FamilyNotFound),
                            }
                        } else {
                            Err(NetlinkError::ProtocolError)
                        }
                    },
                    None => Err(NetlinkError::ProtocolError),
                }
            }
        },
    }
}

/// Walk a control response for the family id and the id of the multicast
/// group named `group_name`.
pub fn parse_family_response(msg: &[u8], group_name: &str) -> (r: Result<
    (u16, u32),
    NetlinkError,
>)
    ensures
        r matches Ok(ids) ==> spec_resolve(msg@, group_name@) == Ok::<
            (u16, u32),
            NetlinkError,
        >(ids),
        r matches Err(e) ==> spec_resolve(msg@, group_name@) == Err::<(u16, u32), NetlinkError>(e),
{
    let m = match parse_genl(msg) {
        Ok(m) => m,
        Err(e) => {
            return Err(e);
        },
    };
    if m.nl_type == NLMSG_ERROR {
        return Err(NetlinkError::KernelError);
    }
    if m.nl_type != GENL_ID_CTRL {
        return Err(NetlinkError::ProtocolError);
    }
    let fp = match find_attr(&m.attrs, CTRL_ATTR_FAMILY_ID) {
        Some(p) => p,
        None => {
            return Err(NetlinkError::ProtocolError);
        },
    };
    if fp.len() != 2 {
        return Err(NetlinkError::ProtocolError);
    }
    let family_id = u16_from_le_bytes(fp.as_slice());
    let gp = match find_attr(&m.attrs, CTRL_ATTR_MCAST_GROUPS) {
        Some(p) => p,
        None => {
            return Err(NetlinkError::FamilyNotFound);
        },
    };
    let groups = match parse_attrs(gp.as_slice()) {
        Some(v) => v,
        None => {
            return Err(NetlinkError::ProtocolError);
        },
    };
    let mut expected = group_name.as_bytes_vec();
    expected.push(0u8);
    let ghost gseq = spec_attrs(gp@);
    let gn = groups.len();
    let mut gi: usize = 0;
    while gi < gn
        invariant
            gi <= gn,
            gn == groups@.len(),
            gseq == spec_attrs(gp@),
            gseq.len() == groups@.len(),
            forall|k: int| 0 <= k < groups@.len() ==> (#[trigger] groups@[k])@ == gseq[k],
            expected@ == encode_utf8(group_name@) + seq![0u8],
            spec_genl_parse(msg@) == Some(m@),
            m@.nl_type != NLMSG_ERROR,
            m@.nl_type == GENL_ID_CTRL,
            spec_find_attr(m@.attrs, CTRL_ATTR_FAMILY_ID) == Some(fp@),
            fp@.len() == 2,
            family_id == spec_u16_from_le_bytes(fp@),
            spec_find_attr(m@.attrs, CTRL_ATTR_MCAST_GROUPS) == Some(gp@),
            spec_attrs_wf(gp@),
            forall|j: int|
                0 <= j < gi ==> !(group_matches(#[trigger] gseq[j], group_name@) && group_id_of(
                    gseq[j],
                ) is Some),
        decreases gn - gi,
    {
        let ghost g = gseq[gi as int];
        match parse_attrs(groups[gi].payload.as_slice()) {
            None => {
                proof {
                    assert(!group_matches(g, group_name@));
                }
            },
            Some(fields) => {
                let ghost fseq = spec_attrs(g.1);
                proof {
                    assert(Seq::new(fields@.len(), |i: int| fields@[i]@) == fseq);
                }
                let mut name_match = false;
                match find_attr(&fields, CTRL_MCAST_GRP_NAME) {
                    Some(np) => {
                        name_match = *np == expected;
                        proof {
                            if name_match {
                                assert(np@ =~= expected@);
                            } else {
                                if np@ == expected@ {
                                    assert(forall|i: int|
                                        0 <= i < np@.len() ==> np@[i] == expected@[i]);
                                    assert(false);
                                }
                            }
                            assert(group_matches(g, group_name@) <==> name_match);
                        }
                    },
                    None => {
                        proof {
                            assert(!group_matches(g, group_name@));
                        }
                    },
                }
                if name_match {
                    match find_attr(&fields, CTRL_MCAST_GRP_ID) {
                        Some(ip) => {
                            if ip.len() == 4 {
                                let gid = u32_from_le_bytes(ip.as_slice());
                                proof {
                                    assert(group_id_of(g) == Some(gid));
                                    lemma_find_group_skip(gseq, group_name@, gi as int);
                                    assert(gseq.skip(gi as int)[0] == g);
                                }
                                return Ok((family_id, gid));
                            } else {
                                proof {
                                    assert(group_id_of(g) is None);
                                }
                            }
                        },
                        None => {
                            proof {
                                assert(group_id_of(g) is None);
                            }
                        },
                    }
                }
            },
        }
        gi = gi + 1;
    }
    proof {
        lemma_find_group_skip(gseq, group_name@, gn as int);
        assert(gseq.skip(gn as int) =~= Seq::<(u16, Seq<u8>)>::empty());
    }
    Err(NetlinkError::FamilyNotFound)
}

} // verus!
