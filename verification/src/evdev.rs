//! Input-event handling: the fixed-size kernel input record codec, and the
//! device catalog built by parsing the textual device-registry listing that
//! maps kernel handler names to human-readable device descriptions.

use vstd::bytes::{lemma_auto_spec_u16_to_from_le_bytes, lemma_auto_spec_u32_to_from_le_bytes, lemma_auto_spec_u64_to_from_le_bytes, spec_u16_from_le_bytes, spec_u16_to_le_bytes, spec_u32_from_le_bytes, spec_u32_to_le_bytes, spec_u64_from_le_bytes, spec_u64_to_le_bytes, u16_from_le_bytes, u16_to_le_bytes, u32_from_le_bytes, u32_to_le_bytes, u64_from_le_bytes, u64_to_le_bytes};
use vstd::prelude::*;
use vstd::slice::slice_subrange;
use vstd::string::StrSliceExecFns;

use crate::acpi::CodecError;
use crate::text::{contains_seq, range_contains, range_has_prefix, split_char, split_ranges_in, str_chars};

verus! {

/// Size in bytes of one kernel input-event record on a 64-bit host: two
/// 64-bit timestamp words, two 16-bit codes and one 32-bit value.
pub const INPUT_EVENT_SIZE: usize = 24;

/// One kernel input event, with its timestamp held as two integer words
/// exactly as the wire record lays them out.
#[derive(Clone, Copy, Debug, PartialEq, Eq, Structural)]
pub struct InputEventStruct {
    pub timestamp_sec: i64,
    pub timestamp_usec: i64,
    pub event_type: u16,
    pub event_code: u16,
    pub event_value: i32,
}

/// The 24-byte wire image of an input event.
pub open spec fn spec_input_encode(ev: InputEventStruct) -> Seq<u8> {
    spec_u64_to_le_bytes(ev.timestamp_sec as u64) + spec_u64_to_le_bytes(
        ev.timestamp_usec as u64,
    ) + spec_u16_to_le_bytes(ev.event_type) + spec_u16_to_le_bytes(ev.event_code)
        + spec_u32_to_le_bytes(ev.event_value as u32)
}

/// The input event a 24-byte buffer denotes; every 24-byte pattern is one.
pub open spec fn spec_input_decode(b: Seq<u8>) -> Option<InputEventStruct> {
    if b.len() == INPUT_EVENT_SIZE {
        Some(
            InputEventStruct {
                timestamp_sec: spec_u64_from_le_bytes(b.subrange(0, 8)) as i64,
                timestamp_usec: spec_u64_from_le_bytes(b.subrange(8, 16)) as i64,
                event_type: spec_u16_from_le_bytes(b.subrange(16, 18)),
                event_code: spec_u16_from_le_bytes(b.subrange(18, 20)),
                event_value: spec_u32_from_le_bytes(b.subrange(20, 24)) as i32,
            },
        )
    } else {
        None
    }
}

impl InputEventStruct {
    /// Encode this event as its fixed 24-byte wire record.
    pub fn serialize(&self) -> (r: Vec<u8>)
        ensures
            r@ == spec_input_encode(*self),
            r@.len() == INPUT_EVENT_SIZE,
    {
        proof {
            lemma_auto_spec_u16_to_from_le_bytes();
            lemma_auto_spec_u32_to_from_le_bytes();
            lemma_auto_spec_u64_to_from_le_bytes();
        }
        let mut out = u64_to_le_bytes(self.timestamp_sec as u64);
        let mut part = u64_to_le_bytes(self.timestamp_usec as u64);
        out.append(&mut part);
        let mut part = u16_to_le_bytes(self.event_type);
        out.append(&mut part);
        let mut part = u16_to_le_bytes(self.event_code);
        out.append(&mut part);
        let mut part = u32_to_le_bytes(self.event_value as u32);
        out.append(&mut part);
        proof {
            assert(out@ =~= spec_input_encode(*self));
        }
        out
    }

    /// Decode one 24-byte wire record; a buffer of any other size is
    /// rejected without decoding anything.
    pub fn deserialize(buf: &[u8]) -> (r: Result<InputEventStruct, CodecError>)
        ensures
            r is Ok <==> buf@.len() == INPUT_EVENT_SIZE,
            r matches Ok(ev) ==> spec_input_decode(buf@) == Some(ev),
            r matches Err(e) ==> e == (if buf@.len() < INPUT_EVENT_SIZE {
                CodecError::ShortRead
            } else {
                CodecError::MalformedRecord
            }),
    {
        if buf.len() < INPUT_EVENT_SIZE {
            return Err(CodecError::ShortRead);
        }
        if buf.len() > INPUT_EVENT_SIZE {
            return Err(CodecError::MalformedRecord);
        }
        let ev = InputEventStruct {
            timestamp_sec: u64_from_le_bytes(slice_subrange(buf, 0, 8)) as i64,
            timestamp_usec: u64_from_le_bytes(slice_subrange(buf, 8, 16)) as i64,
            event_type: u16_from_le_bytes(slice_subrange(buf, 16, 18)),
            event_code: u16_from_le_bytes(slice_subrange(buf, 18, 20)),
            event_value: u32_from_le_bytes(slice_subrange(buf, 20, 24)) as i32,
        };
        Ok(ev)
    }
}

/// Law: decoding an encoded input event yields the event back.
pub proof fn lemma_input_round_trip(ev: InputEventStruct)
    ensures
        spec_input_encode(ev).len() == INPUT_EVENT_SIZE,
        spec_input_decode(spec_input_encode(ev)) == Some(ev),
{
    lemma_auto_spec_u16_to_from_le_bytes();
    lemma_auto_spec_u32_to_from_le_bytes();
    lemma_auto_spec_u64_to_from_le_bytes();
    let b = spec_input_encode(ev);
    assert(b.subrange(0, 8) =~= spec_u64_to_le_bytes(ev.timestamp_sec as u64));
    assert(b.subrange(8, 16) =~= spec_u64_to_le_bytes(ev.timestamp_usec as u64));
    assert(b.subrange(16, 18) =~= spec_u16_to_le_bytes(ev.event_type));
    assert(b.subrange(18, 20) =~= spec_u16_to_le_bytes(ev.event_code));
    assert(b.subrange(20, 24) =~= spec_u32_to_le_bytes(ev.event_value as u32));
    let sec = ev.timestamp_sec;
    let usec = ev.timestamp_usec;
    let val = ev.event_value;
    assert((sec as u64) as i64 == sec) by (bit_vector);
    assert((usec as u64) as i64 == usec) by (bit_vector);
    assert((val as u32) as i32 == val) by (bit_vector);
}

/// The catalog of input devices: kernel handler names mapped to the
/// device descriptions found beside them in the device registry listing.
pub struct EvdevEvents {
    entries: Vec<(String, String)>,
}

impl View for EvdevEvents {
    type V = Seq<(Seq<char>, Seq<char>)>;

    closed spec fn view(&self) -> Seq<(Seq<char>, Seq<char>)> {
        Seq::new(self.entries@.len(), |i: int| (self.entries@[i].0@, self.entries@[i].1@))
    }
}

/// The description recorded for handler name `k`: the first entry with that
/// key.
pub open spec fn catalog_get(m: Seq<(Seq<char>, Seq<char>)>, k: Seq<char>) -> Option<Seq<char>>
    decreases m.len(),
{
    if m.len() == 0 {
        None
    } else if m[0].0 == k {
        Some(m[0].1)
    } else {
        catalog_get(m.drop_first(), k)
    }
}

/// The catalog after recording `v` under `k`: the first entry with key `k`
/// is replaced, or a new entry appended if the key is new.
pub open spec fn catalog_put(m: Seq<(Seq<char>, Seq<char>)>, k: Seq<char>, v: Seq<char>) -> Seq<
    (Seq<char>, Seq<char>),
>
    decreases m.len(),
{
    if m.len() == 0 {
        seq![(k, v)]
    } else if m[0].0 == k {
        seq![(k, v)] + m.drop_first()
    } else {
        seq![m[0]] + catalog_put(m.drop_first(), k, v)
    }
}

proof fn lemma_catalog_get_skip(m: Seq<(Seq<char>, Seq<char>)>, k: Seq<char>, i: int)
    requires
        0 <= i <= m.len(),
        forall|j: int| 0 <= j < i ==> (#[trigger] m[j]).0 != k,
    ensures
        catalog_get(m, k) == catalog_get(m.skip(i), k),
    decreases i,
{
    if i > 0 {
        lemma_catalog_get_skip(m.drop_first(), k, i - 1);
        assert(m.drop_first().skip(i - 1) =~= m.skip(i));
    } else {
        assert(m.skip(0) =~= m);
    }
}

proof fn lemma_catalog_put_skip(m: Seq<(Seq<char>, Seq<char>)>, k: Seq<char>, v: Seq<char>, i: int)
    requires
        0 <= i <= m.len(),
        forall|j: int| 0 <= j < i ==> (#[trigger] m[j]).0 != k,
    ensures
        catalog_put(m, k, v) == m.take(i) + catalog_put(m.skip(i), k, v),
    decreases i,
{
    if i > 0 {
        lemma_catalog_put_skip(m.drop_first(), k, v, i - 1);
        assert(m.drop_first().skip(i - 1) =~= m.skip(i));
        assert(m.drop_first().take(i - 1) =~= m.take(i).drop_first());
        assert(catalog_put(m, k, v) =~~= m.take(i) + catalog_put(m.skip(i), k, v));
    } else {
        assert(m.skip(0) =~= m);
        assert(m.take(0) + catalog_put(m, k, v) =~~= catalog_put(m, k, v));
    }
}

impl EvdevEvents {
    /// An empty catalog.
    pub fn new() -> (r: Self)
        ensures
            r@ == Seq::<(Seq<char>, Seq<char>)>::empty(),
    {
        let r = EvdevEvents { entries: Vec::new() };
        proof {
            assert(r@ =~= Seq::<(Seq<char>, Seq<char>)>::empty());
        }
        r
    }

    /// Record `value` under `key`, replacing what an earlier entry with the
    /// same key recorded.
    pub fn insert(&mut self, key: String, value: String)
        ensures
            final(self)@ == catalog_put(old(self)@, key@, value@),
    {
        let n = self.entries.len();
        let mut i: usize = 0;
        while i < n
            invariant
                i <= n,
                n == self.entries@.len(),
                *self == *old(self),
                forall|j: int| 0 <= j < i ==> (#[trigger] old(self)@[j]).0 != key@,
            decreases n - i,
        {
            if self.entries[i].0 == key {
                proof {
                    lemma_catalog_put_skip(old(self)@, key@, value@, i as int);
                }
                let _old_pair = self.entries.remove(i);
                self.entries.insert(i, (key, value));
                proof {
                    assert(old(self)@.skip(i as int)[0].0 == old(self)@[i as int].0);
                    assert(final(self)@ =~~= old(self)@.take(i as int) + (seq![
                        (key@, value@),
                    ] + old(self)@.skip(i as int).drop_first()));
                }
                return ;
            }
            i = i + 1;
        }
        self.entries.push((key, value));
        proof {
            lemma_catalog_put_skip(old(self)@, key@, value@, n as int);
            assert(old(self)@.skip(n as int) =~= Seq::<(Seq<char>, Seq<char>)>::empty());
            assert(final(self)@ =~~= old(self)@.take(n as int) + seq![(key@, value@)]);
        }
    }

    /// The description recorded for `key`, if any.
    pub fn get(&self, key: &String) -> (r: Option<&String>)
        ensures
            r matches Some(v) ==> catalog_get(self@, key@) == Some(v@),
            r is None ==> catalog_get(self@, key@) is None,
    {
        let n = self.entries.len();
        let mut i: usize = 0;
        while i < n
            invariant
                i <= n,
                n == self.entries@.len(),
                forall|j: int| 0 <= j < i ==> (#[trigger] self@[j]).0 != key@,
            decreases n - i,
        {
            if self.entries[i].0 == *key {
                proof {
                    lemma_catalog_get_skip(self@, key@, i as int);
                    assert(self@.skip(i as int)[0] == self@[i as int]);
                }
                return Some(&self.entries[i].1);
            }
            i = i + 1;
        }
        proof {
            lemma_catalog_get_skip(self@, key@, n as int);
            assert(self@.skip(n as int) =~= Seq::<(Seq<char>, Seq<char>)>::empty());
        }
        None
    }

    /// All entries, in the order they were first recorded.
    pub fn iter(&self) -> (r: &Vec<(String, String)>)
        ensures
            r@.len() == self@.len(),
            forall|k: int|
                0 <= k < r@.len() ==> ((#[trigger] r@[k]).0@, r@[k].1@) == self@[k],
    {
        &self.entries
    }
}

/// Prefix a device-name line carries in the registry listing.
pub open spec fn name_marker() -> Seq<char> {
    "N: Name=\""@
}

/// Prefix a handler-list line carries in the registry listing.
pub open spec fn handler_marker() -> Seq<char> {
    "H: Handlers="@
}

/// The naming pattern of readable input-event handlers.
pub open spec fn event_pattern() -> Seq<char> {
    "event"@
}

/// A registry line that states the device's quoted human-readable name.
pub open spec fn is_name_line(l: Seq<char>) -> bool {
    l.len() >= name_marker().len() + 1 && l.subrange(0, name_marker().len() as int)
        == name_marker() && l[l.len() - 1] == '"'
}

/// The name such a line states, quotes stripped.
pub open spec fn name_of(l: Seq<char>) -> Seq<char> {
    l.subrange(name_marker().len() as int, l.len() - 1)
}

/// A registry line that enumerates the device's kernel handlers.
pub open spec fn is_handler_line(l: Seq<char>) -> bool {
    l.len() >= handler_marker().len() && l.subrange(0, handler_marker().len() as int)
        == handler_marker()
}

/// The first listed handler whose name matches the input-event pattern.
pub open spec fn first_event_token(toks: Seq<Seq<char>>) -> Option<Seq<char>>
    decreases toks.len(),
{
    if toks.len() == 0 {
        None
    } else if contains_seq(toks[0], event_pattern()) {
        Some(toks[0])
    } else {
        first_event_token(toks.drop_first())
    }
}

/// The readable handler a handler-list line selects, if any.
pub open spec fn handler_of(l: Seq<char>) -> Option<Seq<char>> {
    if is_handler_line(l) {
        first_event_token(split_char(l.subrange(handler_marker().len() as int, l.len() as int), ' '))
    } else {
        None
    }
}

/// One line's effect on the (name, handler) pair gathered for a device: a
/// name line replaces the name, a handler line with a readable handler
/// replaces the handler, any other line changes nothing.
pub open spec fn scan_line(st: (Seq<char>, Seq<char>), l: Seq<char>) -> (Seq<char>, Seq<char>) {
    (
        if is_name_line(l) {
            name_of(l)
        } else {
            st.0
        },
        match handler_of(l) {
            Some(h) => h,
            None => st.1,
        },
    )
}

/// The (name, handler) pair gathered after reading all `lines` in order.
pub open spec fn scan_lines(lines: Seq<Seq<char>>) -> (Seq<char>, Seq<char>)
    decreases lines.len(),
{
    if lines.len() == 0 {
        (Seq::<char>::empty(), Seq::<char>::empty())
    } else {
        scan_line(scan_lines(lines.drop_last()), lines.last())
    }
}

/// The catalog entry one device paragraph yields: its handler mapped to its
/// name, or nothing when no readable handler is listed.
pub open spec fn chunk_entry(lines: Seq<Seq<char>>) -> Option<(Seq<char>, Seq<char>)> {
    if scan_lines(lines).1.len() > 0 {
        Some((scan_lines(lines).1, scan_lines(lines).0))
    } else {
        None
    }
}

/// The catalog after one device paragraph has been read.
pub open spec fn spec_apply_chunk(
    m: Seq<(Seq<char>, Seq<char>)>,
    chunk: Seq<char>,
) -> Seq<(Seq<char>, Seq<char>)> {
    match chunk_entry(split_char(chunk, '\n')) {
        Some((h, n)) => catalog_put(m, h, n),
        None => m,
    }
}

proof fn lemma_first_event_token_skip(toks: Seq<Seq<char>>, i: int)
    requires
        0 <= i <= toks.len(),
        forall|k: int| 0 <= k < i ==> !contains_seq(#[trigger] toks[k], event_pattern()),
    ensures
        first_event_token(toks) == first_event_token(toks.skip(i)),
    decreases i,
{
    if i > 0 {
        lemma_first_event_token_skip(toks.drop_first(), i - 1);
        assert(toks.drop_first().skip(i - 1) =~= toks.skip(i));
    } else {
        assert(toks.skip(0) =~= toks);
    }
}

/// Apply one line `cs[ls..le]` to the gathered (name, handler) pair.
fn scan_line_exec(
    chunk: &str,
    cs: &Vec<char>,
    ls: usize,
    le: usize,
    name_s: String,
    handler_s: String,
) -> (r: (String, String))
    requires
        cs@ == chunk@,
        ls <= le <= cs@.len(),
    ensures
        (r.0@, r.1@) == scan_line((name_s@, handler_s@), cs@.subrange(ls as int, le as int)),
{
    let ghost l = cs@.subrange(ls as int, le as int);
    proof {
        reveal_strlit("N: Name=\"");
        reveal_strlit("H: Handlers=");
        reveal_strlit("event");
    }
    let nmark = str_chars("N: Name=\"");
    let hmark = str_chars("H: Handlers=");
    let epat = str_chars("event");
    let nlen = nmark.len();
    let hlen = hmark.len();
    let mut name_out = name_s;
    let mut handler_out = handler_s;

    let name_prefix = range_has_prefix(cs, ls, le, &nmark);
    proof {
        if name_prefix {
            assert(l.subrange(0, nmark@.len() as int) =~= cs@.subrange(ls as int, ls + nmark@.len()));
        }
    }
    if name_prefix && le - ls >= nlen + 1 && cs[le - 1] == '"' {
        proof {
            assert(l[l.len() - 1] == cs@[le - 1]);
            assert(is_name_line(l));
            assert(name_of(l) =~= cs@.subrange(ls + nmark@.len(), le - 1));
        }
        name_out = chunk.substring_char(ls + nlen, le - 1).to_owned();
    } else {
        proof {
            if is_name_line(l) {
                assert(cs@.subrange(ls as int, ls + nmark@.len()) =~= l.subrange(
                    0,
                    nmark@.len() as int,
                ));
                assert(l[l.len() - 1] == cs@[le - 1]);
            }
        }
    }

    let handler_prefix = range_has_prefix(cs, ls, le, &hmark);
    proof {
        if handler_prefix {
            assert(l.subrange(0, hmark@.len() as int) =~= cs@.subrange(ls as int, ls + hmark@.len()));
            assert(is_handler_line(l));
        } else {
            if is_handler_line(l) {
                assert(cs@.subrange(ls as int, ls + hmark@.len()) =~= l.subrange(
                    0,
                    hmark@.len() as int,
                ));
            }
        }
    }
    if handler_prefix {
        let toks = split_ranges_in(cs, ls + hlen, le, ' ');
        let ghost tseq = split_char(l.subrange(hmark@.len() as int, l.len() as int), ' ');
        proof {
            assert(l.subrange(hmark@.len() as int, l.len() as int) =~= cs@.subrange(
                ls + hmark@.len(),
                le as int,
            ));
        }
        let tn = toks.len();
        let mut ti: usize = 0;
        let mut found = false;
        while ti < tn
            invariant_except_break
                !found,
            invariant
                ti <= tn,
                tn == tseq.len(),
                cs@ == chunk@,
                ls + hlen <= le <= cs@.len(),
                hlen == hmark@.len(),
                tseq == split_char(cs@.subrange(ls + hlen, le as int), ' '),
                toks@.len() == tseq.len(),
                forall|k: int|
                    0 <= k < toks@.len() ==> ls <= (#[trigger] toks@[k]).0 <= toks@[k].1 <= le
                        && tseq[k] == cs@.subrange(toks@[k].0 as int, toks@[k].1 as int),
                epat@ == event_pattern(),
                forall|k: int|
                    0 <= k < ti ==> !contains_seq(#[trigger] tseq[k], event_pattern()),
                found ==> first_event_token(tseq) == Some(handler_out@),
                !found ==> handler_out@ == handler_s@,
            ensures
                found ==> first_event_token(tseq) == Some(handler_out@),
                !found ==> handler_out@ == handler_s@,
                !found ==> forall|k: int|
                    0 <= k < tn ==> !contains_seq(#[trigger] tseq[k], event_pattern()),
            decreases tn - ti,
        {
            let (ta, tb) = (toks[ti].0, toks[ti].1);
            if range_contains(cs, ta, tb, &epat) {
                handler_out = chunk.substring_char(ta, tb).to_owned();
                found = true;
                proof {
                    lemma_first_event_token_skip(tseq, ti as int);
                    assert(tseq.skip(ti as int)[0] == tseq[ti as int]);
                }
                break ;
            }
            ti = ti + 1;
        }
        proof {
            if !found {
                lemma_first_event_token_skip(tseq, tn as int);
                assert(tseq.skip(tn as int) =~= Seq::<Seq<char>>::empty());
            }
            assert(handler_of(l) == first_event_token(tseq));
            assert(handler_out@ == (match handler_of(l) {
                Some(h) => h,
                None => handler_s@,
            }));
        }
    } else {
        proof {
            assert(handler_of(l) is None);
            assert(handler_out@ == handler_s@);
        }
    }
    (name_out, handler_out)
}

impl EvdevEvents {
    /// Read one device paragraph of the registry listing and record the
    /// entry it yields, if it names a readable input-event handler.
    pub fn parse_file_chunk(&mut self, file_chunk: String)
        ensures
            final(self)@ == spec_apply_chunk(old(self)@, file_chunk@),
    {
        let cs = str_chars(file_chunk.as_str());
        let n = cs.len();
        let lines = split_ranges_in(&cs, 0, n, '\n');
        let ghost lseq = split_char(file_chunk@, '\n');
        proof {
            assert(cs@.subrange(0, n as int) =~= file_chunk@);
        }
        let ln = lines.len();
        let mut li: usize = 0;
        let mut name_s = String::new();
        let mut handler_s = String::new();
        proof {
            assert(lseq.take(0) =~= Seq::<Seq<char>>::empty());
        }
        while li < ln
            invariant
                li <= ln,
                ln == lseq.len(),
                cs@ == file_chunk@,
                lseq == split_char(file_chunk@, '\n'),
                lines@.len() == lseq.len(),
                forall|k: int|
                    0 <= k < lines@.len() ==> (#[trigger] lines@[k]).0 <= lines@[k].1
                        <= cs@.len() && lseq[k] == cs@.subrange(
                        lines@[k].0 as int,
                        lines@[k].1 as int,
                    ),
                (name_s@, handler_s@) == scan_lines(lseq.take(li as int)),
            decreases ln - li,
        {
            let (ls, le) = (lines[li].0, lines[li].1);
            let stepped = scan_line_exec(file_chunk.as_str(), &cs, ls, le, name_s, handler_s);
            name_s = stepped.0;
            handler_s = stepped.1;
            li = li + 1;
            proof {
                assert(lseq.take(li as int).drop_last() =~= lseq.take(li - 1));
                assert(lseq.take(li as int).last() == lseq[li - 1]);
            }
        }
        proof {
            assert(lseq.take(ln as int) =~= lseq);
        }
        if !handler_s.as_str().is_empty() {
            self.insert(handler_s, name_s);
        }
    }
}

/// The catalog, the gathered (name, handler) pair of the paragraph being
/// read, and whether that paragraph had any line at all.
pub struct RegistryScan {
    pub catalog: Seq<(Seq<char>, Seq<char>)>,
    pub name: Seq<char>,
    pub handler: Seq<char>,
}

/// Close the current paragraph: record its entry if it selected a handler.
pub open spec fn commit_entry(st: RegistryScan) -> Seq<(Seq<char>, Seq<char>)> {
    if st.handler.len() > 0 {
        catalog_put(st.catalog, st.handler, st.name)
    } else {
        st.catalog
    }
}

/// One registry line's effect on the whole scan: a blank line closes the
/// current paragraph, any other line feeds the paragraph's (name, handler).
pub open spec fn registry_step(st: RegistryScan, l: Seq<char>) -> RegistryScan {
    if l.len() == 0 {
        RegistryScan {
            catalog: commit_entry(st),
            name: Seq::<char>::empty(),
            handler: Seq::<char>::empty(),
        }
    } else {
        RegistryScan {
            catalog: st.catalog,
            name: scan_line((st.name, st.handler), l).0,
            handler: scan_line((st.name, st.handler), l).1,
        }
    }
}

/// The scan state after reading all `lines` in order, starting empty.
pub open spec fn registry_scan(lines: Seq<Seq<char>>) -> RegistryScan
    decreases lines.len(),
{
    if lines.len() == 0 {
        RegistryScan {
            catalog: Seq::<(Seq<char>, Seq<char>)>::empty(),
            name: Seq::<char>::empty(),
            handler: Seq::<char>::empty(),
        }
    } else {
        registry_step(registry_scan(lines.drop_last()), lines.last())
    }
}

/// The device catalog a whole registry listing yields: paragraphs are
/// separated by blank lines, and each paragraph maps the first readable
/// handler it lists to the device name it states.
pub open spec fn spec_parse_events(content: Seq<char>) -> Seq<(Seq<char>, Seq<char>)> {
    commit_entry(registry_scan(split_char(content, '\n')))
}

impl EvdevEvents {
    /// Build the device catalog from the text of the device registry
    /// listing. Paragraphs without a readable handler are skipped.
    pub fn parse_events(contents: &str) -> (r: Self)
        ensures
            r@ == spec_parse_events(contents@),
    {
        let cs = str_chars(contents);
        let n = cs.len();
        let lines = split_ranges_in(&cs, 0, n, '\n');
        let ghost lseq = split_char(contents@, '\n');
        proof {
            assert(cs@.subrange(0, n as int) =~= contents@);
        }
        let ln = lines.len();
        let mut li: usize = 0;
        let mut catalog = EvdevEvents::new();
        let mut name_s = String::new();
        let mut handler_s = String::new();
        proof {
            assert(lseq.take(0) =~= Seq::<Seq<char>>::empty());
        }
        while li < ln
            invariant
                li <= ln,
                ln == lseq.len(),
                cs@ == contents@,
                lseq == split_char(contents@, '\n'),
                lines@.len() == lseq.len(),
                forall|k: int|
                    0 <= k < lines@.len() ==> (#[trigger] lines@[k]).0 <= lines@[k].1
                        <= cs@.len() && lseq[k] == cs@.subrange(
                        lines@[k].0 as int,
                        lines@[k].1 as int,
                    ),
                registry_scan(lseq.take(li as int)) == (RegistryScan {
                    catalog: catalog@,
                    name: name_s@,
                    handler: handler_s@,
                }),
            decreases ln - li,
        {
            let (ls, le) = (lines[li].0, lines[li].1);
            if le == ls {
                if !handler_s.as_str().is_empty() {
                    catalog.insert(handler_s, name_s);
                }
                name_s = String::new();
                handler_s = String::new();
            } else {
                let stepped = scan_line_exec(contents, &cs, ls, le, name_s, handler_s);
                name_s = stepped.0;
                handler_s = stepped.1;
            }
            li = li + 1;
            proof {
                assert(lseq.take(li as int).drop_last() =~= lseq.take(li - 1));
                assert(lseq.take(li as int).last() == lseq[li - 1]);
                assert(lseq[li - 1].len() == le - ls);
            }
        }
        proof {
            assert(lseq.take(ln as int) =~= lseq);
        }
        if !handler_s.as_str().is_empty() {
            catalog.insert(handler_s, name_s);
        }
        catalog
    }
}

/// The device file path of each catalogued handler: its name under the
/// input-device directory, in catalog order.
pub fn evdev_files(events: &EvdevEvents) -> (r: Vec<String>)
    ensures
        r@.len() == events@.len(),
        forall|k: int| 0 <= k < r@.len() ==> (#[trigger] r@[k])@ == "/dev/input/"@ + events@[k].0,
{
    let entries = events.iter();
    let n = entries.len();
    let mut r: Vec<String> = Vec::new();
    let mut i: usize = 0;
    while i < n
        invariant
            i <= n,
            n == entries@.len(),
            entries@.len() == events@.len(),
            forall|k: int|
                0 <= k < entries@.len() ==> ((#[trigger] entries@[k]).0@, entries@[k].1@)
                    == events@[k],
            r@.len() == i,
            forall|k: int|
                0 <= k < r@.len() ==> (#[trigger] r@[k])@ == "/dev/input/"@ + events@[k].0,
        decreases n - i,
    {
        let path = crate::text::concat_str("/dev/input/", entries[i].0.as_str());
        r.push(path);
        i = i + 1;
    }
    r
}

/// Law: re-encoding a decoded 24-byte record reproduces the bytes; the
/// in-memory form and the wire form carry exactly the same information.
pub proof fn lemma_input_reencode(b: Seq<u8>)
    requires
        b.len() == INPUT_EVENT_SIZE,
    ensures
        spec_input_decode(b) matches Some(ev) && spec_input_encode(ev) == b,
{
    lemma_auto_spec_u16_to_from_le_bytes();
    lemma_auto_spec_u32_to_from_le_bytes();
    lemma_auto_spec_u64_to_from_le_bytes();
    let ev = spec_input_decode(b)->Some_0;
    let sec = spec_u64_from_le_bytes(b.subrange(0, 8));
    let usec = spec_u64_from_le_bytes(b.subrange(8, 16));
    let val = spec_u32_from_le_bytes(b.subrange(20, 24));
    assert((sec as i64) as u64 == sec) by (bit_vector);
    assert((usec as i64) as u64 == usec) by (bit_vector);
    assert((val as i32) as u32 == val) by (bit_vector);
    assert(spec_input_encode(ev) =~= b);
}

} // verus!
