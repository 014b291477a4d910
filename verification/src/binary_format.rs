//! The binary wire format: a fixed header, a metadata section that declares
//! the sources, then one packed 26-byte record per event.
use vstd::prelude::*;

use crate::bytes::{push_all, le16, le64, u16_of_le, u64_of_le, lemma_u16_le_roundtrip, lemma_u64_le_roundtrip, push_u16_le, push_u64_le, read_u16_le, read_u64_le};
use crate::error::{Error, Fault, reports, parse_error, truncated_input};
use crate::utf8::{string_from_utf8, utf8_bytes};
use crate::text_num::{spec_hex2, parse_error_hex2, parse_error_hex4, parse_error_dec, parse_error_bytes};
use vstd::utf8::{valid_utf8, encode_utf8, decode_utf8, encode_utf8_valid_utf8, encode_utf8_decode_utf8};
use crate::event::{EventKind, AccessWidth, InfoKind, CounterKind, Event, Source, SourceModel, spec_pack_counter, spec_unpack_counter, pack_counter, unpack_counter, lemma_unpack_pack_counter};

verus! {

/// The number of bytes of one event record.
pub const RECORD_LEN: usize = 26;

/// The type-byte code of a memory access width.
pub open spec fn width_code(w: AccessWidth) -> u8 {
    match w {
        AccessWidth::W1 => 1,
        AccessWidth::W2 => 2,
        AccessWidth::W4 => 4,
        AccessWidth::W8 => 8,
    }
}

/// The type byte (without the timestamp flag) and the two value words that
/// carry an event kind.
pub open spec fn spec_payload(kind: EventKind) -> (u8, u64, u64) {
    match kind {
        EventKind::Sync { target } => (0x00, 0, target),
        EventKind::Interrupt { origin, target } => (0x13, origin, target),
        EventKind::Rfi { origin, target } => (0x15, origin, target),
        EventKind::BranchTaken { origin, target } => (0x11, origin, target),
        EventKind::BranchNotTaken { origin, target } => (0x12, origin, target),
        EventKind::Call { origin, target } => (0x16, origin, target),
        EventKind::Return { origin, target } => (0x17, origin, target),
        EventKind::MemReadUnknownData { addr } => (0x30, addr, 0),
        EventKind::MemRead { width, addr, value } => (
            (0x30 + width_code(width)) as u8,
            match addr {
                Some(a) => a,
                None => u64::MAX,
            },
            value,
        ),
        EventKind::MemWriteUnknownData { addr } => (0x20, addr, 0),
        EventKind::MemWrite { width, addr, value } => (
            (0x20 + width_code(width)) as u8,
            match addr {
                Some(a) => a,
                None => u64::MAX,
            },
            value,
        ),
        EventKind::Overflow => (0x5f, 0, 0),
        EventKind::Context { value } => (0x40, 0, value),
        EventKind::WallClock { value } => (0x41, 0, value),
        EventKind::Info { kind, value1, value2 } => (
            match kind {
                InfoKind::I1 => 0x70u8,
                InfoKind::I2 => 0x71u8,
                InfoKind::I3 => 0x72u8,
            },
            value1,
            value2,
        ),
        EventKind::Data { tag } => (0x60, 0, tag),
        EventKind::Counter { count, kind, region, tag } => (
            0x61,
            count,
            spec_pack_counter(kind, region, tag),
        ),
        EventKind::LastPC { prev_pc } => (0x62, 0, prev_pc),
    }
}

/// The type byte and value words of an event kind; the type byte has its top
/// bit set when the event carries a timestamp.
pub open spec fn spec_encode_event_payload(kind: EventKind, with_timestamp: bool) -> (u8, u64, u64) {
    let (base, v1, v2) = spec_payload(kind);
    (if with_timestamp { (base + 0x80) as u8 } else { base }, v1, v2)
}

/// The event kind that a type byte (timestamp flag removed) and two value
/// words stand for, or `None` for a type byte that names no kind.
pub open spec fn spec_decode_type_byte(base: u8, value1: u64, value2: u64) -> Option<EventKind> {
    if base == 0x00 {
        Some(EventKind::Sync { target: value2 })
    } else if base == 0x11 {
        Some(EventKind::BranchTaken { origin: value1, target: value2 })
    } else if base == 0x12 {
        Some(EventKind::BranchNotTaken { origin: value1, target: value2 })
    } else if base == 0x13 {
        Some(EventKind::Interrupt { origin: value1, target: value2 })
    } else if base == 0x15 {
        Some(EventKind::Rfi { origin: value1, target: value2 })
    } else if base == 0x16 {
        Some(EventKind::Call { origin: value1, target: value2 })
    } else if base == 0x17 {
        Some(EventKind::Return { origin: value1, target: value2 })
    } else if base == 0x20 {
        Some(EventKind::MemWriteUnknownData { addr: value1 })
    } else if base == 0x21 {
        Some(EventKind::MemWrite { width: AccessWidth::W1, addr: Some(value1), value: value2 })
    } else if base == 0x22 {
        Some(EventKind::MemWrite { width: AccessWidth::W2, addr: Some(value1), value: value2 })
    } else if base == 0x24 {
        Some(EventKind::MemWrite { width: AccessWidth::W4, addr: Some(value1), value: value2 })
    } else if base == 0x28 {
        Some(EventKind::MemWrite { width: AccessWidth::W8, addr: Some(value1), value: value2 })
    } else if base == 0x30 {
        Some(EventKind::MemReadUnknownData { addr: value1 })
    } else if base == 0x31 {
        Some(EventKind::MemRead { width: AccessWidth::W1, addr: Some(value1), value: value2 })
    } else if base == 0x32 {
        Some(EventKind::MemRead { width: AccessWidth::W2, addr: Some(value1), value: value2 })
    } else if base == 0x34 {
        Some(EventKind::MemRead { width: AccessWidth::W4, addr: Some(value1), value: value2 })
    } else if base == 0x38 {
        Some(EventKind::MemRead { width: AccessWidth::W8, addr: Some(value1), value: value2 })
    } else if base == 0x5f {
        Some(EventKind::Overflow)
    } else if base == 0x40 {
        Some(EventKind::Context { value: value2 })
    } else if base == 0x41 {
        Some(EventKind::WallClock { value: value2 })
    } else if base == 0x60 {
        Some(EventKind::Data { tag: value2 })
    } else if base == 0x61 {
        let (kind, region, tag) = spec_unpack_counter(value2);
        Some(EventKind::Counter { count: value1, kind, region, tag })
    } else if base == 0x62 {
        Some(EventKind::LastPC { prev_pc: value2 })
    } else if base == 0x70 {
        Some(EventKind::Info { kind: InfoKind::I1, value1, value2 })
    } else if base == 0x71 {
        Some(EventKind::Info { kind: InfoKind::I2, value1, value2 })
    } else if base == 0x72 {
        Some(EventKind::Info { kind: InfoKind::I3, value1, value2 })
    } else {
        None
    }
}

/// An event kind that the binary format carries without loss: memory
/// accesses with a known address, counters whose region fits in three bits.
pub open spec fn binary_faithful(kind: EventKind) -> bool {
    match kind {
        EventKind::MemRead { addr, .. } => addr is Some,
        EventKind::MemWrite { addr, .. } => addr is Some,
        EventKind::Counter { region, .. } => region < 8,
        _ => true,
    }
}

/// The type byte and value words that carry an event kind in a binary record.
pub fn encode_event_payload(kind: &EventKind, with_timestamp: bool) -> (r: (u8, u64, u64))
    ensures
        r == spec_encode_event_payload(*kind, with_timestamp),
        r.0 < 0x80 <==> !with_timestamp,
{
    let (base, v1, v2): (u8, u64, u64) = match kind {
        EventKind::Sync { target } => (0x00, 0, *target),
        EventKind::Interrupt { origin, target } => (0x13, *origin, *target),
        EventKind::Rfi { origin, target } => (0x15, *origin, *target),
        EventKind::BranchTaken { origin, target } => (0x11, *origin, *target),
        EventKind::BranchNotTaken { origin, target } => (0x12, *origin, *target),
        EventKind::Call { origin, target } => (0x16, *origin, *target),
        EventKind::Return { origin, target } => (0x17, *origin, *target),
        EventKind::MemReadUnknownData { addr } => (0x30, *addr, 0),
        EventKind::MemRead { width, addr, value } => (
            match width {
                AccessWidth::W1 => 0x31,
                AccessWidth::W2 => 0x32,
                AccessWidth::W4 => 0x34,
                AccessWidth::W8 => 0x38,
            },
            match addr {
                Some(a) => *a,
                None => u64::MAX,
            },
            *value,
        ),
        EventKind::MemWriteUnknownData { addr } => (0x20, *addr, 0),
        EventKind::MemWrite { width, addr, value } => (
            match width {
                AccessWidth::W1 => 0x21,
                AccessWidth::W2 => 0x22,
                AccessWidth::W4 => 0x24,
                AccessWidth::W8 => 0x28,
            },
            match addr {
                Some(a) => *a,
                None => u64::MAX,
            },
            *value,
        ),
        EventKind::Overflow => (0x5f, 0, 0),
        EventKind::Context { value } => (0x40, 0, *value),
        EventKind::WallClock { value } => (0x41, 0, *value),
        EventKind::Info { kind, value1, value2 } => (
            match kind {
                InfoKind::I1 => 0x70,
                InfoKind::I2 => 0x71,
                InfoKind::I3 => 0x72,
            },
            *value1,
            *value2,
        ),
        EventKind::Data { tag } => (0x60, 0, *tag),
        EventKind::Counter { count, kind, region, tag } => (
            0x61,
            *count,
            pack_counter(kind, *region, *tag),
        ),
        EventKind::LastPC { prev_pc } => (0x62, 0, *prev_pc),
    };
    assert(base < 0x80);
    let event_type = if with_timestamp {
        assert(base < 0x80 ==> (base | 0x80) == base + 0x80) by (bit_vector);
        base | 0x80
    } else {
        base
    };
    (event_type, v1, v2)
}

/// The event kind that a type byte (timestamp flag removed) and two value
/// words stand for; a type byte that names no kind is a parse error.
pub fn decode_type_byte(base: u8, value1: u64, value2: u64) -> (r: Result<EventKind, Error>)
    ensures
        match spec_decode_type_byte(base, value1, value2) {
            Some(k) => r == Ok::<EventKind, Error>(k),
            None => r matches Err(Error::Parse(m)) && m@ == "unknown event type byte: "@ + spec_hex2(
                base,
            ),
        },
{
    match base {
        0x00 => Ok(EventKind::Sync { target: value2 }),
        0x11 => Ok(EventKind::BranchTaken { origin: value1, target: value2 }),
        0x12 => Ok(EventKind::BranchNotTaken { origin: value1, target: value2 }),
        0x13 => Ok(EventKind::Interrupt { origin: value1, target: value2 }),
        0x15 => Ok(EventKind::Rfi { origin: value1, target: value2 }),
        0x16 => Ok(EventKind::Call { origin: value1, target: value2 }),
        0x17 => Ok(EventKind::Return { origin: value1, target: value2 }),
        0x20 => Ok(EventKind::MemWriteUnknownData { addr: value1 }),
        0x21 => Ok(EventKind::MemWrite { width: AccessWidth::W1, addr: Some(value1), value: value2 }),
        0x22 => Ok(EventKind::MemWrite { width: AccessWidth::W2, addr: Some(value1), value: value2 }),
        0x24 => Ok(EventKind::MemWrite { width: AccessWidth::W4, addr: Some(value1), value: value2 }),
        0x28 => Ok(EventKind::MemWrite { width: AccessWidth::W8, addr: Some(value1), value: value2 }),
        0x30 => Ok(EventKind::MemReadUnknownData { addr: value1 }),
        0x31 => Ok(EventKind::MemRead { width: AccessWidth::W1, addr: Some(value1), value: value2 }),
        0x32 => Ok(EventKind::MemRead { width: AccessWidth::W2, addr: Some(value1), value: value2 }),
        0x34 => Ok(EventKind::MemRead { width: AccessWidth::W4, addr: Some(value1), value: value2 }),
        0x38 => Ok(EventKind::MemRead { width: AccessWidth::W8, addr: Some(value1), value: value2 }),
        0x5f => Ok(EventKind::Overflow),
        0x40 => Ok(EventKind::Context { value: value2 }),
        0x41 => Ok(EventKind::WallClock { value: value2 }),
        0x60 => Ok(EventKind::Data { tag: value2 }),
        0x61 => {
            let (kind, region, tag) = unpack_counter(value2)?;
            Ok(EventKind::Counter { count: value1, kind, region, tag })
        },
        0x62 => Ok(EventKind::LastPC { prev_pc: value2 }),
        0x70 => Ok(EventKind::Info { kind: InfoKind::I1, value1, value2 }),
        0x71 => Ok(EventKind::Info { kind: InfoKind::I2, value1, value2 }),
        0x72 => Ok(EventKind::Info { kind: InfoKind::I3, value1, value2 }),
        _ => Err(parse_error_hex2("unknown event type byte: ", base)),
    }
}

/// Decoding the type byte and value words of a faithfully carried event kind
/// gives the kind back.
pub proof fn lemma_payload_roundtrip(kind: EventKind)
    requires
        binary_faithful(kind),
    ensures
        ({
            let (base, v1, v2) = spec_payload(kind);
            base < 0x80 && spec_decode_type_byte(base, v1, v2) == Some(kind)
        }),
{
    match kind {
        EventKind::Counter { count, kind: ck, region, tag } => {
            lemma_unpack_pack_counter(ck, region, tag);
        },
        EventKind::MemRead { width, addr, value } => {},
        EventKind::MemWrite { width, addr, value } => {},
        EventKind::Info { kind: ik, value1, value2 } => {},
        _ => {},
    }
}

} // verus!

verus! {

/// The 26 bytes of an event record: source id, type byte, the two value
/// words and the cycle word (zero when there is no timestamp), words little-endian.
pub open spec fn spec_record(e: Event) -> Seq<u8> {
    let (t, v1, v2) = spec_encode_event_payload(e.kind, e.cycle is Some);
    seq![e.source_id, t] + le64(v1) + le64(v2) + le64(
        match e.cycle {
            Some(c) => c,
            None => 0,
        },
    )
}

/// The event that a 26-byte record stands for, or `None` when its type byte
/// names no event kind.
pub open spec fn spec_decode_record(r: Seq<u8>) -> Option<Event>
    recommends
        r.len() == 26,
{
    let t = r[1];
    let v1 = u64_of_le(r.subrange(2, 10));
    let v2 = u64_of_le(r.subrange(10, 18));
    let c = u64_of_le(r.subrange(18, 26));
    match spec_decode_type_byte((t % 0x80) as u8, v1, v2) {
        Some(kind) => Some(
            Event { source_id: r[0], kind, cycle: if t >= 0x80 { Some(c) } else { None } },
        ),
        None => None,
    }
}

/// Appends the record of an event.
pub fn encode_record(event: &Event, out: &mut Vec<u8>)
    ensures
        final(out)@ == old(out)@ + spec_record(*event),
{
    let (type_byte, v1, v2) = encode_event_payload(&event.kind, event.cycle.is_some());
    let cycle_word: u64 = match event.cycle {
        Some(c) => c,
        None => 0,
    };
    out.push(event.source_id);
    out.push(type_byte);
    push_u64_le(out, v1);
    push_u64_le(out, v2);
    push_u64_le(out, cycle_word);
    assert(final(out)@ =~= old(out)@ + spec_record(*event));
}

/// Decodes one 26-byte record; a type byte that names no event kind is a
/// parse error.
pub fn decode_record(record: &[u8]) -> (r: Result<Event, Error>)
    requires
        record@.len() == 26,
    ensures
        match spec_decode_record(record@) {
            Some(e) => r == Ok::<Event, Error>(e),
            None => r matches Err(e) && e is Parse,
        },
{
    let source_id = record[0];
    let type_byte = record[1];
    let value1 = read_u64_le(record, 2);
    let value2 = read_u64_le(record, 10);
    let cycle_raw = read_u64_le(record, 18);
    let has_cycle = (type_byte & 0x80) != 0;
    let base_type = type_byte & 0x7F;
    assert((type_byte & 0x80) != 0 <==> type_byte >= 0x80) by (bit_vector);
    assert((type_byte & 0x7F) == type_byte % 0x80) by (bit_vector);
    let cycle = if has_cycle {
        Some(cycle_raw)
    } else {
        None
    };
    let kind = decode_type_byte(base_type, value1, value2)?;
    Ok(Event { source_id, kind, cycle })
}

/// Decoding the record of an event whose kind the binary format carries
/// faithfully gives the event back.
pub proof fn lemma_record_roundtrip(e: Event)
    requires
        binary_faithful(e.kind),
    ensures
        spec_record(e).len() == 26,
        spec_decode_record(spec_record(e)) == Some(e),
{
    let (base, v1, v2) = spec_payload(e.kind);
    let c: u64 = match e.cycle {
        Some(c) => c,
        None => 0,
    };
    lemma_payload_roundtrip(e.kind);
    lemma_u64_le_roundtrip(v1);
    lemma_u64_le_roundtrip(v2);
    lemma_u64_le_roundtrip(c);
    let r = spec_record(e);
    let (t, w1, w2) = spec_encode_event_payload(e.kind, e.cycle is Some);
    assert(r.subrange(2, 10) =~= le64(v1));
    assert(r.subrange(10, 18) =~= le64(v2));
    assert(r.subrange(18, 26) =~= le64(c));
    assert(r[1] == t);
    assert((t % 0x80) as u8 == base);
}

/// The eight header bytes: the magic "CTXP", header size 8, version 1.
pub open spec fn spec_header() -> Seq<u8> {
    seq![0x43u8, 0x54u8, 0x58u8, 0x50u8] + le16(8) + le16(1)
}

/// The outcome of reading the header from the start of the input: the magic
/// is checked once four bytes are read, then the header size and version.
pub open spec fn spec_read_header(h: Seq<u8>) -> Result<(), Fault> {
    if h.len() < 4 {
        Err(Fault::Truncated)
    } else if h.subrange(0, 4) != seq![0x43u8, 0x54u8, 0x58u8, 0x50u8] {
        Err(Fault::Malformed)
    } else if h.len() < 8 {
        Err(Fault::Truncated)
    } else if u16_of_le(h.subrange(6, 8)) != 1 || u16_of_le(h.subrange(4, 6)) != 8 {
        Err(Fault::Malformed)
    } else {
        Ok(())
    }
}

/// Appends the header.
pub fn write_header(out: &mut Vec<u8>)
    ensures
        final(out)@ == old(out)@ + spec_header(),
{
    out.push(0x43);
    out.push(0x54);
    out.push(0x58);
    out.push(0x50);
    push_u16_le(out, 8);
    push_u16_le(out, 1);
    assert(final(out)@ =~= old(out)@ + spec_header());
}

/// Checks the header at the start of `input` (which may be shorter than a
/// header); on success the header is the first eight bytes.
pub fn read_header(input: &[u8]) -> (r: Result<(), Error>)
    ensures
        match spec_read_header(input@) {
            Ok(()) => r is Ok,
            Err(f) => r matches Err(e) && reports(e, f),
        },
{
    if input.len() < 4 {
        return Err(truncated_input());
    }
    if !(input[0] == 0x43 && input[1] == 0x54 && input[2] == 0x58 && input[3] == 0x50) {
        assert(input@.subrange(0, 4) != seq![0x43u8, 0x54u8, 0x58u8, 0x50u8]) by {
            if input@.subrange(0, 4) == seq![0x43u8, 0x54u8, 0x58u8, 0x50u8] {
                assert(input@.subrange(0, 4)[0] == input@[0]);
                assert(input@.subrange(0, 4)[1] == input@[1]);
                assert(input@.subrange(0, 4)[2] == input@[2]);
                assert(input@.subrange(0, 4)[3] == input@[3]);
            }
        }
        return Err(parse_error_bytes("invalid magic: ", &input[0..4]));
    }
    assert(input@.subrange(0, 4) =~= seq![0x43u8, 0x54u8, 0x58u8, 0x50u8]);
    if input.len() < 8 {
        return Err(truncated_input());
    }
    let header_size = read_u16_le(input, 4);
    let version = read_u16_le(input, 6);
    if version != 1 {
        return Err(parse_error_dec("unsupported version: ", version as u64));
    }
    if header_size != 8 {
        return Err(parse_error_dec("unexpected header size: ", header_size as u64));
    }
    Ok(())
}

/// The header is read back without fault.
pub proof fn lemma_header_roundtrip(rest: Seq<u8>)
    ensures
        spec_header().len() == 8,
        spec_read_header(spec_header() + rest) == Ok::<(), Fault>(()),
{
    lemma_u16_le_roundtrip(8);
    lemma_u16_le_roundtrip(1);
    let h = spec_header() + rest;
    assert(h.subrange(0, 4) =~= seq![0x43u8, 0x54u8, 0x58u8, 0x50u8]);
    assert(h.subrange(4, 6) =~= le16(8));
    assert(h.subrange(6, 8) =~= le16(1));
}

} // verus!

verus! {

/// The metadata entry of a source: its id, the length of its name in bytes
/// (reduced to one byte), and the UTF-8 bytes of its name.
pub open spec fn spec_meta_entry(s: SourceModel) -> Seq<u8> {
    seq![s.id, (encode_utf8(s.name).len() % 256) as u8] + encode_utf8(s.name)
}

/// The metadata payload: the entries of the sources, in order.
pub open spec fn spec_meta_payload(ss: Seq<SourceModel>) -> Seq<u8> {
    ss.map_values(|s: SourceModel| spec_meta_entry(s)).flatten()
}

/// The metadata section: section type 1, the section length (four plus the
/// payload length, reduced to 16 bits), then the payload.
pub open spec fn spec_meta_section(ss: Seq<SourceModel>) -> Seq<u8> {
    let p = spec_meta_payload(ss);
    le16(1) + le16(((p.len() + 4) % 0x10000) as u16) + p
}

/// Everything a binary stream holds before its first record.
pub open spec fn spec_binary_preamble(ss: Seq<SourceModel>) -> Seq<u8> {
    spec_header() + spec_meta_section(ss)
}

/// Sources whose metadata section can be written without loss: every name
/// fits in 255 bytes and the section length fits in 16 bits.
pub open spec fn meta_encodable(ss: Seq<SourceModel>) -> bool {
    &&& forall|i: int| 0 <= i < ss.len() ==> encode_utf8(#[trigger] ss[i].name).len() <= 255
    &&& spec_meta_payload(ss).len() + 4 <= 0xffff
}

/// The sources that a metadata payload declares, read entry by entry.
pub open spec fn spec_meta_entries(p: Seq<u8>) -> Result<Seq<SourceModel>, Fault>
    decreases p.len(),
{
    if p.len() < 2 {
        Ok(seq![])
    } else {
        let n = p[1] as int;
        if 2 + n > p.len() {
            Err(Fault::Malformed)
        } else if !valid_utf8(p.subrange(2, 2 + n)) {
            Err(Fault::Malformed)
        } else {
            match spec_meta_entries(p.skip(2 + n)) {
                Ok(rest) => Ok(
                    seq![SourceModel { id: p[0], name: decode_utf8(p.subrange(2, 2 + n)) }] + rest,
                ),
                Err(f) => Err(f),
            }
        }
    }
}

/// Reading the payload entry by entry reaches an entry that holds only an id
/// byte, where no name length can be read.
pub open spec fn meta_entries_panic(p: Seq<u8>) -> bool
    decreases p.len(),
{
    if p.len() == 0 {
        false
    } else if p.len() == 1 {
        true
    } else {
        let n = p[1] as int;
        if 2 + n > p.len() || !valid_utf8(p.subrange(2, 2 + n)) {
            false
        } else {
            meta_entries_panic(p.skip(2 + n))
        }
    }
}

/// The outcome of reading the section type and length at the start of the
/// input: the payload length.
pub open spec fn spec_read_section(s: Seq<u8>) -> Result<nat, Fault> {
    if s.len() < 4 {
        Err(Fault::Truncated)
    } else if u16_of_le(s.subrange(0, 2)) != 1 {
        Err(Fault::Malformed)
    } else if u16_of_le(s.subrange(2, 4)) < 4 {
        Err(Fault::Malformed)
    } else {
        Ok((u16_of_le(s.subrange(2, 4)) - 4) as nat)
    }
}

/// The outcome of reading the header and the metadata section from the start
/// of a binary stream: the declared sources and the number of bytes read.
pub open spec fn spec_open_binary(d: Seq<u8>) -> Result<(Seq<SourceModel>, nat), Fault> {
    match spec_read_header(d) {
        Err(f) => Err(f),
        Ok(()) => match spec_read_section(d.skip(8)) {
            Err(f) => Err(f),
            Ok(n) => if d.len() < 12 + n {
                Err(Fault::Truncated)
            } else {
                match spec_meta_entries(d.subrange(12, 12 + n as int)) {
                    Err(f) => Err(f),
                    Ok(ss) => Ok((ss, 12 + n)),
                }
            },
        },
    }
}

/// Reading the preamble of the stream reaches a metadata entry that holds
/// only an id byte.
pub open spec fn open_binary_panics(d: Seq<u8>) -> bool {
    match spec_read_header(d) {
        Err(_) => false,
        Ok(()) => match spec_read_section(d.skip(8)) {
            Err(_) => false,
            Ok(n) => d.len() >= 12 + n && meta_entries_panic(d.subrange(12, 12 + n as int)),
        },
    }
}

/// Appends the metadata section that declares `sources`. Name lengths and
/// the section length are written reduced to one byte and to 16 bits.
pub fn write_metadata(sources: &[Source], out: &mut Vec<u8>)
    ensures
        final(out)@ == old(out)@ + spec_meta_section(sources.deep_view()),
{
    let ghost ss = sources.deep_view();
    let mut payload: Vec<u8> = Vec::new();
    for i in 0..sources.len()
        invariant
            ss == sources.deep_view(),
            payload@ == spec_meta_payload(ss.take(i as int)),
    {
        let name = utf8_bytes(&sources[i].name);
        payload.push(sources[i].id);
        payload.push((name.len() % 256) as u8);
        push_all(&mut payload, name);
        proof {
            let f = |s: SourceModel| spec_meta_entry(s);
            assert(ss.take(i + 1).map_values(f) =~= ss.take(i as int).map_values(f).push(
                spec_meta_entry(ss[i as int]),
            ));
            ss.take(i as int).map_values(f).lemma_flatten_push(spec_meta_entry(ss[i as int]));
            assert(payload@ =~= spec_meta_payload(ss.take(i as int)) + spec_meta_entry(
                ss[i as int],
            ));
        }
    }
    assert(ss.take(sources.len() as int) =~= ss);
    let section_len = ((payload.len() % 0x10000 + 4) % 0x10000) as u16;
    assert(section_len == ((payload@.len() + 4) % 0x10000) as u16);
    push_u16_le(out, 1);
    push_u16_le(out, section_len);
    push_all(out, payload.as_slice());
    assert(final(out)@ =~= old(out)@ + spec_meta_section(ss));
}

/// Reads the section type and length at the start of `input` and returns the
/// payload length.
pub fn read_section_header(input: &[u8]) -> (r: Result<usize, Error>)
    ensures
        match spec_read_section(input@) {
            Ok(n) => r == Ok::<usize, Error>(n as usize),
            Err(f) => r matches Err(e) && reports(e, f),
        },
{
    if input.len() < 4 {
        return Err(truncated_input());
    }
    let section_type = read_u16_le(input, 0);
    let section_length = read_u16_le(input, 2);
    if section_type != 0x0001 {
        return Err(parse_error_hex4("expected metadata section (0x0001), got ", section_type));
    }
    if section_length < 4 {
        return Err(parse_error("metadata section length too small"));
    }
    Ok((section_length - 4) as usize)
}

/// Whether reading `payload` entry by entry reaches an entry that holds only
/// an id byte, where no name length can be read.
pub fn metadata_payload_panics(payload: &[u8]) -> (r: bool)
    ensures
        r == meta_entries_panic(payload@),
{
    let mut i: usize = 0;
    let len = payload.len();
    assert(payload@.skip(0) =~= payload@);
    while i < len
        invariant
            i <= len == payload@.len(),
            meta_entries_panic(payload@) == meta_entries_panic(payload@.skip(i as int)),
        decreases len - i,
    {
        let ghost p = payload@.skip(i as int);
        if i + 1 == len {
            return true;
        }
        let name_len = payload[i + 1] as usize;
        if name_len > len - i - 2 {
            return false;
        }
        assert(p.subrange(2, 2 + name_len as int) =~= payload@.subrange(i + 2, i + 2 + name_len));
        if string_from_utf8(&payload[i + 2..i + 2 + name_len]).is_none() {
            return false;
        }
        assert(p.skip(2 + name_len as int) =~= payload@.skip(i + 2 + name_len));
        i = i + 2 + name_len;
    }
    false
}

/// Appends the prefix `acc` to the sources of a successful read.
pub open spec fn prepend_sources(acc: Seq<SourceModel>, r: Result<Seq<SourceModel>, Fault>) -> Result<
    Seq<SourceModel>,
    Fault,
> {
    match r {
        Ok(rest) => Ok(acc + rest),
        Err(f) => Err(f),
    }
}

/// Reads the sources declared by a metadata payload. A name that runs past
/// the payload or is not valid UTF-8 is a parse error.
pub fn decode_metadata_payload(payload: &[u8]) -> (r: Result<Vec<Source>, Error>)
    requires
        !meta_entries_panic(payload@),
    ensures
        match spec_meta_entries(payload@) {
            Ok(ss) => r matches Ok(v) && v.deep_view() == ss,
            Err(f) => r matches Err(e) && reports(e, f),
        },
{
    let mut sources: Vec<Source> = Vec::new();
    let mut i: usize = 0;
    let len = payload.len();
    assert(payload@.skip(0) =~= payload@);
    assert(sources.deep_view() =~= Seq::<SourceModel>::empty());
    while i < len
        invariant
            i <= len == payload@.len(),
            !meta_entries_panic(payload@.skip(i as int)),
            spec_meta_entries(payload@) == prepend_sources(
                sources.deep_view(),
                spec_meta_entries(payload@.skip(i as int)),
            ),
        decreases len - i,
    {
        let ghost p = payload@.skip(i as int);
        let source_id = payload[i];
        let name_len = payload[i + 1] as usize;
        if name_len > len - i - 2 {
            return Err(parse_error("metadata name out of bounds"));
        }
        assert(p.subrange(2, 2 + name_len as int) =~= payload@.subrange(i + 2, i + 2 + name_len));
        let name = match string_from_utf8(&payload[i + 2..i + 2 + name_len]) {
            Some(s) => s,
            None => {
                return Err(parse_error("source name is not valid UTF-8"));
            },
        };
        assert(p.skip(2 + name_len as int) =~= payload@.skip(i + 2 + name_len));
        let ghost before = sources.deep_view();
        sources.push(Source { id: source_id, name });
        assert(sources.deep_view() =~= before + seq![
            SourceModel { id: source_id, name: decode_utf8(p.subrange(2, 2 + name_len as int)) },
        ]);
        assert((before + seq![
            SourceModel { id: source_id, name: decode_utf8(p.subrange(2, 2 + name_len as int)) },
        ]) + spec_meta_entries(p.skip(2 + name_len as int)).unwrap() =~= before + (seq![
            SourceModel { id: source_id, name: decode_utf8(p.subrange(2, 2 + name_len as int)) },
        ] + spec_meta_entries(p.skip(2 + name_len as int)).unwrap()));
        i = i + 2 + name_len;
    }
    assert(payload@.skip(len as int).len() == 0);
    assert(sources.deep_view() + Seq::<SourceModel>::empty() =~= sources.deep_view());
    Ok(sources)
}

} // verus!

verus! {

/// Reading back the metadata payload of sources whose names fit in 255 bytes
/// gives back the sources, and never reaches an entry without a name length.
pub proof fn lemma_meta_payload_roundtrip(ss: Seq<SourceModel>)
    requires
        forall|i: int| 0 <= i < ss.len() ==> encode_utf8(#[trigger] ss[i].name).len() <= 255,
    ensures
        spec_meta_entries(spec_meta_payload(ss)) == Ok::<Seq<SourceModel>, Fault>(ss),
        !meta_entries_panic(spec_meta_payload(ss)),
    decreases ss.len(),
{
    let f = |s: SourceModel| spec_meta_entry(s);
    if ss.len() == 0 {
        assert(ss.map_values(f) =~= Seq::<Seq<u8>>::empty());
        assert(spec_meta_payload(ss) =~= Seq::<u8>::empty());
        assert(ss =~= seq![]);
    } else {
        let rest = ss.drop_first();
        assert forall|i: int| 0 <= i < rest.len() implies encode_utf8(#[trigger] rest[i].name).len()
            <= 255 by {
            assert(rest[i] == ss[i + 1]);
        }
        lemma_meta_payload_roundtrip(rest);
        let m = ss.map_values(f);
        assert(m.drop_first() =~= rest.map_values(f));
        let p = spec_meta_payload(ss);
        let e = spec_meta_entry(ss[0]);
        assert(p == m.first() + m.drop_first().flatten());
        assert(p =~= e + spec_meta_payload(rest));
        let nb = encode_utf8(ss[0].name);
        let n = nb.len() as int;
        assert(encode_utf8(ss[0].name).len() <= 255);
        assert(p[1] as int == n);
        assert(p.subrange(2, 2 + n) =~= nb);
        encode_utf8_valid_utf8(ss[0].name);
        encode_utf8_decode_utf8(ss[0].name);
        assert(p.skip(2 + n) =~= spec_meta_payload(rest));
        assert(seq![SourceModel { id: ss[0].id, name: ss[0].name }] + rest =~= ss);
    }
}

/// The preamble of sources whose metadata section can be written without
/// loss reads back as those sources, whatever follows it.
pub proof fn lemma_preamble_roundtrip(ss: Seq<SourceModel>, rest: Seq<u8>)
    requires
        meta_encodable(ss),
    ensures
        spec_open_binary(spec_binary_preamble(ss) + rest) == Ok::<(Seq<SourceModel>, nat), Fault>(
            (ss, spec_binary_preamble(ss).len()),
        ),
        !open_binary_panics(spec_binary_preamble(ss) + rest),
{
    let p = spec_meta_payload(ss);
    lemma_meta_payload_roundtrip(ss);
    let d = spec_binary_preamble(ss) + rest;
    assert(d =~= spec_header() + (spec_meta_section(ss) + rest));
    lemma_header_roundtrip(spec_meta_section(ss) + rest);
    let l = ((p.len() + 4) % 0x10000) as u16;
    assert(l == p.len() + 4);
    lemma_u16_le_roundtrip(1);
    lemma_u16_le_roundtrip(l);
    let s = d.skip(8);
    assert(s =~= spec_meta_section(ss) + rest);
    assert(s.subrange(0, 2) =~= le16(1));
    assert(s.subrange(2, 4) =~= le16(l));
    assert(spec_read_section(s) == Ok::<nat, Fault>(p.len()));
    assert(d.subrange(12, 12 + p.len() as int) =~= p);
}

} // verus!

verus! {

/// One step of reading events from the rest of a binary stream, with the
/// number of bytes it consumes: nothing at the end of the input; a truncation
/// fault that consumes the rest when a record is cut short; otherwise the
/// next record, whose type byte may name no event kind.
pub open spec fn spec_next_binary(rem: Seq<u8>) -> Option<(Result<Event, Fault>, nat)> {
    if rem.len() == 0 {
        None
    } else if rem.len() < 26 {
        Some((Err(Fault::Truncated), rem.len()))
    } else {
        Some(
            (
                match spec_decode_record(rem.subrange(0, 26)) {
                    Some(e) => Ok(e),
                    None => Err(Fault::Malformed),
                },
                26,
            ),
        )
    }
}

/// Everything that reading events from the rest of a binary stream yields,
/// until the end of the input.
pub open spec fn spec_binary_events(rem: Seq<u8>) -> Seq<Result<Event, Fault>>
    decreases rem.len(),
{
    if rem.len() == 0 {
        seq![]
    } else if rem.len() < 26 {
        seq![Err(Fault::Truncated)]
    } else {
        seq![
            match spec_decode_record(rem.subrange(0, 26)) {
                Some(e) => Ok(e),
                None => Err(Fault::Malformed),
            },
        ] + spec_binary_events(rem.skip(26))
    }
}

/// The records of a sequence of events, in order.
pub open spec fn spec_records(es: Seq<Event>) -> Seq<u8> {
    es.map_values(|e: Event| spec_record(e)).flatten()
}

/// A whole binary stream: the preamble that declares the sources, then the
/// records of the events.
pub open spec fn spec_binary_stream(ss: Seq<SourceModel>, es: Seq<Event>) -> Seq<u8> {
    spec_binary_preamble(ss) + spec_records(es)
}

/// The successful reads of a sequence of events.
pub open spec fn all_ok(es: Seq<Event>) -> Seq<Result<Event, Fault>> {
    es.map_values(|e: Event| Ok::<Event, Fault>(e))
}

/// Reading events back from the records of events whose kinds the binary
/// format carries faithfully gives back exactly those events.
pub proof fn lemma_records_roundtrip(es: Seq<Event>)
    requires
        forall|i: int| 0 <= i < es.len() ==> binary_faithful(#[trigger] es[i].kind),
    ensures
        spec_binary_events(spec_records(es)) == all_ok(es),
    decreases es.len(),
{
    let f = |e: Event| spec_record(e);
    if es.len() == 0 {
        assert(es.map_values(f) =~= Seq::<Seq<u8>>::empty());
        assert(spec_records(es) =~= Seq::<u8>::empty());
        assert(all_ok(es) =~= seq![]);
    } else {
        let rest = es.drop_first();
        assert forall|i: int| 0 <= i < rest.len() implies binary_faithful(#[trigger] rest[i].kind) by {
            assert(rest[i] == es[i + 1]);
        }
        lemma_records_roundtrip(rest);
        lemma_record_roundtrip(es[0]);
        let m = es.map_values(f);
        assert(m.drop_first() =~= rest.map_values(f));
        let r = spec_records(es);
        assert(r == m.first() + m.drop_first().flatten());
        assert(r =~= spec_record(es[0]) + spec_records(rest));
        assert(r.subrange(0, 26) =~= spec_record(es[0]));
        assert(r.skip(26) =~= spec_records(rest));
        assert(all_ok(es) =~= seq![Ok::<Event, Fault>(es[0])] + all_ok(rest));
    }
}

/// A binary stream written for sources whose metadata can be written without
/// loss and for faithfully carried events reads back as those sources,
/// followed by exactly those events.
pub proof fn lemma_binary_stream_roundtrip(ss: Seq<SourceModel>, es: Seq<Event>)
    requires
        meta_encodable(ss),
        forall|i: int| 0 <= i < es.len() ==> binary_faithful(#[trigger] es[i].kind),
    ensures
        !open_binary_panics(spec_binary_stream(ss, es)),
        spec_open_binary(spec_binary_stream(ss, es)) == Ok::<(Seq<SourceModel>, nat), Fault>(
            (ss, spec_binary_preamble(ss).len()),
        ),
        spec_binary_events(spec_binary_stream(ss, es).skip(spec_binary_preamble(ss).len() as int))
            == all_ok(es),
{
    lemma_preamble_roundtrip(ss, spec_records(es));
    lemma_records_roundtrip(es);
    assert(spec_binary_stream(ss, es).skip(spec_binary_preamble(ss).len() as int) =~= spec_records(
        es,
    ));
}

} // verus!

verus! {

/// The CTXP code table, as the binary encoder writes it: the type byte of
/// each event kind (without a timestamp) and the two value words that carry
/// its fields. Control flow: sync 0x00, branch taken 0x11, branch not taken
/// 0x12, interrupt 0x13, return from interrupt 0x15, call 0x16, return 0x17
/// (origin, target). Memory writes 0x2w and reads 0x3w, where the low nibble
/// w is the access width in bytes (1, 2, 4, 8) or 0 when the data is unknown
/// (address, value). Context 0x40, wall clock 0x41, overflow 0x5f, data 0x60,
/// counter 0x61, last program counter 0x62, info 0x70 to 0x72 for indices 1
/// to 3.
pub proof fn lemma_encoded_type_codes(a: u64, b: u64)
    ensures
        spec_encode_event_payload(EventKind::Sync { target: b }, false) == (0x00u8, 0u64, b),
        spec_encode_event_payload(EventKind::BranchTaken { origin: a, target: b }, false) == (
            0x11u8,
            a,
            b,
        ),
        spec_encode_event_payload(EventKind::BranchNotTaken { origin: a, target: b }, false) == (
            0x12u8,
            a,
            b,
        ),
        spec_encode_event_payload(EventKind::Interrupt { origin: a, target: b }, false) == (
            0x13u8,
            a,
            b,
        ),
        spec_encode_event_payload(EventKind::Rfi { origin: a, target: b }, false) == (0x15u8, a, b),
        spec_encode_event_payload(EventKind::Call { origin: a, target: b }, false) == (0x16u8, a, b),
        spec_encode_event_payload(EventKind::Return { origin: a, target: b }, false) == (
            0x17u8,
            a,
            b,
        ),
        spec_encode_event_payload(EventKind::MemWriteUnknownData { addr: a }, false) == (
            0x20u8,
            a,
            0u64,
        ),
        spec_encode_event_payload(
            EventKind::MemWrite { width: AccessWidth::W1, addr: Some(a), value: b },
            false,
        ) == (0x21u8, a, b),
        spec_encode_event_payload(
            EventKind::MemWrite { width: AccessWidth::W2, addr: Some(a), value: b },
            false,
        ) == (0x22u8, a, b),
        spec_encode_event_payload(
            EventKind::MemWrite { width: AccessWidth::W4, addr: Some(a), value: b },
            false,
        ) == (0x24u8, a, b),
        spec_encode_event_payload(
            EventKind::MemWrite { width: AccessWidth::W8, addr: Some(a), value: b },
            false,
        ) == (0x28u8, a, b),
        spec_encode_event_payload(EventKind::MemReadUnknownData { addr: a }, false) == (
            0x30u8,
            a,
            0u64,
        ),
        spec_encode_event_payload(
            EventKind::MemRead { width: AccessWidth::W1, addr: Some(a), value: b },
            false,
        ) == (0x31u8, a, b),
        spec_encode_event_payload(
            EventKind::MemRead { width: AccessWidth::W2, addr: Some(a), value: b },
            false,
        ) == (0x32u8, a, b),
        spec_encode_event_payload(
            EventKind::MemRead { width: AccessWidth::W4, addr: Some(a), value: b },
            false,
        ) == (0x34u8, a, b),
        spec_encode_event_payload(
            EventKind::MemRead { width: AccessWidth::W8, addr: Some(a), value: b },
            false,
        ) == (0x38u8, a, b),
        spec_encode_event_payload(EventKind::Context { value: b }, false) == (0x40u8, 0u64, b),
        spec_encode_event_payload(EventKind::WallClock { value: b }, false) == (0x41u8, 0u64, b),
        spec_encode_event_payload(EventKind::Overflow, false) == (0x5fu8, 0u64, 0u64),
        spec_encode_event_payload(EventKind::Data { tag: b }, false) == (0x60u8, 0u64, b),
        spec_encode_event_payload(EventKind::LastPC { prev_pc: b }, false) == (0x62u8, 0u64, b),
        spec_encode_event_payload(
            EventKind::Info { kind: InfoKind::I1, value1: a, value2: b },
            false,
        ) == (0x70u8, a, b),
        spec_encode_event_payload(
            EventKind::Info { kind: InfoKind::I2, value1: a, value2: b },
            false,
        ) == (0x71u8, a, b),
        spec_encode_event_payload(
            EventKind::Info { kind: InfoKind::I3, value1: a, value2: b },
            false,
        ) == (0x72u8, a, b),
        forall|kind: CounterKind, region: u8, tag: u16|
            #![trigger spec_pack_counter(kind, region, tag)]
            spec_encode_event_payload(EventKind::Counter { count: a, kind, region, tag }, false)
                == (0x61u8, a, spec_pack_counter(kind, region, tag)),
{
}

/// The timestamp flag: an event with a timestamp has the type byte of the
/// same kind without one, with its top bit (0x80) set, and the same value
/// words; a type byte without a timestamp never has that bit set.
pub proof fn lemma_timestamp_flag(kind: EventKind)
    ensures
        spec_encode_event_payload(kind, false).0 < 0x80,
        spec_encode_event_payload(kind, true).0 == spec_encode_event_payload(kind, false).0 + 0x80,
        spec_encode_event_payload(kind, true).1 == spec_encode_event_payload(kind, false).1,
        spec_encode_event_payload(kind, true).2 == spec_encode_event_payload(kind, false).2,
{
}

/// The type bytes that name an event kind in the CTXP code table.
pub open spec fn known_type_code(b: u8) -> bool {
    b == 0x00 || b == 0x11 || b == 0x12 || b == 0x13 || b == 0x15 || b == 0x16 || b == 0x17 || b
        == 0x20 || b == 0x21 || b == 0x22 || b == 0x24 || b == 0x28 || b == 0x30 || b == 0x31 || b
        == 0x32 || b == 0x34 || b == 0x38 || b == 0x40 || b == 0x41 || b == 0x5f || b == 0x60 || b
        == 0x61 || b == 0x62 || b == 0x70 || b == 0x71 || b == 0x72
}

/// The CTXP code table, as the binary decoder reads it: what each type byte
/// (timestamp flag removed) and the two value words stand for. Memory type
/// bytes 0x3w are reads and 0x2w writes, with w the access width in bytes or
/// 0 for unknown data; any byte outside the table names no kind.
pub proof fn lemma_decoded_type_codes(a: u64, b: u64)
    ensures
        spec_decode_type_byte(0x00, a, b) == Some(EventKind::Sync { target: b }),
        spec_decode_type_byte(0x11, a, b) == Some(EventKind::BranchTaken { origin: a, target: b }),
        spec_decode_type_byte(0x12, a, b) == Some(
            EventKind::BranchNotTaken { origin: a, target: b },
        ),
        spec_decode_type_byte(0x13, a, b) == Some(EventKind::Interrupt { origin: a, target: b }),
        spec_decode_type_byte(0x15, a, b) == Some(EventKind::Rfi { origin: a, target: b }),
        spec_decode_type_byte(0x16, a, b) == Some(EventKind::Call { origin: a, target: b }),
        spec_decode_type_byte(0x17, a, b) == Some(EventKind::Return { origin: a, target: b }),
        spec_decode_type_byte(0x20, a, b) == Some(EventKind::MemWriteUnknownData { addr: a }),
        spec_decode_type_byte(0x21, a, b) == Some(
            EventKind::MemWrite { width: AccessWidth::W1, addr: Some(a), value: b },
        ),
        spec_decode_type_byte(0x22, a, b) == Some(
            EventKind::MemWrite { width: AccessWidth::W2, addr: Some(a), value: b },
        ),
        spec_decode_type_byte(0x24, a, b) == Some(
            EventKind::MemWrite { width: AccessWidth::W4, addr: Some(a), value: b },
        ),
        spec_decode_type_byte(0x28, a, b) == Some(
            EventKind::MemWrite { width: AccessWidth::W8, addr: Some(a), value: b },
        ),
        spec_decode_type_byte(0x30, a, b) == Some(EventKind::MemReadUnknownData { addr: a }),
        spec_decode_type_byte(0x31, a, b) == Some(
            EventKind::MemRead { width: AccessWidth::W1, addr: Some(a), value: b },
        ),
        spec_decode_type_byte(0x32, a, b) == Some(
            EventKind::MemRead { width: AccessWidth::W2, addr: Some(a), value: b },
        ),
        spec_decode_type_byte(0x34, a, b) == Some(
            EventKind::MemRead { width: AccessWidth::W4, addr: Some(a), value: b },
        ),
        spec_decode_type_byte(0x38, a, b) == Some(
            EventKind::MemRead { width: AccessWidth::W8, addr: Some(a), value: b },
        ),
        spec_decode_type_byte(0x40, a, b) == Some(EventKind::Context { value: b }),
        spec_decode_type_byte(0x41, a, b) == Some(EventKind::WallClock { value: b }),
        spec_decode_type_byte(0x5f, a, b) == Some(EventKind::Overflow),
        spec_decode_type_byte(0x60, a, b) == Some(EventKind::Data { tag: b }),
        spec_decode_type_byte(0x61, a, b) == Some(
            EventKind::Counter {
                count: a,
                kind: spec_unpack_counter(b).0,
                region: spec_unpack_counter(b).1,
                tag: spec_unpack_counter(b).2,
            },
        ),
        spec_decode_type_byte(0x62, a, b) == Some(EventKind::LastPC { prev_pc: b }),
        spec_decode_type_byte(0x70, a, b) == Some(
            EventKind::Info { kind: InfoKind::I1, value1: a, value2: b },
        ),
        spec_decode_type_byte(0x71, a, b) == Some(
            EventKind::Info { kind: InfoKind::I2, value1: a, value2: b },
        ),
        spec_decode_type_byte(0x72, a, b) == Some(
            EventKind::Info { kind: InfoKind::I3, value1: a, value2: b },
        ),
        forall|base: u8| !known_type_code(base) ==> #[trigger] spec_decode_type_byte(base, a, b) is None,
{
}

} // verus!
