use vstd::prelude::*;

use crate::error::Error;

verus! {

/// A numbered trace producer (a CPU core, a DAQ channel) and its name.
#[derive(Debug, Clone, PartialEq, Eq)]
pub struct Source {
    pub id: u8,
    pub name: String,
}

/// The mathematical value of a [`Source`]: its id and the characters of its name.
pub struct SourceModel {
    pub id: u8,
    pub name: Seq<char>,
}

impl DeepView for Source {
    type V = SourceModel;

    open spec fn deep_view(&self) -> SourceModel {
        SourceModel { id: self.id, name: self.name@ }
    }
}

/// One trace event: the source it belongs to, what happened, and an optional
/// cycle count timestamp.
#[derive(Debug, Clone, Copy, PartialEq, Eq)]
pub struct Event {
    pub source_id: u8,
    pub kind: EventKind,
    pub cycle: Option<u64>,
}

/// What an [`Event`] records.
#[non_exhaustive]
#[allow(inconsistent_fields)]
#[derive(Debug, Clone, Copy, PartialEq, Eq)]
pub enum EventKind {
    // Control flow
    Sync { target: u64 },
    Interrupt { origin: u64, target: u64 },
    Rfi { origin: u64, target: u64 },
    BranchTaken { origin: u64, target: u64 },
    BranchNotTaken { origin: u64, target: u64 },
    Call { origin: u64, target: u64 },
    Return { origin: u64, target: u64 },
    // Data
    MemReadUnknownData { addr: u64 },
    MemRead { width: AccessWidth, addr: Option<u64>, value: u64 },
    MemWriteUnknownData { addr: u64 },
    MemWrite { width: AccessWidth, addr: Option<u64>, value: u64 },
    // Miscellaneous
    Overflow,
    Context { value: u64 },
    WallClock { value: u64 },
    Info { kind: InfoKind, value1: u64, value2: u64 },
    // DAQ / instrumentation
    Data { tag: u64 },
    Counter { count: u64, kind: CounterKind, region: u8, tag: u16 },
    LastPC { prev_pc: u64 },
}

/// The width of a memory access in bytes: 1, 2, 4 or 8.
#[derive(Debug, Clone, Copy, PartialEq, Eq)]
pub enum AccessWidth {
    W1,
    W2,
    W4,
    W8,
}

/// The user-defined class of an `Info` event.
#[derive(Debug, Clone, Copy, PartialEq, Eq)]
pub enum InfoKind {
    I1,
    I2,
    I3,
}

/// What a counter readout counts; its number is the 2-bit code used on the wire.
#[derive(Debug, Clone, Copy, PartialEq, Eq)]
pub enum CounterKind {
    InstructionFetchThreshold,
    DataReadThreshold,
    DataWrite,
    DataRead,
}

/// The 2-bit code of a counter kind.
pub open spec fn counter_kind_code(kind: CounterKind) -> u64 {
    match kind {
        CounterKind::InstructionFetchThreshold => 0,
        CounterKind::DataReadThreshold => 1,
        CounterKind::DataWrite => 2,
        CounterKind::DataRead => 3,
    }
}

/// The counter kind with a given 2-bit code.
pub open spec fn counter_kind_of_code(code: u64) -> CounterKind
    recommends
        code < 4,
{
    if code == 0 {
        CounterKind::InstructionFetchThreshold
    } else if code == 1 {
        CounterKind::DataReadThreshold
    } else if code == 2 {
        CounterKind::DataWrite
    } else {
        CounterKind::DataRead
    }
}

/// The packed counter word: tag in bits 15..0, region in bits 18..16 (its low
/// three bits), kind code in bits 20..19.
pub open spec fn spec_pack_counter(kind: CounterKind, region: u8, tag: u16) -> u64 {
    (counter_kind_code(kind) * 0x80000 + (region % 8) as u64 * 0x10000 + tag as u64) as u64
}

/// The fields read back from a packed counter word.
pub open spec fn spec_unpack_counter(v: u64) -> (CounterKind, u8, u16) {
    (counter_kind_of_code((v / 0x80000) % 4), ((v / 0x10000) % 8) as u8, (v % 0x10000) as u16)
}

fn counter_kind_bits(kind: &CounterKind) -> (r: u64)
    ensures
        r == counter_kind_code(*kind),
{
    match kind {
        CounterKind::InstructionFetchThreshold => 0,
        CounterKind::DataReadThreshold => 1,
        CounterKind::DataWrite => 2,
        CounterKind::DataRead => 3,
    }
}

/// Packs a counter's kind, region and tag into the 21-bit word carried by a
/// binary `Counter` record. Only the low three bits of `region` are kept.
pub fn pack_counter(kind: &CounterKind, region: u8, tag: u16) -> (r: u64)
    ensures
        r == spec_pack_counter(*kind, region, tag),
        r < 0x200000,
{
    let kind_bits = counter_kind_bits(kind) & 0b11;
    let region_bits = (region as u64) & 0b111;
    let tag_bits = tag as u64;
    let r = (kind_bits << 19) | (region_bits << 16) | tag_bits;
    let k = counter_kind_bits(kind);
    assert(k < 4 ==> (k & 3) == k) by (bit_vector);
    assert(((region as u64) & 7) == (region as u64) % 8) by (bit_vector);
    assert(kind_bits < 4 && region_bits < 8 && tag_bits < 0x10000 ==> (kind_bits << 19) | (
    region_bits << 16) | tag_bits == kind_bits * 0x80000 + region_bits * 0x10000 + tag_bits)
        by (bit_vector);
    r
}

/// Reads a counter's kind, region and tag back from a packed word; bits above
/// bit 20 are ignored. Never fails.
pub fn unpack_counter(v: u64) -> (r: Result<(CounterKind, u8, u16), Error>)
    ensures
        r == Ok::<(CounterKind, u8, u16), Error>(spec_unpack_counter(v)),
{
    let kind_bits = (v >> 19) & 0b11;
    let region_bits = (v >> 16) & 0b111;
    let tag_bits = (v & 0xFFFF) as u16;
    assert(((v >> 19) & 3) == (v / 0x80000) % 4) by (bit_vector);
    assert(((v >> 16) & 7) == (v / 0x10000) % 8) by (bit_vector);
    assert((v & 0xFFFF) == v % 0x10000) by (bit_vector);
    let kind = if kind_bits == 0 {
        CounterKind::InstructionFetchThreshold
    } else if kind_bits == 1 {
        CounterKind::DataReadThreshold
    } else if kind_bits == 2 {
        CounterKind::DataWrite
    } else {
        CounterKind::DataRead
    };
    Ok((kind, region_bits as u8, tag_bits))
}

/// Unpacking a packed counter gives back its kind and tag, and the region
/// reduced to its low three bits.
pub proof fn lemma_unpack_pack_counter(kind: CounterKind, region: u8, tag: u16)
    ensures
        spec_unpack_counter(spec_pack_counter(kind, region, tag)) == (kind, region % 8, tag),
{
    let k = counter_kind_code(kind);
    let r = (region % 8) as u64;
    let t = tag as u64;
    let v = spec_pack_counter(kind, region, tag);
    assert(v == k * 0x80000 + r * 0x10000 + t);
    assert((k * 0x80000 + r * 0x10000 + t) / 0x80000 == k) by (nonlinear_arith)
        requires
            k < 4,
            r < 8,
            t < 0x10000,
    ;
    assert((k * 0x80000 + r * 0x10000 + t) / 0x10000 == k * 8 + r) by (nonlinear_arith)
        requires
            k < 4,
            r < 8,
            t < 0x10000,
    ;
    assert((k * 0x80000 + r * 0x10000 + t) % 0x10000 == t) by (nonlinear_arith)
        requires
            k < 4,
            r < 8,
            t < 0x10000,
    ;
    assert((k * 8 + r) % 8 == r) by (nonlinear_arith)
        requires
            r < 8,
            k < 4,
    ;
}

/// Packing the fields unpacked from a word gives back the word's low 21 bits.
pub proof fn lemma_pack_unpack_counter(v: u64)
    ensures
        ({
            let (kind, region, tag) = spec_unpack_counter(v);
            spec_pack_counter(kind, region, tag) == v % 0x200000
        }),
{
    let (kind, region, tag) = spec_unpack_counter(v);
    let k = (v / 0x80000) % 4;
    let r = (v / 0x10000) % 8;
    let t = v % 0x10000;
    assert(counter_kind_code(kind) == k);
    assert(region % 8 == r);
    assert(k * 0x80000 + r * 0x10000 + t == v % 0x200000) by (nonlinear_arith)
        requires
            k == (v / 0x80000) % 4,
            r == (v / 0x10000) % 8,
            t == v % 0x10000,
    ;
}

} // verus!
