//! The text format's event lines.
//!
//! An event line is a sequence of tokens separated by single spaces:
//! `#<source id> <cycle> <kind> <arguments>`, where the cycle token is `@`
//! followed by the decimal cycle count, or `-` when the event carries no
//! timestamp. Addresses and values are written in hexadecimal with a `0x`
//! prefix; access widths, info indices, counter kinds, regions and tags in
//! decimal. The kinds and their arguments:
//!
//! | kind     | arguments                            |
//! |----------|--------------------------------------|
//! | `SYNC`   | target                               |
//! | `IRQ`, `RFI`, `BT`, `BNT`, `CALL`, `RET` | origin, target |
//! | `MRU`, `MWU` | address                          |
//! | `MR`, `MW` | width (1, 2, 4, 8), address or `-`, value |
//! | `OVF`    | none                                 |
//! | `CTX`, `WCLK` | value                           |
//! | `INFO`   | index (1, 2, 3), value1, value2      |
//! | `DATA`   | tag                                  |
//! | `CNT`    | count, kind code (0 to 3), region, tag |
//! | `LASTPC` | previous program counter             |
use vstd::prelude::*;

use crate::error::Error;
use crate::event::{Event, EventKind, AccessWidth, InfoKind, CounterKind, counter_kind_code, counter_kind_of_code};
use crate::text_num::{
    spec_dec, spec_hex, spec_parse_dec, spec_parse_hex, lemma_parse_dec_roundtrip,
    lemma_parse_hex_roundtrip, lemma_dec_digits, lemma_hex_digits, is_dec_digit, is_hex_digit,
    push_char, push_dec, push_hex, parse_dec, parse_hex, chars_of,
};
use crate::text_meta::{is_whitespace, first_index_of, lemma_first_index_of, lemma_first_index_after, find_char};

verus! {

/// The tokens of a line split at each space, as `str::split(' ')` gives them.
pub open spec fn spec_split(s: Seq<char>) -> Seq<Seq<char>>
    decreases s.len(),
{
    match first_index_of(s, ' ') {
        None => seq![s],
        Some(k) => {
            proof {
                lemma_first_index_of(s, ' ');
            }
            seq![s.take(k as int)] + spec_split(s.skip(k + 1 as int))
        },
    }
}

/// Tokens joined with single spaces.
pub open spec fn spec_join(ts: Seq<Seq<char>>) -> Seq<char>
    decreases ts.len(),
{
    if ts.len() == 0 {
        seq![]
    } else if ts.len() == 1 {
        ts[0]
    } else {
        ts[0] + seq![' '] + spec_join(ts.drop_first())
    }
}

/// A token is not empty and holds no white space (no space, no line end).
pub open spec fn plain_token(t: Seq<char>) -> bool {
    t.len() > 0 && forall|j: int| 0 <= j < t.len() ==> !is_whitespace(#[trigger] t[j])
}

/// Splitting joined plain_token tokens gives the tokens back.
pub proof fn lemma_split_join(ts: Seq<Seq<char>>)
    requires
        ts.len() > 0,
        forall|i: int| 0 <= i < ts.len() ==> plain_token(#[trigger] ts[i]),
    ensures
        spec_split(spec_join(ts)) == ts,
    decreases ts.len(),
{
    let s = spec_join(ts);
    if ts.len() == 1 {
        lemma_first_index_of(s, ' ');
        if first_index_of(s, ' ') is Some {
            let k = first_index_of(s, ' ')->0;
            assert(ts[0][k as int] == ' ');
            assert(!is_whitespace(ts[0][k as int]));
        }
        assert(ts =~= seq![ts[0]]);
    } else {
        let rest = ts.drop_first();
        assert forall|i: int| 0 <= i < rest.len() implies plain_token(#[trigger] rest[i]) by {
            assert(rest[i] == ts[i + 1]);
        }
        lemma_split_join(rest);
        assert(plain_token(ts[0]));
        assert forall|j: int| 0 <= j < ts[0].len() implies ts[0][j] != ' ' by {
            assert(!is_whitespace(ts[0][j]));
        }
        lemma_first_index_after(ts[0], ' ', spec_join(rest));
        assert(s.take(ts[0].len() as int) =~= ts[0]);
        assert(s.skip(ts[0].len() + 1 as int) =~= spec_join(rest));
        assert(seq![ts[0]] + rest =~= ts);
    }
}

/// Why an event line does not parse: a malformed line, an unknown kind name,
/// a width or an info index that is not allowed, or a malformed number.
pub enum LineFault {
    Parse,
    UnknownKind(Seq<char>),
    MemWidth(u8),
    InfoIndex(u8),
    Number(Seq<char>),
}

/// The error reports the given line fault.
pub open spec fn reports_line_fault(e: Error, f: LineFault) -> bool {
    match f {
        LineFault::Parse => e is Parse,
        LineFault::UnknownKind(n) => e matches Error::UnknownEventKind(s) && s@ == n,
        LineFault::MemWidth(w) => e == Error::InvalidMemWidth(w),
        LineFault::InfoIndex(i) => e == Error::InvalidInfoIndex(i),
        LineFault::Number(t) => e matches Error::InvalidNumber(s) && s@ == t,
    }
}

/// A 64-bit hexadecimal argument.
pub open spec fn hex_arg(t: Seq<char>) -> Result<u64, LineFault> {
    match spec_parse_hex(t) {
        Some(v) => Ok(v as u64),
        None => Err(LineFault::Number(t)),
    }
}

/// A decimal argument with a value at most `max`.
pub open spec fn dec_arg(t: Seq<char>, max: nat) -> Result<nat, LineFault> {
    match spec_parse_dec(t, max) {
        Some(v) => Ok(v),
        None => Err(LineFault::Number(t)),
    }
}

/// An access width argument.
pub open spec fn width_arg(t: Seq<char>) -> Result<AccessWidth, LineFault> {
    match dec_arg(t, 255) {
        Err(f) => Err(f),
        Ok(w) => if w == 1 {
            Ok(AccessWidth::W1)
        } else if w == 2 {
            Ok(AccessWidth::W2)
        } else if w == 4 {
            Ok(AccessWidth::W4)
        } else if w == 8 {
            Ok(AccessWidth::W8)
        } else {
            Err(LineFault::MemWidth(w as u8))
        },
    }
}

/// An address argument: `-` for an unknown address.
pub open spec fn addr_arg(t: Seq<char>) -> Result<Option<u64>, LineFault> {
    if t == seq!['-'] {
        Ok(None)
    } else {
        match hex_arg(t) {
            Ok(v) => Ok(Some(v)),
            Err(f) => Err(f),
        }
    }
}

/// A kind whose one argument is a 64-bit value.
pub open spec fn one_arg_kind(code: nat, v: u64) -> EventKind {
    if code == 0 {
        EventKind::Sync { target: v }
    } else if code == 7 {
        EventKind::MemReadUnknownData { addr: v }
    } else if code == 9 {
        EventKind::MemWriteUnknownData { addr: v }
    } else if code == 12 {
        EventKind::Context { value: v }
    } else if code == 13 {
        EventKind::WallClock { value: v }
    } else if code == 15 {
        EventKind::Data { tag: v }
    } else {
        EventKind::LastPC { prev_pc: v }
    }
}

/// A kind whose arguments are an origin and a target.
pub open spec fn transfer(code: nat, origin: u64, target: u64) -> EventKind {
    if code == 1 {
        EventKind::Interrupt { origin, target }
    } else if code == 2 {
        EventKind::Rfi { origin, target }
    } else if code == 3 {
        EventKind::BranchTaken { origin, target }
    } else if code == 4 {
        EventKind::BranchNotTaken { origin, target }
    } else if code == 5 {
        EventKind::Call { origin, target }
    } else {
        EventKind::Return { origin, target }
    }
}

/// The name of each event kind in an event line, by code.
pub open spec fn kind_name(code: nat) -> Seq<char> {
    if code == 0 {
        seq!['S', 'Y', 'N', 'C']
    } else if code == 1 {
        seq!['I', 'R', 'Q']
    } else if code == 2 {
        seq!['R', 'F', 'I']
    } else if code == 3 {
        seq!['B', 'T']
    } else if code == 4 {
        seq!['B', 'N', 'T']
    } else if code == 5 {
        seq!['C', 'A', 'L', 'L']
    } else if code == 6 {
        seq!['R', 'E', 'T']
    } else if code == 7 {
        seq!['M', 'R', 'U']
    } else if code == 8 {
        seq!['M', 'R']
    } else if code == 9 {
        seq!['M', 'W', 'U']
    } else if code == 10 {
        seq!['M', 'W']
    } else if code == 11 {
        seq!['O', 'V', 'F']
    } else if code == 12 {
        seq!['C', 'T', 'X']
    } else if code == 13 {
        seq!['W', 'C', 'L', 'K']
    } else if code == 14 {
        seq!['I', 'N', 'F', 'O']
    } else if code == 15 {
        seq!['D', 'A', 'T', 'A']
    } else if code == 16 {
        seq!['C', 'N', 'T']
    } else {
        seq!['L', 'A', 'S', 'T', 'P', 'C']
    }
}

/// The code of a kind name, if it is one.
pub open spec fn kind_code(name: Seq<char>) -> Option<nat> {
    if name == kind_name(0) {
        Some(0)
    } else if name == kind_name(1) {
        Some(1)
    } else if name == kind_name(2) {
        Some(2)
    } else if name == kind_name(3) {
        Some(3)
    } else if name == kind_name(4) {
        Some(4)
    } else if name == kind_name(5) {
        Some(5)
    } else if name == kind_name(6) {
        Some(6)
    } else if name == kind_name(7) {
        Some(7)
    } else if name == kind_name(8) {
        Some(8)
    } else if name == kind_name(9) {
        Some(9)
    } else if name == kind_name(10) {
        Some(10)
    } else if name == kind_name(11) {
        Some(11)
    } else if name == kind_name(12) {
        Some(12)
    } else if name == kind_name(13) {
        Some(13)
    } else if name == kind_name(14) {
        Some(14)
    } else if name == kind_name(15) {
        Some(15)
    } else if name == kind_name(16) {
        Some(16)
    } else if name == kind_name(17) {
        Some(17)
    } else {
        None
    }
}

/// The event kind that a kind code and its argument tokens stand for.
pub open spec fn spec_parse_kind(code: nat, args: Seq<Seq<char>>) -> Result<EventKind, LineFault> {
    let n: nat = if code == 11 {
        0
    } else if code == 0 || code == 7 || code == 9 || code == 12 || code == 13 || code == 15
        || code == 17 {
        1
    } else if code <= 6 {
        2
    } else if code == 16 {
        4
    } else {
        3
    };
    if args.len() != n {
        Err(LineFault::Parse)
    } else if code == 11 {
        Ok(EventKind::Overflow)
    } else if n == 1 {
        match hex_arg(args[0]) {
            Err(f) => Err(f),
            Ok(v) => Ok(one_arg_kind(code, v)),
        }
    } else if n == 2 {
        match hex_arg(args[0]) {
            Err(f) => Err(f),
            Ok(o) => match hex_arg(args[1]) {
                Err(f) => Err(f),
                Ok(t) => Ok(transfer(code, o, t)),
            },
        }
    } else if code == 8 || code == 10 {
        match width_arg(args[0]) {
            Err(f) => Err(f),
            Ok(width) => match addr_arg(args[1]) {
                Err(f) => Err(f),
                Ok(addr) => match hex_arg(args[2]) {
                    Err(f) => Err(f),
                    Ok(value) => Ok(
                        if code == 8 {
                            EventKind::MemRead { width, addr, value }
                        } else {
                            EventKind::MemWrite { width, addr, value }
                        },
                    ),
                },
            },
        }
    } else if code == 14 {
        match dec_arg(args[0], 255) {
            Err(f) => Err(f),
            Ok(i) => if !(1 <= i <= 3) {
                Err(LineFault::InfoIndex(i as u8))
            } else {
                match hex_arg(args[1]) {
                    Err(f) => Err(f),
                    Ok(value1) => match hex_arg(args[2]) {
                        Err(f) => Err(f),
                        Ok(value2) => Ok(
                            EventKind::Info {
                                kind: if i == 1 {
                                    InfoKind::I1
                                } else if i == 2 {
                                    InfoKind::I2
                                } else {
                                    InfoKind::I3
                                },
                                value1,
                                value2,
                            },
                        ),
                    },
                }
            },
        }
    } else {
        match hex_arg(args[0]) {
            Err(f) => Err(f),
            Ok(count) => match dec_arg(args[1], 255) {
                Err(f) => Err(f),
                Ok(k) => if k > 3 {
                    Err(LineFault::Parse)
                } else {
                    match dec_arg(args[2], 255) {
                        Err(f) => Err(f),
                        Ok(region) => match dec_arg(args[3], 0xffff) {
                            Err(f) => Err(f),
                            Ok(tag) => Ok(
                                EventKind::Counter {
                                    count,
                                    kind: counter_kind_of_code(k as u64),
                                    region: region as u8,
                                    tag: tag as u16,
                                },
                            ),
                        },
                    }
                },
            },
        }
    }
}

/// The event that the tokens of an event line stand for.
pub open spec fn spec_parse_event_tokens(ts: Seq<Seq<char>>) -> Result<Event, LineFault> {
    if ts.len() < 3 || ts[0].len() == 0 || ts[0][0] != '#' {
        Err(LineFault::Parse)
    } else {
        match dec_arg(ts[0].skip(1), 255) {
            Err(f) => Err(f),
            Ok(id) => {
                let c = ts[1];
                let cycle: Result<Option<u64>, LineFault> = if c == seq!['-'] {
                    Ok(None)
                } else if c.len() > 0 && c[0] == '@' {
                    match dec_arg(c.skip(1), u64::MAX as nat) {
                        Ok(v) => Ok(Some(v as u64)),
                        Err(f) => Err(f),
                    }
                } else {
                    Err(LineFault::Parse)
                };
                match cycle {
                    Err(f) => Err(f),
                    Ok(cycle) => match kind_code(ts[2]) {
                        None => Err(LineFault::UnknownKind(ts[2])),
                        Some(code) => match spec_parse_kind(code, ts.skip(3)) {
                            Err(f) => Err(f),
                            Ok(kind) => Ok(Event { source_id: id as u8, kind, cycle }),
                        },
                    },
                }
            },
        }
    }
}

/// The event that an event line stands for.
pub open spec fn spec_parse_event(s: Seq<char>) -> Result<Event, LineFault> {
    spec_parse_event_tokens(spec_split(s))
}

} // verus!

verus! {

/// The number that an access width is written as.
pub open spec fn width_num(w: AccessWidth) -> nat {
    match w {
        AccessWidth::W1 => 1,
        AccessWidth::W2 => 2,
        AccessWidth::W4 => 4,
        AccessWidth::W8 => 8,
    }
}

/// The number that an info kind is written as.
pub open spec fn info_num(k: InfoKind) -> nat {
    match k {
        InfoKind::I1 => 1,
        InfoKind::I2 => 2,
        InfoKind::I3 => 3,
    }
}

/// A 64-bit value written in hexadecimal.
pub open spec fn hex_tok(v: u64) -> Seq<char> {
    spec_hex(v as nat)
}

/// The token of an address: `-` when it is unknown.
pub open spec fn addr_tok(a: Option<u64>) -> Seq<char> {
    match a {
        Some(v) => hex_tok(v),
        None => seq!['-'],
    }
}

/// The token of a timestamp: `@` and the cycle count, or `-`.
pub open spec fn cycle_tok(c: Option<u64>) -> Seq<char> {
    match c {
        Some(v) => seq!['@'] + spec_dec(v as nat),
        None => seq!['-'],
    }
}

/// The kind name and argument tokens of an event kind.
pub open spec fn spec_kind_tokens(k: EventKind) -> Seq<Seq<char>> {
    match k {
        EventKind::Sync { target } => seq![kind_name(0), hex_tok(target)],
        EventKind::Interrupt { origin, target } => seq![kind_name(1), hex_tok(origin), hex_tok(target)],
        EventKind::Rfi { origin, target } => seq![kind_name(2), hex_tok(origin), hex_tok(target)],
        EventKind::BranchTaken { origin, target } => seq![kind_name(3), hex_tok(origin), hex_tok(target)],
        EventKind::BranchNotTaken { origin, target } => seq![
            kind_name(4),
            hex_tok(origin),
            hex_tok(target),
        ],
        EventKind::Call { origin, target } => seq![kind_name(5), hex_tok(origin), hex_tok(target)],
        EventKind::Return { origin, target } => seq![kind_name(6), hex_tok(origin), hex_tok(target)],
        EventKind::MemReadUnknownData { addr } => seq![kind_name(7), hex_tok(addr)],
        EventKind::MemRead { width, addr, value } => seq![
            kind_name(8),
            spec_dec(width_num(width)),
            addr_tok(addr),
            hex_tok(value),
        ],
        EventKind::MemWriteUnknownData { addr } => seq![kind_name(9), hex_tok(addr)],
        EventKind::MemWrite { width, addr, value } => seq![
            kind_name(10),
            spec_dec(width_num(width)),
            addr_tok(addr),
            hex_tok(value),
        ],
        EventKind::Overflow => seq![kind_name(11)],
        EventKind::Context { value } => seq![kind_name(12), hex_tok(value)],
        EventKind::WallClock { value } => seq![kind_name(13), hex_tok(value)],
        EventKind::Info { kind, value1, value2 } => seq![
            kind_name(14),
            spec_dec(info_num(kind)),
            hex_tok(value1),
            hex_tok(value2),
        ],
        EventKind::Data { tag } => seq![kind_name(15), hex_tok(tag)],
        EventKind::Counter { count, kind, region, tag } => seq![
            kind_name(16),
            hex_tok(count),
            spec_dec(counter_kind_code(kind) as nat),
            spec_dec(region as nat),
            spec_dec(tag as nat),
        ],
        EventKind::LastPC { prev_pc } => seq![kind_name(17), hex_tok(prev_pc)],
    }
}

/// The tokens of an event line.
pub open spec fn spec_event_tokens(e: Event) -> Seq<Seq<char>> {
    seq![seq!['#'] + spec_dec(e.source_id as nat), cycle_tok(e.cycle)] + spec_kind_tokens(e.kind)
}

/// The event line of an event (without a line end).
pub open spec fn spec_event_line(e: Event) -> Seq<char> {
    spec_join(spec_event_tokens(e))
}

/// Each kind name reads back as its code.
pub proof fn lemma_kind_code_name(c: nat)
    requires
        c < 18,
    ensures
        kind_code(kind_name(c)) == Some(c),
{
    let n = kind_name(c);
    assert(forall|d: nat| d < 18 && d != c ==> #[trigger] kind_name(d) != n) by {
        assert forall|d: nat| d < 18 && d != c implies #[trigger] kind_name(d) != n by {
            let m = kind_name(d);
            if m == n {
                assert(m.len() == n.len());
                assert(m[0] == n[0]);
                if m.len() > 1 {
                    assert(m[1] == n[1]);
                }
                if m.len() > 2 {
                    assert(m[2] == n[2]);
                }
            }
        }
    }
}

/// Decimal and hexadecimal numerals hold no space.
pub proof fn lemma_numerals_plain(n: nat)
    ensures
        plain_token(spec_dec(n)),
        n <= u64::MAX ==> plain_token(spec_hex(n)),
{
    lemma_dec_digits(n);
    assert forall|j: int| 0 <= j < spec_dec(n).len() implies !is_whitespace(#[trigger] spec_dec(n)[j]) by {
        assert(is_dec_digit(spec_dec(n)[j]));
    }
    lemma_hex_digits(n);
    let h = spec_hex(n);
    assert forall|j: int| 0 <= j < h.len() implies !is_whitespace(#[trigger] h[j]) by {
        if j >= 2 {
            assert(h[j] == crate::text_num::spec_hex_digits(n)[j - 2]);
            assert(is_hex_digit(h[j]));
        }
    }
}

} // verus!

verus! {

/// A 64-bit value's hexadecimal token reads back as the value.
pub proof fn lemma_hex_arg(v: u64)
    ensures
        hex_arg(hex_tok(v)) == Ok::<u64, LineFault>(v),
        hex_tok(v) != seq!['-'],
        addr_arg(hex_tok(v)) == Ok::<Option<u64>, LineFault>(Some(v)),
        plain_token(hex_tok(v)),
{
    lemma_parse_hex_roundtrip(v as nat);
    lemma_numerals_plain(v as nat);
    crate::text_num::lemma_hex_digits(v as nat);
    assert(hex_tok(v).len() >= 3);
}

/// A number's decimal token reads back as the number.
pub proof fn lemma_dec_arg(n: nat, max: nat)
    requires
        n <= max,
    ensures
        dec_arg(spec_dec(n), max) == Ok::<nat, LineFault>(n),
        plain_token(spec_dec(n)),
{
    lemma_parse_dec_roundtrip(n, max);
    lemma_numerals_plain(n);
}

/// One hexadecimal argument reads back for a kind that takes one.
proof fn lemma_parse_one_arg(code: nat, v: u64)
    requires
        code == 0 || code == 7 || code == 9 || code == 12 || code == 13 || code == 15 || code == 17,
    ensures
        spec_parse_kind(code, seq![hex_tok(v)]) == Ok::<EventKind, LineFault>(one_arg_kind(code, v)),
{
    lemma_hex_arg(v);
}

/// An origin and a target read back for a control-flow kind.
proof fn lemma_parse_transfer(code: nat, o: u64, t: u64)
    requires
        1 <= code <= 6,
    ensures
        spec_parse_kind(code, seq![hex_tok(o), hex_tok(t)]) == Ok::<EventKind, LineFault>(
            transfer(code, o, t),
        ),
{
    lemma_hex_arg(o);
    lemma_hex_arg(t);
}

/// A memory access reads back.
proof fn lemma_parse_mem(code: nat, width: AccessWidth, addr: Option<u64>, value: u64)
    requires
        code == 8 || code == 10,
    ensures
        spec_parse_kind(code, seq![spec_dec(width_num(width)), addr_tok(addr), hex_tok(value)])
            == Ok::<EventKind, LineFault>(
            if code == 8 {
                EventKind::MemRead { width, addr, value }
            } else {
                EventKind::MemWrite { width, addr, value }
            },
        ),
{
    lemma_dec_arg(width_num(width), 255);
    match addr {
        Some(a) => lemma_hex_arg(a),
        None => {},
    }
    lemma_hex_arg(value);
}

/// An info event reads back.
proof fn lemma_parse_info(kind: InfoKind, value1: u64, value2: u64)
    ensures
        spec_parse_kind(14, seq![spec_dec(info_num(kind)), hex_tok(value1), hex_tok(value2)])
            == Ok::<EventKind, LineFault>(EventKind::Info { kind, value1, value2 }),
{
    lemma_dec_arg(info_num(kind), 255);
    lemma_hex_arg(value1);
    lemma_hex_arg(value2);
}

/// A counter readout reads back.
proof fn lemma_parse_counter(count: u64, kind: CounterKind, region: u8, tag: u16)
    ensures
        spec_parse_kind(
            16,
            seq![
                hex_tok(count),
                spec_dec(counter_kind_code(kind) as nat),
                spec_dec(region as nat),
                spec_dec(tag as nat),
            ],
        ) == Ok::<EventKind, LineFault>(EventKind::Counter { count, kind, region, tag }),
{
    lemma_hex_arg(count);
    lemma_dec_arg(counter_kind_code(kind) as nat, 255);
    lemma_dec_arg(region as nat, 255);
    lemma_dec_arg(tag as nat, 0xffff);
}

/// The tokens of an event kind hold no space.
pub proof fn lemma_kind_tokens_plain(k: EventKind)
    ensures
        spec_kind_tokens(k).len() >= 1,
        forall|i: int| 0 <= i < spec_kind_tokens(k).len() ==> plain_token(#[trigger] spec_kind_tokens(k)[i]),
{
    let kt = spec_kind_tokens(k);
    assert forall|i: int| 0 <= i < kt.len() implies plain_token(#[trigger] kt[i]) by {
        if i == 0 {
            let n = kt[0];
            assert forall|j: int| 0 <= j < n.len() implies !is_whitespace(#[trigger] n[j]) by {}
        } else {
            match k {
                EventKind::MemRead { width, addr, value } => {
                    lemma_numerals_plain(width_num(width));
                    lemma_numerals_plain(value as nat);
                    match addr {
                        Some(a) => lemma_numerals_plain(a as nat),
                        None => {},
                    }
                },
                EventKind::MemWrite { width, addr, value } => {
                    lemma_numerals_plain(width_num(width));
                    lemma_numerals_plain(value as nat);
                    match addr {
                        Some(a) => lemma_numerals_plain(a as nat),
                        None => {},
                    }
                },
                EventKind::Info { kind, value1, value2 } => {
                    lemma_numerals_plain(info_num(kind));
                    lemma_numerals_plain(value1 as nat);
                    lemma_numerals_plain(value2 as nat);
                },
                EventKind::Counter { count, kind, region, tag } => {
                    lemma_numerals_plain(count as nat);
                    lemma_numerals_plain(counter_kind_code(kind) as nat);
                    lemma_numerals_plain(region as nat);
                    lemma_numerals_plain(tag as nat);
                },
                EventKind::Interrupt { origin, target } | EventKind::Rfi { origin, target }
                | EventKind::BranchTaken { origin, target } | EventKind::BranchNotTaken {
                    origin,
                    target,
                } | EventKind::Call { origin, target } | EventKind::Return { origin, target } => {
                    lemma_numerals_plain(origin as nat);
                    lemma_numerals_plain(target as nat);
                },
                EventKind::Sync { target: v } | EventKind::MemReadUnknownData { addr: v }
                | EventKind::MemWriteUnknownData { addr: v } | EventKind::Context { value: v }
                | EventKind::WallClock { value: v } | EventKind::Data { tag: v }
                | EventKind::LastPC { prev_pc: v } => {
                    lemma_numerals_plain(v as nat);
                },
                EventKind::Overflow => {},
            }
        }
    }
}

/// The kind tokens of an event kind name its code and read back as the kind.
#[verifier::spinoff_prover]
#[verifier::rlimit(60)]
pub proof fn lemma_kind_tokens_roundtrip(k: EventKind)
    ensures
        spec_kind_tokens(k).len() >= 1,
        kind_code(spec_kind_tokens(k)[0]) matches Some(c) && spec_parse_kind(
            c,
            spec_kind_tokens(k).drop_first(),
        ) == Ok::<EventKind, LineFault>(k),
{
    let kt = spec_kind_tokens(k);
    match k {
        EventKind::Sync { target } => {
            lemma_kind_code_name(0);
            assert(kt.drop_first() =~= seq![hex_tok(target)]);
            lemma_parse_one_arg(0, target);
        },
        EventKind::Interrupt { origin, target } => {
            lemma_kind_code_name(1);
            assert(kt.drop_first() =~= seq![hex_tok(origin), hex_tok(target)]);
            lemma_parse_transfer(1, origin, target);
        },
        EventKind::Rfi { origin, target } => {
            lemma_kind_code_name(2);
            assert(kt.drop_first() =~= seq![hex_tok(origin), hex_tok(target)]);
            lemma_parse_transfer(2, origin, target);
        },
        EventKind::BranchTaken { origin, target } => {
            lemma_kind_code_name(3);
            assert(kt.drop_first() =~= seq![hex_tok(origin), hex_tok(target)]);
            lemma_parse_transfer(3, origin, target);
        },
        EventKind::BranchNotTaken { origin, target } => {
            lemma_kind_code_name(4);
            assert(kt.drop_first() =~= seq![hex_tok(origin), hex_tok(target)]);
            lemma_parse_transfer(4, origin, target);
        },
        EventKind::Call { origin, target } => {
            lemma_kind_code_name(5);
            assert(kt.drop_first() =~= seq![hex_tok(origin), hex_tok(target)]);
            lemma_parse_transfer(5, origin, target);
        },
        EventKind::Return { origin, target } => {
            lemma_kind_code_name(6);
            assert(kt.drop_first() =~= seq![hex_tok(origin), hex_tok(target)]);
            lemma_parse_transfer(6, origin, target);
        },
        EventKind::MemReadUnknownData { addr } => {
            lemma_kind_code_name(7);
            assert(kt.drop_first() =~= seq![hex_tok(addr)]);
            lemma_parse_one_arg(7, addr);
        },
        EventKind::MemRead { width, addr, value } => {
            lemma_kind_code_name(8);
            assert(kt.drop_first() =~= seq![spec_dec(width_num(width)), addr_tok(addr), hex_tok(value)]);
            lemma_parse_mem(8, width, addr, value);
        },
        EventKind::MemWriteUnknownData { addr } => {
            lemma_kind_code_name(9);
            assert(kt.drop_first() =~= seq![hex_tok(addr)]);
            lemma_parse_one_arg(9, addr);
        },
        EventKind::MemWrite { width, addr, value } => {
            lemma_kind_code_name(10);
            assert(kt.drop_first() =~= seq![spec_dec(width_num(width)), addr_tok(addr), hex_tok(value)]);
            lemma_parse_mem(10, width, addr, value);
        },
        EventKind::Overflow => {
            lemma_kind_code_name(11);
            assert(kt.drop_first() =~= Seq::<Seq<char>>::empty());
        },
        EventKind::Context { value } => {
            lemma_kind_code_name(12);
            assert(kt.drop_first() =~= seq![hex_tok(value)]);
            lemma_parse_one_arg(12, value);
        },
        EventKind::WallClock { value } => {
            lemma_kind_code_name(13);
            assert(kt.drop_first() =~= seq![hex_tok(value)]);
            lemma_parse_one_arg(13, value);
        },
        EventKind::Info { kind, value1, value2 } => {
            lemma_kind_code_name(14);
            assert(kt.drop_first() =~= seq![spec_dec(info_num(kind)), hex_tok(value1), hex_tok(value2)]);
            lemma_parse_info(kind, value1, value2);
        },
        EventKind::Data { tag } => {
            lemma_kind_code_name(15);
            assert(kt.drop_first() =~= seq![hex_tok(tag)]);
            lemma_parse_one_arg(15, tag);
        },
        EventKind::Counter { count, kind, region, tag } => {
            lemma_kind_code_name(16);
            assert(kt.drop_first() =~= seq![
                hex_tok(count),
                spec_dec(counter_kind_code(kind) as nat),
                spec_dec(region as nat),
                spec_dec(tag as nat),
            ]);
            lemma_parse_counter(count, kind, region, tag);
        },
        EventKind::LastPC { prev_pc } => {
            lemma_kind_code_name(17);
            assert(kt.drop_first() =~= seq![hex_tok(prev_pc)]);
            lemma_parse_one_arg(17, prev_pc);
        },
    }
}

/// An event line reads back as its event.
pub proof fn lemma_event_line_roundtrip(e: Event)
    ensures
        spec_parse_event(spec_event_line(e)) == Ok::<Event, LineFault>(e),
{
    let ts = spec_event_tokens(e);
    let kt = spec_kind_tokens(e.kind);
    lemma_kind_tokens_roundtrip(e.kind);
    lemma_kind_tokens_plain(e.kind);
    lemma_dec_arg(e.source_id as nat, 255);
    let t0 = seq!['#'] + spec_dec(e.source_id as nat);
    assert(t0.skip(1) =~= spec_dec(e.source_id as nat));
    let ct = cycle_tok(e.cycle);
    match e.cycle {
        Some(c) => {
            lemma_dec_arg(c as nat, u64::MAX as nat);
            assert(ct.skip(1) =~= spec_dec(c as nat));
            assert(ct.len() >= 2);
            assert(ct != seq!['-']);
        },
        None => {},
    }
    assert(plain_token(t0));
    assert(plain_token(ct));
    assert forall|i: int| 0 <= i < ts.len() implies plain_token(#[trigger] ts[i]) by {
        if i >= 2 {
            assert(ts[i] == kt[i - 2]);
        }
    }
    lemma_split_join(ts);
    assert(ts[2] == kt[0]);
    assert(ts.skip(3) =~= kt.drop_first());
}

} // verus!

verus! {

/// Joining one more token adds a space and the token at the end.
pub proof fn lemma_join_push(ts: Seq<Seq<char>>, x: Seq<char>)
    requires
        ts.len() > 0,
    ensures
        spec_join(ts.push(x)) == spec_join(ts) + seq![' '] + x,
    decreases ts.len(),
{
    if ts.len() == 1 {
        assert(ts.push(x).drop_first() =~= seq![x]);
        assert(ts.push(x)[0] == ts[0]);
        assert(spec_join(seq![x]) == x);
        assert(spec_join(ts) == ts[0]);
    } else {
        lemma_join_push(ts.drop_first(), x);
        assert(ts.push(x).drop_first() =~= ts.drop_first().push(x));
        assert(ts.push(x)[0] == ts[0]);
        assert(ts[0] + seq![' '] + (spec_join(ts.drop_first()) + seq![' '] + x) =~= (ts[0] + seq![
            ' ',
        ] + spec_join(ts.drop_first())) + seq![' '] + x);
    }
}

/// The characters of a string, as a string.
pub fn string_of_chars(cs: &[char]) -> (s: String)
    ensures
        s@ == cs@,
{
    let mut s = String::new();
    crate::text_meta::push_chars(&mut s, cs);
    s
}

/// The string of a decimal numeral.
fn dec_string(n: u64) -> (s: String)
    ensures
        s@ == spec_dec(n as nat),
{
    let mut s = String::new();
    push_dec(&mut s, n);
    assert(s@ =~= spec_dec(n as nat));
    s
}

/// The string of a hexadecimal numeral.
fn hex_string(n: u64) -> (s: String)
    ensures
        s@ == hex_tok(n),
{
    let mut s = String::new();
    push_hex(&mut s, n);
    assert(s@ =~= hex_tok(n));
    s
}

/// The name of the event kind with the given code.
fn kind_name_string(code: u8) -> (s: String)
    requires
        code < 18,
    ensures
        s@ == kind_name(code as nat),
{
    let cs: Vec<char> = if code == 0 {
        vec!['S', 'Y', 'N', 'C']
    } else if code == 1 {
        vec!['I', 'R', 'Q']
    } else if code == 2 {
        vec!['R', 'F', 'I']
    } else if code == 3 {
        vec!['B', 'T']
    } else if code == 4 {
        vec!['B', 'N', 'T']
    } else if code == 5 {
        vec!['C', 'A', 'L', 'L']
    } else if code == 6 {
        vec!['R', 'E', 'T']
    } else if code == 7 {
        vec!['M', 'R', 'U']
    } else if code == 8 {
        vec!['M', 'R']
    } else if code == 9 {
        vec!['M', 'W', 'U']
    } else if code == 10 {
        vec!['M', 'W']
    } else if code == 11 {
        vec!['O', 'V', 'F']
    } else if code == 12 {
        vec!['C', 'T', 'X']
    } else if code == 13 {
        vec!['W', 'C', 'L', 'K']
    } else if code == 14 {
        vec!['I', 'N', 'F', 'O']
    } else if code == 15 {
        vec!['D', 'A', 'T', 'A']
    } else if code == 16 {
        vec!['C', 'N', 'T']
    } else {
        vec!['L', 'A', 'S', 'T', 'P', 'C']
    };
    assert(cs@ =~= kind_name(code as nat));
    string_of_chars(cs.as_slice())
}

/// The views of a sequence of strings.
pub open spec fn string_views(v: Seq<String>) -> Seq<Seq<char>> {
    v.map_values(|s: String| s@)
}

/// The tokens of the event kind.
fn kind_tokens(k: &EventKind) -> (ts: Vec<String>)
    ensures
        string_views(ts@) == spec_kind_tokens(*k),
{
    let mut ts: Vec<String> = Vec::new();
    match k {
        EventKind::Sync { target } => {
            ts.push(kind_name_string(0));
            ts.push(hex_string(*target));
        },
        EventKind::Interrupt { origin, target } => {
            ts.push(kind_name_string(1));
            ts.push(hex_string(*origin));
            ts.push(hex_string(*target));
        },
        EventKind::Rfi { origin, target } => {
            ts.push(kind_name_string(2));
            ts.push(hex_string(*origin));
            ts.push(hex_string(*target));
        },
        EventKind::BranchTaken { origin, target } => {
            ts.push(kind_name_string(3));
            ts.push(hex_string(*origin));
            ts.push(hex_string(*target));
        },
        EventKind::BranchNotTaken { origin, target } => {
            ts.push(kind_name_string(4));
            ts.push(hex_string(*origin));
            ts.push(hex_string(*target));
        },
        EventKind::Call { origin, target } => {
            ts.push(kind_name_string(5));
            ts.push(hex_string(*origin));
            ts.push(hex_string(*target));
        },
        EventKind::Return { origin, target } => {
            ts.push(kind_name_string(6));
            ts.push(hex_string(*origin));
            ts.push(hex_string(*target));
        },
        EventKind::MemReadUnknownData { addr } => {
            ts.push(kind_name_string(7));
            ts.push(hex_string(*addr));
        },
        EventKind::MemRead { width, addr, value } => {
            ts.push(kind_name_string(8));
            ts.push(dec_string(width_number(width)));
            ts.push(addr_string(addr));
            ts.push(hex_string(*value));
        },
        EventKind::MemWriteUnknownData { addr } => {
            ts.push(kind_name_string(9));
            ts.push(hex_string(*addr));
        },
        EventKind::MemWrite { width, addr, value } => {
            ts.push(kind_name_string(10));
            ts.push(dec_string(width_number(width)));
            ts.push(addr_string(addr));
            ts.push(hex_string(*value));
        },
        EventKind::Overflow => {
            ts.push(kind_name_string(11));
        },
        EventKind::Context { value } => {
            ts.push(kind_name_string(12));
            ts.push(hex_string(*value));
        },
        EventKind::WallClock { value } => {
            ts.push(kind_name_string(13));
            ts.push(hex_string(*value));
        },
        EventKind::Info { kind, value1, value2 } => {
            ts.push(kind_name_string(14));
            ts.push(
                dec_string(
                    match kind {
                        InfoKind::I1 => 1,
                        InfoKind::I2 => 2,
                        InfoKind::I3 => 3,
                    },
                ),
            );
            ts.push(hex_string(*value1));
            ts.push(hex_string(*value2));
        },
        EventKind::Data { tag } => {
            ts.push(kind_name_string(15));
            ts.push(hex_string(*tag));
        },
        EventKind::Counter { count, kind, region, tag } => {
            ts.push(kind_name_string(16));
            ts.push(hex_string(*count));
            ts.push(
                dec_string(
                    match kind {
                        CounterKind::InstructionFetchThreshold => 0,
                        CounterKind::DataReadThreshold => 1,
                        CounterKind::DataWrite => 2,
                        CounterKind::DataRead => 3,
                    },
                ),
            );
            ts.push(dec_string(*region as u64));
            ts.push(dec_string(*tag as u64));
        },
        EventKind::LastPC { prev_pc } => {
            ts.push(kind_name_string(17));
            ts.push(hex_string(*prev_pc));
        },
    }
    assert(string_views(ts@) =~= spec_kind_tokens(*k));
    ts
}

fn width_number(w: &AccessWidth) -> (n: u64)
    ensures
        n == width_num(*w),
{
    match w {
        AccessWidth::W1 => 1,
        AccessWidth::W2 => 2,
        AccessWidth::W4 => 4,
        AccessWidth::W8 => 8,
    }
}

fn addr_string(a: &Option<u64>) -> (s: String)
    ensures
        s@ == addr_tok(*a),
{
    match a {
        Some(v) => hex_string(*v),
        None => {
            let mut s = String::new();
            push_char(&mut s, '-');
            assert(s@ =~= seq!['-']);
            s
        },
    }
}

/// Appends tokens separated by single spaces.
fn push_joined(out: &mut String, ts: &Vec<String>)
    requires
        ts@.len() > 0,
    ensures
        final(out)@ == old(out)@ + spec_join(string_views(ts@)),
{
    let ghost start = out@;
    let ghost v = string_views(ts@);
    crate::text_meta::push_chars(out, chars_of(ts[0].as_str()).as_slice());
    assert(v.take(1) =~= seq![v[0]]);
    for i in 1..ts.len()
        invariant
            v == string_views(ts@),
            v.len() == ts@.len(),
            out@ == start + spec_join(v.take(i as int)),
    {
        push_char(out, ' ');
        crate::text_meta::push_chars(out, chars_of(ts[i].as_str()).as_slice());
        proof {
            assert(v.take(i + 1) =~= v.take(i as int).push(v[i as int]));
            lemma_join_push(v.take(i as int), v[i as int]);
        }
        assert(out@ =~= start + spec_join(v.take(i + 1)));
    }
    assert(v.take(ts@.len() as int) =~= v);
}

/// Appends the event line of an event (without a line end).
pub fn push_event_line(out: &mut String, e: &Event)
    ensures
        final(out)@ == old(out)@ + spec_event_line(*e),
{
    let mut ts: Vec<String> = Vec::new();
    let mut t0 = String::new();
    push_char(&mut t0, '#');
    push_dec(&mut t0, e.source_id as u64);
    ts.push(t0);
    let mut t1 = String::new();
    match e.cycle {
        Some(c) => {
            push_char(&mut t1, '@');
            push_dec(&mut t1, c);
        },
        None => {
            push_char(&mut t1, '-');
        },
    }
    ts.push(t1);
    let mut kt = kind_tokens(&e.kind);
    let ghost before = ts@;
    ts.append(&mut kt);
    assert(string_views(ts@) =~= spec_event_tokens(*e));
    push_joined(out, &ts);
}

} // verus!

verus! {

/// Splits characters at each space.
pub fn split_spaces(cs: &[char]) -> (ts: Vec<Vec<char>>)
    ensures
        ts.deep_view() == spec_split(cs@),
{
    let mut ts: Vec<Vec<char>> = Vec::new();
    let mut from: usize = 0;
    assert(cs@.skip(0) =~= cs@);
    loop
        invariant
            from <= cs@.len(),
            spec_split(cs@) == ts.deep_view() + spec_split(cs@.skip(from as int)),
        decreases cs@.len() - from,
    {
        let ghost s = cs@.skip(from as int);
        match find_char(cs, from, ' ') {
            None => {
                let t = vstd::slice::slice_to_vec(&cs[from..cs.len()]);
                assert(t@ =~= s);
                assert(t.deep_view() =~= s);
                let ghost before = ts.deep_view();
                ts.push(t);
                assert(ts.deep_view() =~= before + seq![s]);
                return ts;
            },
            Some(p) => {
                proof {
                    lemma_first_index_of(s, ' ');
                    let k = first_index_of(s, ' ')->0;
                    assert(k < s.len());
                    assert(s.len() == cs@.len() - from);
                    assert(p == from + k);
                }
                assert(from <= p < cs@.len());
                let t = vstd::slice::slice_to_vec(&cs[from..p]);
                assert(t@ =~= s.take(p - from));
                assert(t.deep_view() =~= s.take(p - from));
                let ghost before = ts.deep_view();
                ts.push(t);
                assert(s.skip(p - from + 1) =~= cs@.skip(p + 1));
                assert(ts.deep_view() =~= before + seq![s.take(p - from)]);
                assert(before + (seq![s.take(p - from)] + spec_split(cs@.skip(p + 1))) =~= ts.deep_view()
                    + spec_split(cs@.skip(p + 1)));
                assert(p < cs.len());
                from = p + 1;
            },
        }
    }
}

/// The error for a malformed number token.
fn number_error(t: &[char]) -> (e: Error)
    ensures
        reports_line_fault(e, LineFault::Number(t@)),
{
    Error::InvalidNumber(string_of_chars(t))
}

/// A hexadecimal argument.
fn hex_arg_exec(t: &[char]) -> (r: Result<u64, Error>)
    ensures
        match hex_arg(t@) {
            Ok(v) => r == Ok::<u64, Error>(v),
            Err(f) => r matches Err(e) && reports_line_fault(e, f),
        },
{
    match parse_hex(t) {
        Some(v) => Ok(v),
        None => Err(number_error(t)),
    }
}

/// A decimal argument with a value at most `max`.
fn dec_arg_exec(t: &[char], max: u64) -> (r: Result<u64, Error>)
    ensures
        match dec_arg(t@, max as nat) {
            Ok(v) => r == Ok::<u64, Error>(v as u64),
            Err(f) => r matches Err(e) && reports_line_fault(e, f),
        },
{
    match parse_dec(t, max) {
        Some(v) => Ok(v),
        None => Err(number_error(t)),
    }
}

/// Whether a token is the single character `c`.
fn is_single(t: &[char], c: char) -> (r: bool)
    ensures
        r == (t@ == seq![c]),
{
    let r = t.len() == 1 && t[0] == c;
    proof {
        if t@ == seq![c] {
            assert(t@[0] == c);
        }
        if r {
            assert(t@ =~= seq![c]);
        }
    }
    r
}

/// The code of a kind name.
fn kind_code_exec(name: &[char]) -> (r: Option<u8>)
    ensures
        match kind_code(name@) {
            Some(c) => r == Some(c as u8),
            None => r is None,
        },
{
    let mut code: u8 = 0;
    while code < 18
        invariant
            code <= 18,
            forall|d: nat| d < code ==> name@ != #[trigger] kind_name(d),
        decreases 18 - code,
    {
        let n = kind_name_string(code);
        let ncs = chars_of(n.as_str());
        if crate::text_meta::chars_eq(name, ncs.as_slice()) {
            return Some(code);
        }
        code = code + 1;
    }
    None
}

/// The event kind that a kind code and its argument tokens stand for.
fn parse_kind_exec(code: u8, args: &[Vec<char>]) -> (r: Result<EventKind, Error>)
    requires
        code < 18,
    ensures
        match spec_parse_kind(code as nat, args.deep_view()) {
            Ok(k) => r == Ok::<EventKind, Error>(k),
            Err(f) => r matches Err(e) && reports_line_fault(e, f),
        },
{
    let ghost a = args.deep_view();
    assert forall|i: int| 0 <= i < args@.len() implies a[i] == (#[trigger] args@[i])@ by {
        assert(args@[i].deep_view() =~= args@[i]@);
    }
    let n: usize = if code == 11 {
        0
    } else if code == 0 || code == 7 || code == 9 || code == 12 || code == 13 || code == 15
        || code == 17 {
        1
    } else if code <= 6 {
        2
    } else if code == 16 {
        4
    } else {
        3
    };
    if args.len() != n {
        return Err(crate::error::parse_error("wrong number of arguments"));
    }
    if code == 11 {
        return Ok(EventKind::Overflow);
    }
    if n == 1 {
        let v = hex_arg_exec(args[0].as_slice())?;
        return Ok(
            if code == 0 {
                EventKind::Sync { target: v }
            } else if code == 7 {
                EventKind::MemReadUnknownData { addr: v }
            } else if code == 9 {
                EventKind::MemWriteUnknownData { addr: v }
            } else if code == 12 {
                EventKind::Context { value: v }
            } else if code == 13 {
                EventKind::WallClock { value: v }
            } else if code == 15 {
                EventKind::Data { tag: v }
            } else {
                EventKind::LastPC { prev_pc: v }
            },
        );
    }
    if n == 2 {
        let o = hex_arg_exec(args[0].as_slice())?;
        let t = hex_arg_exec(args[1].as_slice())?;
        return Ok(
            if code == 1 {
                EventKind::Interrupt { origin: o, target: t }
            } else if code == 2 {
                EventKind::Rfi { origin: o, target: t }
            } else if code == 3 {
                EventKind::BranchTaken { origin: o, target: t }
            } else if code == 4 {
                EventKind::BranchNotTaken { origin: o, target: t }
            } else if code == 5 {
                EventKind::Call { origin: o, target: t }
            } else {
                EventKind::Return { origin: o, target: t }
            },
        );
    }
    if code == 8 || code == 10 {
        let w = dec_arg_exec(args[0].as_slice(), 255)?;
        let width = if w == 1 {
            AccessWidth::W1
        } else if w == 2 {
            AccessWidth::W2
        } else if w == 4 {
            AccessWidth::W4
        } else if w == 8 {
            AccessWidth::W8
        } else {
            return Err(Error::InvalidMemWidth(w as u8));
        };
        let addr = if is_single(args[1].as_slice(), '-') {
            None
        } else {
            Some(hex_arg_exec(args[1].as_slice())?)
        };
        let value = hex_arg_exec(args[2].as_slice())?;
        return Ok(
            if code == 8 {
                EventKind::MemRead { width, addr, value }
            } else {
                EventKind::MemWrite { width, addr, value }
            },
        );
    }
    if code == 14 {
        let i = dec_arg_exec(args[0].as_slice(), 255)?;
        if !(1 <= i && i <= 3) {
            return Err(Error::InvalidInfoIndex(i as u8));
        }
        let value1 = hex_arg_exec(args[1].as_slice())?;
        let value2 = hex_arg_exec(args[2].as_slice())?;
        let kind = if i == 1 {
            InfoKind::I1
        } else if i == 2 {
            InfoKind::I2
        } else {
            InfoKind::I3
        };
        return Ok(EventKind::Info { kind, value1, value2 });
    }
    let count = hex_arg_exec(args[0].as_slice())?;
    let k = dec_arg_exec(args[1].as_slice(), 255)?;
    if k > 3 {
        return Err(crate::error::parse_error("invalid counter kind"));
    }
    let region = dec_arg_exec(args[2].as_slice(), 255)?;
    let tag = dec_arg_exec(args[3].as_slice(), 0xffff)?;
    let kind = if k == 0 {
        CounterKind::InstructionFetchThreshold
    } else if k == 1 {
        CounterKind::DataReadThreshold
    } else if k == 2 {
        CounterKind::DataWrite
    } else {
        CounterKind::DataRead
    };
    Ok(EventKind::Counter { count, kind, region: region as u8, tag: tag as u16 })
}

/// Reads an event from the tokens of an event line.
fn parse_event_tokens(ts: &Vec<Vec<char>>) -> (r: Result<Event, Error>)
    ensures
        match spec_parse_event_tokens(ts.deep_view()) {
            Ok(e) => r == Ok::<Event, Error>(e),
            Err(f) => r matches Err(err) && reports_line_fault(err, f),
        },
{
    let ghost d = ts.deep_view();
    if ts.len() < 3 || ts[0].len() == 0 || ts[0][0] != '#' {
        return Err(crate::error::parse_error("expected '#<source id>'"));
    }
    assert(d[0] == ts@[0]@);
    let t0 = ts[0].as_slice();
    assert(t0@.subrange(1, t0@.len() as int) =~= d[0].skip(1));
    let id = dec_arg_exec(&t0[1..t0.len()], 255)?;
    let t1 = ts[1].as_slice();
    assert(d[1] == t1@);
    let cycle = if is_single(t1, '-') {
        None
    } else if t1.len() > 0 && t1[0] == '@' {
        assert(t1@.subrange(1, t1@.len() as int) =~= t1@.skip(1));
        Some(dec_arg_exec(&t1[1..t1.len()], u64::MAX)?)
    } else {
        return Err(crate::error::parse_error("expected '@<cycle>' or '-'"));
    };
    let t2 = ts[2].as_slice();
    assert(d[2] == t2@);
    let code = match kind_code_exec(t2) {
        Some(c) => c,
        None => {
            return Err(Error::UnknownEventKind(string_of_chars(t2)));
        },
    };
    let args = &ts.as_slice()[3..ts.len()];
    assert(args.deep_view() =~= d.skip(3));
    let kind = parse_kind_exec(code, args)?;
    Ok(Event { source_id: id as u8, kind, cycle })
}

/// Reads an event from an event line (see the module documentation for its
/// form). A line with fewer than three tokens, without `#` before the source
/// id, with a cycle token that is neither `@<cycle>` nor `-`, or with the
/// wrong number of arguments for its kind is a parse error; so is a counter
/// kind code above 3. An unknown kind name, a width other than 1, 2, 4 or 8,
/// an info index other than 1, 2 or 3, and a malformed number each have
/// their own error.
pub fn parse_event(s: &str) -> (r: Result<Event, Error>)
    ensures
        match spec_parse_event(s@) {
            Ok(e) => r == Ok::<Event, Error>(e),
            Err(f) => r matches Err(err) && reports_line_fault(err, f),
        },
{
    let cs = chars_of(s);
    let ts = split_spaces(cs.as_slice());
    parse_event_tokens(&ts)
}

} // verus!

verus! {

/// Joined tokens that hold no line end hold no line end.
pub proof fn lemma_join_single_line(ts: Seq<Seq<char>>)
    requires
        forall|i: int| 0 <= i < ts.len() ==> plain_token(#[trigger] ts[i]),
    ensures
        forall|j: int| 0 <= j < spec_join(ts).len() ==> spec_join(ts)[j] != '\n',
    decreases ts.len(),
{
    if ts.len() == 1 {
        assert(plain_token(ts[0]));
        assert(forall|j: int| 0 <= j < ts[0].len() ==> !is_whitespace(#[trigger] ts[0][j]));
        assert(is_whitespace('\n'));
    } else if ts.len() > 1 {
        let rest = ts.drop_first();
        assert forall|i: int| 0 <= i < rest.len() implies plain_token(#[trigger] rest[i]) by {
            assert(rest[i] == ts[i + 1]);
        }
        lemma_join_single_line(rest);
        assert(plain_token(ts[0]));
        let s = spec_join(ts);
        assert(is_whitespace('\n'));
        assert forall|j: int| 0 <= j < s.len() implies s[j] != '\n' by {
            if j > ts[0].len() {
                assert(s[j] == spec_join(rest)[j - ts[0].len() - 1]);
            } else if j < ts[0].len() {
                assert(s[j] == ts[0][j]);
            }
        }
    }
}

/// An event line is a single line, ending in a character that is not white space.
pub proof fn lemma_event_line_shape(e: Event)
    ensures
        spec_event_line(e).len() > 0,
        forall|j: int| 0 <= j < spec_event_line(e).len() ==> spec_event_line(e)[j] != '\n',
        !crate::text_meta::is_whitespace(spec_event_line(e).last()),
{
    let ts = spec_event_tokens(e);
    let kt = spec_kind_tokens(e.kind);
    lemma_kind_tokens_roundtrip(e.kind);
    lemma_kind_tokens_plain(e.kind);
    lemma_dec_arg(e.source_id as nat, 255);
    let t0 = seq!['#'] + spec_dec(e.source_id as nat);
    let ct = cycle_tok(e.cycle);
    match e.cycle {
        Some(c) => {
            lemma_dec_arg(c as nat, u64::MAX as nat);
        },
        None => {},
    }
    assert(plain_token(t0));
    assert(plain_token(ct));
    assert forall|i: int| 0 <= i < ts.len() implies plain_token(#[trigger] ts[i]) by {
        if i >= 2 {
            assert(ts[i] == kt[i - 2]);
        }
    }
    lemma_join_single_line(ts);
    lemma_join_last(ts);
    assert(plain_token(ts.last()));
    assert(!is_whitespace(ts.last()[ts.last().len() - 1]));
}

/// Joined tokens end with the end of the last token.
pub proof fn lemma_join_last(ts: Seq<Seq<char>>)
    requires
        ts.len() > 0,
        ts.last().len() > 0,
    ensures
        spec_join(ts).len() > 0,
        spec_join(ts).last() == ts.last().last(),
    decreases ts.len(),
{
    if ts.len() > 1 {
        lemma_join_last(ts.drop_first());
        assert(ts.drop_first().last() == ts.last());
    }
}

} // verus!

verus! {

/// Reads an event from a line once trailing white space (the line end among
/// it) is removed.
pub fn parse_trimmed_line(line: &str) -> (r: Result<Event, Error>)
    ensures
        match spec_parse_event(crate::text_meta::spec_trim_end(line@)) {
            Ok(e) => r == Ok::<Event, Error>(e),
            Err(f) => r matches Err(err) && reports_line_fault(err, f),
        },
{
    let cs = chars_of(line);
    let n = crate::text_meta::trim_end_len(cs.as_slice());
    let ts = split_spaces(&cs.as_slice()[0..n]);
    assert(cs@.subrange(0, n as int) =~= cs@.take(n as int));
    parse_event_tokens(&ts)
}

} // verus!
