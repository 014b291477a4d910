//! Text streams as bytes: lines of UTF-8 text, each ended by a line feed.
use vstd::prelude::*;
use vstd::utf8::{
    valid_utf8, encode_utf8, decode_utf8, encode_scalar, encode_utf8_valid_utf8,
    encode_utf8_decode_utf8, char_is_scalar, has_width_1_encoding, has_width_2_encoding,
    has_width_3_encoding, leading_byte_width_1,
};

use crate::error::{Error, Fault};
use crate::event::{Event, SourceModel};
use crate::text_meta::{
    first_index_of, lemma_first_index_of, lemma_first_index_after, spec_trim_end, is_whitespace,
    spec_header_line, spec_meta_line, spec_parse_meta_line, spec_escape, escape_char,
    spec_meta_entries_text, spec_meta_text_entry, lemma_meta_line_roundtrip,
    lemma_header_line_roundtrip, lemma_trim_line_end, lemma_meta_entries_text_front,
};
use crate::text_event::{
    LineFault, reports_line_fault, spec_parse_event, spec_event_line, lemma_event_line_roundtrip,
    lemma_event_line_shape,
};
use crate::text_num::{spec_dec, lemma_dec_digits, is_dec_digit};

verus! {

/// The UTF-8 encoding of joined characters is the joined encodings.
pub proof fn lemma_encode_utf8_concat(a: Seq<char>, b: Seq<char>)
    ensures
        encode_utf8(a + b) == encode_utf8(a) + encode_utf8(b),
    decreases a.len(),
{
    if a.len() == 0 {
        assert(a + b =~= b);
        assert(encode_utf8(a) =~= Seq::<u8>::empty());
        assert(encode_utf8(a) + encode_utf8(b) =~= encode_utf8(b));
    } else {
        lemma_encode_utf8_concat(a.drop_first(), b);
        assert((a + b).drop_first() =~= a.drop_first() + b);
        assert((a + b)[0] == a[0]);
        assert(encode_scalar(a[0] as u32) + (encode_utf8(a.drop_first()) + encode_utf8(b))
            =~= (encode_scalar(a[0] as u32) + encode_utf8(a.drop_first())) + encode_utf8(b));
    }
}

/// Only a line feed character is encoded with a line feed byte.
pub proof fn lemma_scalar_line_feed(c: char)
    ensures
        c == '\n' ==> encode_scalar(c as u32) == seq![10u8],
        c != '\n' ==> forall|j: int|
            0 <= j < encode_scalar(c as u32).len() ==> #[trigger] encode_scalar(c as u32)[j] != 10u8,
{
    char_is_scalar(c);
    let s = c as u32;
    if has_width_1_encoding(s) {
        assert(s <= 0x7f ==> (s & 0x7f) == s) by (bit_vector);
        assert(leading_byte_width_1(s) == s);
        if c == '\n' {
            assert(encode_scalar(s) =~= seq![10u8]);
        }
    } else {
        lemma_high_bit_not_line_feed(0xC0, ((s >> 6) & 0x1F) as u8);
        lemma_high_bit_not_line_feed(0xE0, ((s >> 12) & 0x0F) as u8);
        lemma_high_bit_not_line_feed(0xF0, ((s >> 18) & 0x7) as u8);
        lemma_high_bit_not_line_feed(0x80, (s & 0x3F) as u8);
        lemma_high_bit_not_line_feed(0x80, ((s >> 6) & 0x3F) as u8);
        lemma_high_bit_not_line_feed(0x80, ((s >> 12) & 0x3F) as u8);
    }
}

/// A byte with its top bit set is not a line feed.
proof fn lemma_high_bit_not_line_feed(x: u8, y: u8)
    by (bit_vector)
    requires
        x >= 0x80,
    ensures
        (x | y) != 10u8,
{
}

/// Characters without a line feed are encoded without a line feed byte.
pub proof fn lemma_encode_no_line_feed(l: Seq<char>)
    requires
        forall|j: int| 0 <= j < l.len() ==> #[trigger] l[j] != '\n',
    ensures
        forall|j: int| 0 <= j < encode_utf8(l).len() ==> #[trigger] encode_utf8(l)[j] != 10u8,
    decreases l.len(),
{
    if l.len() > 0 {
        lemma_encode_no_line_feed(l.drop_first());
        lemma_scalar_line_feed(l[0]);
        let e = encode_scalar(l[0] as u32);
        let r = encode_utf8(l.drop_first());
        assert(encode_utf8(l) == e + r);
        assert forall|j: int| 0 <= j < encode_utf8(l).len() implies encode_utf8(l)[j] != 10u8 by {
            if j < e.len() {
                assert(encode_utf8(l)[j] == e[j]);
            } else {
                assert(encode_utf8(l)[j] == r[j - e.len()]);
            }
        }
    }
}

/// The bytes of a text line: the UTF-8 encoding of its characters and a line feed.
pub open spec fn text_line_bytes(l: Seq<char>) -> Seq<u8> {
    encode_utf8(l.push('\n'))
}

/// The number of bytes of the next line: up to and including the next line
/// feed, or the rest of the input when no line feed follows.
pub open spec fn line_len(rem: Seq<u8>) -> nat {
    match first_index_of(rem, 10u8) {
        Some(k) => k + 1,
        None => rem.len(),
    }
}

/// The next line of input is one or more bytes and no more than there are.
pub proof fn lemma_line_len(rem: Seq<u8>)
    ensures
        rem.len() > 0 ==> 1 <= line_len(rem) <= rem.len(),
        rem.len() == 0 ==> line_len(rem) == 0,
{
    lemma_first_index_of(rem, 10u8);
}

/// A line of characters without a line feed is read back, line feed
/// included, as one line of input.
pub proof fn lemma_read_text_line(l: Seq<char>, rest: Seq<u8>)
    requires
        forall|j: int| 0 <= j < l.len() ==> l[j] != '\n',
    ensures
        line_len(text_line_bytes(l) + rest) == text_line_bytes(l).len(),
        (text_line_bytes(l) + rest).take(text_line_bytes(l).len() as int) == text_line_bytes(l),
        valid_utf8(text_line_bytes(l)),
        decode_utf8(text_line_bytes(l)) == l.push('\n'),
{
    lemma_encode_utf8_concat(l, seq!['\n']);
    assert(l + seq!['\n'] =~= l.push('\n'));
    lemma_scalar_line_feed('\n');
    assert(encode_utf8(seq!['\n']) =~= seq![10u8]) by {
        let n = seq!['\n'];
        assert(n.drop_first() =~= Seq::<char>::empty());
        assert(n[0] == '\n');
        assert(encode_utf8(n.drop_first()) =~= Seq::<u8>::empty());
        assert(encode_utf8(n) == encode_scalar(n[0] as u32) + encode_utf8(n.drop_first()));
    }
    lemma_encode_no_line_feed(l);
    let a = encode_utf8(l);
    assert(text_line_bytes(l) + rest =~= a + seq![10u8] + rest);
    lemma_first_index_after(a, 10u8, rest);
    assert((text_line_bytes(l) + rest).take(text_line_bytes(l).len() as int) =~= text_line_bytes(l));
    encode_utf8_valid_utf8(l.push('\n'));
    encode_utf8_decode_utf8(l.push('\n'));
}

/// How reading a text stream can fail at a line: bytes that are not valid
/// UTF-8, or an event line that does not parse.
pub enum TextFault {
    InvalidText,
    Line(LineFault),
}

/// The error reports the given text fault.
pub open spec fn reports_text_fault(e: Error, f: TextFault) -> bool {
    match f {
        TextFault::InvalidText => crate::error::reports(e, Fault::InvalidText),
        TextFault::Line(lf) => reports_line_fault(e, lf),
    }
}

/// The event that one line of input (line feed included) stands for.
pub open spec fn spec_text_item(lb: Seq<u8>) -> Result<Event, TextFault> {
    if !valid_utf8(lb) {
        Err(TextFault::InvalidText)
    } else {
        match spec_parse_event(spec_trim_end(decode_utf8(lb))) {
            Ok(e) => Ok(e),
            Err(f) => Err(TextFault::Line(f)),
        }
    }
}

/// Everything that reading events from the rest of a text stream yields,
/// one item per line, until the end of the input.
pub open spec fn spec_text_events(rem: Seq<u8>) -> Seq<Result<Event, TextFault>>
    decreases rem.len(),
{
    if rem.len() == 0 {
        seq![]
    } else {
        proof {
            lemma_line_len(rem);
        }
        let n = line_len(rem);
        seq![spec_text_item(rem.take(n as int))] + spec_text_events(rem.skip(n as int))
    }
}

/// The outcome of reading the header line and the metadata line from the
/// start of a text stream: the declared sources and the number of bytes read.
pub open spec fn spec_open_text(d: Seq<u8>) -> Result<(Seq<SourceModel>, nat), Fault> {
    let n1 = line_len(d);
    let l1 = d.take(n1 as int);
    if !valid_utf8(l1) {
        Err(Fault::InvalidText)
    } else if spec_trim_end(decode_utf8(l1)) != spec_header_line() {
        Err(Fault::Malformed)
    } else {
        let d2 = d.skip(n1 as int);
        let n2 = line_len(d2);
        let l2 = d2.take(n2 as int);
        if !valid_utf8(l2) {
            Err(Fault::InvalidText)
        } else {
            match spec_parse_meta_line(decode_utf8(l2)) {
                None => Err(Fault::Malformed),
                Some(ss) => Ok((ss, n1 + n2)),
            }
        }
    }
}

/// The header line and the metadata line of a text stream, as bytes.
pub open spec fn spec_text_preamble(ss: Seq<SourceModel>) -> Seq<u8> {
    text_line_bytes(spec_header_line()) + text_line_bytes(spec_meta_line(ss))
}

/// The event lines of a sequence of events, as bytes.
pub open spec fn spec_text_records(es: Seq<Event>) -> Seq<u8> {
    es.map_values(|e: Event| text_line_bytes(spec_event_line(e))).flatten()
}

/// A whole text stream: the preamble, then one line per event.
pub open spec fn spec_text_stream(ss: Seq<SourceModel>, es: Seq<Event>) -> Seq<u8> {
    spec_text_preamble(ss) + spec_text_records(es)
}

/// No source name holds a line feed.
pub open spec fn names_single_line(ss: Seq<SourceModel>) -> bool {
    forall|i: int, j: int| 0 <= i < ss.len() && 0 <= j < ss[i].name.len() ==> #[trigger] ss[i].name[j] != '\n'
}

/// The successful reads of a sequence of events.
pub open spec fn all_text_ok(es: Seq<Event>) -> Seq<Result<Event, TextFault>> {
    es.map_values(|e: Event| Ok::<Event, TextFault>(e))
}

} // verus!

verus! {

/// The characters hold no line feed.
pub open spec fn single_line(l: Seq<char>) -> bool {
    forall|j: int| 0 <= j < l.len() ==> #[trigger] l[j] != '\n'
}

/// Joined single lines are a single line.
pub proof fn lemma_single_line_concat(a: Seq<char>, b: Seq<char>)
    requires
        single_line(a),
        single_line(b),
    ensures
        single_line(a + b),
{
    assert forall|j: int| 0 <= j < (a + b).len() implies #[trigger] (a + b)[j] != '\n' by {
        if j < a.len() {
            assert((a + b)[j] == a[j]);
        } else {
            assert((a + b)[j] == b[j - a.len()]);
        }
    }
}

/// Escaping a name without line feeds adds none.
pub proof fn lemma_escape_single_line(name: Seq<char>)
    requires
        single_line(name),
    ensures
        single_line(spec_escape(name)),
    decreases name.len(),
{
    let f = |c: char| escape_char(c);
    if name.len() == 0 {
        assert(name.map_values(f) =~= Seq::<Seq<char>>::empty());
        assert(spec_escape(name) =~= Seq::<char>::empty());
    } else {
        let rest = name.drop_first();
        assert forall|j: int| 0 <= j < rest.len() implies #[trigger] rest[j] != '\n' by {
            assert(rest[j] == name[j + 1]);
        }
        lemma_escape_single_line(rest);
        let m = name.map_values(f);
        assert(m.drop_first() =~= rest.map_values(f));
        assert(spec_escape(name) == m.first() + m.drop_first().flatten());
        assert(name[0] != '\n');
        let e = escape_char(name[0]);
        assert(single_line(e));
        lemma_single_line_concat(e, spec_escape(rest));
    }
}

/// The metadata line of sources whose names hold no line feed is a single
/// line, ending in a character that is not white space.
pub proof fn lemma_meta_line_single_line(ss: Seq<SourceModel>)
    requires
        names_single_line(ss),
    ensures
        single_line(spec_meta_line(ss)),
{
    lemma_meta_entries_single_line(ss);
    let p = seq!['M', 'E', 'T', 'A', ':'];
    assert(single_line(p));
    lemma_single_line_concat(p, spec_meta_entries_text(ss));
}

/// The metadata entries of sources whose names hold no line feed hold none.
pub proof fn lemma_meta_entries_single_line(ss: Seq<SourceModel>)
    requires
        names_single_line(ss),
    ensures
        single_line(spec_meta_entries_text(ss)),
    decreases ss.len(),
{
    if ss.len() > 0 {
        let x = ss[0];
        assert forall|j: int| 0 <= j < x.name.len() implies #[trigger] x.name[j] != '\n' by {
            assert(ss[0].name[j] != '\n');
        }
        lemma_escape_single_line(x.name);
        lemma_dec_digits(x.id as nat);
        let d = spec_dec(x.id as nat);
        assert forall|j: int| 0 <= j < d.len() implies #[trigger] d[j] != '\n' by {
            assert(is_dec_digit(d[j]));
        }
        lemma_single_line_concat(seq!['#'], d);
        lemma_single_line_concat(seq!['#'] + d, seq!['=', '"']);
        lemma_single_line_concat(seq!['#'] + d + seq!['=', '"'], spec_escape(x.name));
        lemma_single_line_concat(seq!['#'] + d + seq!['=', '"'] + spec_escape(x.name), seq!['"']);
        lemma_meta_entries_text_front(ss);
        if ss.len() > 1 {
            let rest = ss.drop_first();
            assert forall|i: int, j: int|
                0 <= i < rest.len() && 0 <= j < rest[i].name.len() implies #[trigger] rest[i].name[j]
                != '\n' by {
                assert(rest[i] == ss[i + 1]);
            }
            lemma_meta_entries_single_line(rest);
            lemma_single_line_concat(seq![','], spec_meta_entries_text(rest));
            lemma_single_line_concat(
                spec_meta_text_entry(x),
                seq![','] + spec_meta_entries_text(rest),
            );
        } else {
            assert(spec_meta_text_entry(x) + Seq::<char>::empty() =~= spec_meta_text_entry(x));
        }
    }
}

/// The preamble of sources whose names hold no line feed reads back as those
/// sources, whatever follows it.
pub proof fn lemma_text_preamble_roundtrip(ss: Seq<SourceModel>, rest: Seq<u8>)
    requires
        names_single_line(ss),
    ensures
        spec_open_text(spec_text_preamble(ss) + rest) == Ok::<(Seq<SourceModel>, nat), Fault>(
            (ss, spec_text_preamble(ss).len()),
        ),
{
    let h = spec_header_line();
    let m = spec_meta_line(ss);
    assert(single_line(h));
    lemma_meta_line_single_line(ss);
    let d = spec_text_preamble(ss) + rest;
    let hb = text_line_bytes(h);
    let mb = text_line_bytes(m);
    assert(d =~= hb + (mb + rest));
    lemma_read_text_line(h, mb + rest);
    lemma_header_line_roundtrip();
    assert(d.skip(hb.len() as int) =~= mb + rest);
    lemma_read_text_line(m, rest);
    lemma_meta_line_roundtrip(ss);
}

/// Reading the event lines written for events gives back exactly those events.
pub proof fn lemma_text_records_roundtrip(es: Seq<Event>)
    ensures
        spec_text_events(spec_text_records(es)) == all_text_ok(es),
    decreases es.len(),
{
    let f = |e: Event| text_line_bytes(spec_event_line(e));
    if es.len() == 0 {
        assert(es.map_values(f) =~= Seq::<Seq<u8>>::empty());
        assert(spec_text_records(es) =~= Seq::<u8>::empty());
        assert(all_text_ok(es) =~= seq![]);
    } else {
        let rest = es.drop_first();
        lemma_text_records_roundtrip(rest);
        let m = es.map_values(f);
        assert(m.drop_first() =~= rest.map_values(f));
        let r = spec_text_records(es);
        let lb = text_line_bytes(spec_event_line(es[0]));
        assert(r == m.first() + m.drop_first().flatten());
        assert(r =~= lb + spec_text_records(rest));
        lemma_event_line_shape(es[0]);
        lemma_read_text_line(spec_event_line(es[0]), spec_text_records(rest));
        assert(r.skip(lb.len() as int) =~= spec_text_records(rest));
        lemma_trim_line_end(spec_event_line(es[0]));
        lemma_event_line_roundtrip(es[0]);
        assert(r.len() > 0);
        assert(all_text_ok(es) =~= seq![Ok::<Event, TextFault>(es[0])] + all_text_ok(rest));
    }
}

/// A text stream written for sources whose names hold no line feed reads
/// back as those sources, followed by exactly the events written.
pub proof fn lemma_text_stream_roundtrip(ss: Seq<SourceModel>, es: Seq<Event>)
    requires
        names_single_line(ss),
    ensures
        spec_open_text(spec_text_stream(ss, es)) == Ok::<(Seq<SourceModel>, nat), Fault>(
            (ss, spec_text_preamble(ss).len()),
        ),
        spec_text_events(spec_text_stream(ss, es).skip(spec_text_preamble(ss).len() as int))
            == all_text_ok(es),
{
    lemma_text_preamble_roundtrip(ss, spec_text_records(es));
    lemma_text_records_roundtrip(es);
    assert(spec_text_stream(ss, es).skip(spec_text_preamble(ss).len() as int) =~= spec_text_records(
        es,
    ));
}

} // verus!
