//! Encoders: the bytes written for a set of sources and a sequence of events,
//! in either wire format.
use vstd::prelude::*;

use crate::binary_format::{spec_record, spec_binary_preamble, write_header, write_metadata, encode_record};
use crate::bytes::push_all;
use crate::error::Error;
use crate::event::{Event, EventKind, Source, SourceModel};
use crate::text_event::{spec_event_line, push_event_line};
use crate::text_meta::{spec_header_line, spec_meta_line, header_line_chars, push_chars, push_meta_line};
use crate::text_num::push_char;
use crate::text_stream::{text_line_bytes, spec_text_preamble};
use crate::utf8::utf8_bytes;

verus! {

/// The two wire formats.
#[derive(Debug, Clone, Copy, PartialEq, Eq)]
pub enum Format {
    Binary,
    Text,
}

/// The bytes that encode one event in a format.
pub open spec fn spec_event_bytes(f: Format, e: Event) -> Seq<u8> {
    match f {
        Format::Binary => spec_record(e),
        Format::Text => text_line_bytes(spec_event_line(e)),
    }
}

/// The bytes that a stream in a format holds before its first event.
pub open spec fn spec_preamble(f: Format, ss: Seq<SourceModel>) -> Seq<u8> {
    match f {
        Format::Binary => spec_binary_preamble(ss),
        Format::Text => spec_text_preamble(ss),
    }
}

/// Some source has the id.
pub open spec fn declares(ss: Seq<SourceModel>, id: u8) -> bool {
    exists|i: int| 0 <= i < ss.len() && (#[trigger] ss[i]).id == id
}

/// Writing events one after the other, stopping at the first whose source is
/// not declared: the bytes written, and the id of that source if there is one.
pub open spec fn spec_write_events(f: Format, ss: Seq<SourceModel>, es: Seq<Event>) -> (
    Seq<u8>,
    Option<u8>,
)
    decreases es.len(),
{
    if es.len() == 0 {
        (seq![], None)
    } else {
        let (b, stop) = spec_write_events(f, ss, es.drop_last());
        if stop is Some {
            (b, stop)
        } else if declares(ss, es.last().source_id) {
            (b + spec_event_bytes(f, es.last()), None)
        } else {
            (b, Some(es.last().source_id))
        }
    }
}

/// Whether one of the sources has the id.
pub fn has_source(sources: &[Source], id: u8) -> (r: bool)
    ensures
        r == declares(sources.deep_view(), id),
{
    let ghost ss = sources.deep_view();
    for i in 0..sources.len()
        invariant
            ss == sources.deep_view(),
            forall|j: int| 0 <= j < i ==> ss[j].id != id,
    {
        if sources[i].id == id {
            assert(ss[i as int].id == id);
            return true;
        }
    }
    false
}

/// A copy of the sources.
pub fn copy_sources(sources: &[Source]) -> (r: Vec<Source>)
    ensures
        r.deep_view() == sources.deep_view(),
{
    let mut r: Vec<Source> = Vec::new();
    for i in 0..sources.len()
        invariant
            r.deep_view() == sources.deep_view().take(i as int),
    {
        let ghost before = r.deep_view();
        let name = sources[i].name.clone();
        r.push(Source { id: sources[i].id, name });
        assert(sources.deep_view()[i as int] == sources@[i as int].deep_view());
        assert(r.deep_view() =~= before.push(sources@[i as int].deep_view()));
        assert(r.deep_view() =~= sources.deep_view().take(i + 1));
    }
    assert(sources.deep_view().take(sources.len() as int) =~= sources.deep_view());
    r
}

/// Encodes events to an output stream in one wire format. The encoded bytes
/// gather in the encoder until [`Encode::flush`] hands them out.
pub trait Encode {
    /// The wire format written.
    spec fn wire_format(&self) -> Format;

    /// The declared sources.
    spec fn declared(&self) -> Seq<SourceModel>;

    /// The bytes encoded and not yet handed out.
    spec fn pending(&self) -> Seq<u8>;

    /// Encodes one event; an event whose source was not declared is refused
    /// and nothing is written.
    fn write_event(&mut self, event: &Event) -> (r: Result<(), Error>)
        ensures
            final(self).wire_format() == old(self).wire_format(),
            final(self).declared() == old(self).declared(),
            declares(old(self).declared(), event.source_id) ==> r is Ok && final(self).pending()
                == old(self).pending() + spec_event_bytes(old(self).wire_format(), *event),
            !declares(old(self).declared(), event.source_id) ==> r == Err::<(), Error>(
                Error::UnknownSource(event.source_id),
            ) && final(self).pending() == old(self).pending(),
    ;

    /// Hands out the bytes encoded so far.
    fn flush(&mut self) -> (out: Vec<u8>)
        ensures
            out@ == old(self).pending(),
            final(self).pending() == Seq::<u8>::empty(),
            final(self).wire_format() == old(self).wire_format(),
            final(self).declared() == old(self).declared(),
    ;

    /// Encodes the events in order, stopping at the first whose source is not
    /// declared; once every event is encoded, hands out all pending bytes, as
    /// [`Encode::flush`] does. After a refused event nothing is handed out.
    fn write_events(&mut self, events: &[Event]) -> (r: Result<Vec<u8>, Error>)
        ensures
            final(self).wire_format() == old(self).wire_format(),
            final(self).declared() == old(self).declared(),
            match spec_write_events(old(self).wire_format(), old(self).declared(), events@) {
                (b, None) => r matches Ok(out) && out@ == old(self).pending() + b
                    && final(self).pending() == Seq::<u8>::empty(),
                (b, Some(id)) => r == Err::<Vec<u8>, Error>(Error::UnknownSource(id))
                    && final(self).pending() == old(self).pending() + b,
            },
    {
        let ghost f = self.wire_format();
        let ghost ss = self.declared();
        let ghost start = self.pending();
        assert(events@.take(0) =~= Seq::<Event>::empty());
        for i in 0..events.len()
            invariant
                f == old(self).wire_format(),
                ss == old(self).declared(),
                start == old(self).pending(),
                self.wire_format() == f,
                self.declared() == ss,
                self.pending() == start + spec_write_events(f, ss, events@.take(i as int)).0,
                spec_write_events(f, ss, events@.take(i as int)).1 is None,
        {
            let r = self.write_event(&events[i]);
            assert(events@.take(i + 1).drop_last() =~= events@.take(i as int));
            assert(events@.take(i + 1).last() == events@[i as int]);
            match r {
                Ok(()) => {
                    assert(self.pending() =~= start + spec_write_events(
                        f,
                        ss,
                        events@.take(i + 1),
                    ).0);
                },
                Err(e) => {
                    proof {
                        lemma_write_events_stop(f, ss, events@, i as int);
                    }
                    return Err(e);
                },
            }
        }
        assert(events@.take(events@.len() as int) =~= events@);
        let out = self.flush();
        Ok(out)
    }
}

/// Once writing stops at an event, the events after it change nothing.
pub proof fn lemma_write_events_stop(f: Format, ss: Seq<SourceModel>, es: Seq<Event>, i: int)
    requires
        0 <= i < es.len(),
        spec_write_events(f, ss, es.take(i)).1 is None,
        !declares(ss, es[i].source_id),
    ensures
        spec_write_events(f, ss, es) == (spec_write_events(f, ss, es.take(i)).0, Some(es[i].source_id)),
    decreases es.len(),
{
    if es.len() == i + 1 {
        assert(es.drop_last() =~= es.take(i));
    } else {
        assert(es.drop_last().take(i) =~= es.take(i));
        assert(es.drop_last()[i] == es[i]);
        lemma_write_events_stop(f, ss, es.drop_last(), i);
    }
}

/// Marks a source handle obtained from a [`BinaryEncoder`].
pub struct BinaryEncoderTag;

/// Marks a source handle obtained from a [`TextEncoder`].
pub struct TextEncoderTag;

/// Marks a source handle obtained from an [`Encoder`].
pub struct EncoderTag;

/// A handle scoped to one source: every event written through it carries
/// that source's id. The tag records which kind of encoder issued it.
pub struct SourceHandle<M> {
    source_id: u8,
    tag: M,
}

impl<M> SourceHandle<M> {
    /// The id of the source that this handle writes for.
    pub closed spec fn id(&self) -> u8 {
        self.source_id
    }

    /// The id of the source that this handle writes for.
    pub fn source_id(&self) -> (r: u8)
        ensures
            r == self.id(),
    {
        self.source_id
    }

    /// Writes an event of this handle's source: the same as writing the event
    /// with this handle's source id directly to the encoder.
    pub fn write_event<E: Encode>(&self, enc: &mut E, kind: EventKind, cycle: Option<u64>) -> (r:
        Result<(), Error>)
        ensures
            final(enc).wire_format() == old(enc).wire_format(),
            final(enc).declared() == old(enc).declared(),
            declares(old(enc).declared(), self.id()) ==> r is Ok && final(enc).pending() == old(
                enc,
            ).pending() + spec_event_bytes(
                old(enc).wire_format(),
                Event { source_id: self.id(), kind, cycle },
            ),
            !declares(old(enc).declared(), self.id()) ==> r == Err::<(), Error>(
                Error::UnknownSource(self.id()),
            ) && final(enc).pending() == old(enc).pending(),
    {
        enc.write_event(&Event { source_id: self.source_id, kind, cycle })
    }

    /// Writes events of this handle's source in order, stopping at the first
    /// error; nothing is handed out.
    pub fn write_events<E: Encode>(&self, enc: &mut E, events: &[(EventKind, Option<u64>)]) -> (r:
        Result<(), Error>)
        ensures
            final(enc).wire_format() == old(enc).wire_format(),
            final(enc).declared() == old(enc).declared(),
            final(enc).pending() == old(enc).pending() + spec_write_events(
                old(enc).wire_format(),
                old(enc).declared(),
                stamped(self.id(), events@),
            ).0,
            match spec_write_events(
                old(enc).wire_format(),
                old(enc).declared(),
                stamped(self.id(), events@),
            ).1 {
                None => r is Ok,
                Some(id) => r == Err::<(), Error>(Error::UnknownSource(id)),
            },
    {
        let ghost f = enc.wire_format();
        let ghost ss = enc.declared();
        let ghost start = enc.pending();
        let ghost es = stamped(self.id(), events@);
        assert(es.take(0) =~= Seq::<Event>::empty());
        for i in 0..events.len()
            invariant
                f == old(enc).wire_format(),
                ss == old(enc).declared(),
                start == old(enc).pending(),
                es == stamped(self.id(), events@),
                es.len() == events@.len(),
                enc.wire_format() == f,
                enc.declared() == ss,
                enc.pending() == start + spec_write_events(f, ss, es.take(i as int)).0,
                spec_write_events(f, ss, es.take(i as int)).1 is None,
        {
            let (kind, cycle) = events[i];
            let r = self.write_event(enc, kind, cycle);
            assert(es[i as int] == Event { source_id: self.id(), kind, cycle });
            assert(es.take(i + 1).drop_last() =~= es.take(i as int));
            assert(es.take(i + 1).last() == es[i as int]);
            match r {
                Ok(()) => {
                    assert(enc.pending() =~= start + spec_write_events(f, ss, es.take(i + 1)).0);
                },
                Err(e) => {
                    proof {
                        lemma_write_events_stop(f, ss, es, i as int);
                    }
                    return Err(e);
                },
            }
        }
        assert(es.take(es.len() as int) =~= es);
        Ok(())
    }
}

/// Events of one source made from kinds and timestamps.
pub open spec fn stamped(id: u8, items: Seq<(EventKind, Option<u64>)>) -> Seq<Event> {
    items.map_values(|p: (EventKind, Option<u64>)| Event { source_id: id, kind: p.0, cycle: p.1 })
}

/// Appends a text line and its line feed as UTF-8 bytes.
fn push_text_line(out: &mut Vec<u8>, line: &mut String)
    ensures
        final(out)@ == old(out)@ + text_line_bytes(old(line)@),
{
    push_char(line, '\n');
    push_all(out, utf8_bytes(line));
}

/// Appends the preamble of a stream in a format.
fn write_preamble(f: Format, sources: &[Source], out: &mut Vec<u8>)
    ensures
        final(out)@ == old(out)@ + spec_preamble(f, sources.deep_view()),
{
    match f {
        Format::Binary => {
            write_header(out);
            write_metadata(sources, out);
            assert(final(out)@ =~= old(out)@ + spec_preamble(f, sources.deep_view()));
        },
        Format::Text => {
            let mut h = String::new();
            push_chars(&mut h, header_line_chars().as_slice());
            push_text_line(out, &mut h);
            let mut m = String::new();
            push_meta_line(&mut m, sources);
            push_text_line(out, &mut m);
            assert(final(out)@ =~= old(out)@ + spec_preamble(f, sources.deep_view()));
        },
    }
}

/// Appends the bytes of an event in a format.
fn write_event_bytes(f: Format, event: &Event, out: &mut Vec<u8>)
    ensures
        final(out)@ == old(out)@ + spec_event_bytes(f, *event),
{
    match f {
        Format::Binary => encode_record(event, out),
        Format::Text => {
            let mut line = String::new();
            push_event_line(&mut line, event);
            push_text_line(out, &mut line);
        },
    }
}

} // verus!

verus! {

/// Encodes an event into `out` when its source is declared.
fn write_declared_event(f: Format, sources: &[Source], out: &mut Vec<u8>, event: &Event) -> (r:
    Result<(), Error>)
    ensures
        declares(sources.deep_view(), event.source_id) ==> r is Ok && final(out)@ == old(out)@
            + spec_event_bytes(f, *event),
        !declares(sources.deep_view(), event.source_id) ==> r == Err::<(), Error>(
            Error::UnknownSource(event.source_id),
        ) && final(out)@ == old(out)@,
{
    if !has_source(sources, event.source_id) {
        return Err(Error::UnknownSource(event.source_id));
    }
    write_event_bytes(f, event, out);
    Ok(())
}

/// Takes the pending bytes out of the buffer.
fn take_bytes(out: &mut Vec<u8>) -> (r: Vec<u8>)
    ensures
        r@ == old(out)@,
        final(out)@ == Seq::<u8>::empty(),
{
    let mut r: Vec<u8> = Vec::new();
    r.append(out);
    r
}

/// A streaming encoder for the binary format: a header and a metadata
/// section that declares the sources, then one 26-byte record per event.
pub struct BinaryEncoder {
    sources: Vec<Source>,
    out: Vec<u8>,
}

impl BinaryEncoder {
    /// Declares the sources; the header and metadata are written at once.
    pub fn new(sources: &[Source]) -> (r: Self)
        ensures
            r.wire_format() == Format::Binary,
            r.declared() == sources.deep_view(),
            r.pending() == spec_binary_preamble(sources.deep_view()),
    {
        let mut out: Vec<u8> = Vec::new();
        write_preamble(Format::Binary, sources, &mut out);
        assert(out@ =~= spec_binary_preamble(sources.deep_view()));
        BinaryEncoder { sources: copy_sources(sources), out }
    }

    /// A handle scoped to a declared source; an undeclared id is refused.
    pub fn source(&self, source_id: u8) -> (r: Result<SourceHandle<BinaryEncoderTag>, Error>)
        ensures
            declares(self.declared(), source_id) ==> (r matches Ok(h) && h.id() == source_id),
            !declares(self.declared(), source_id) ==> r == Err::<SourceHandle<BinaryEncoderTag>, Error>(
                Error::UnknownSource(source_id),
            ),
    {
        if !has_source(self.sources.as_slice(), source_id) {
            return Err(Error::UnknownSource(source_id));
        }
        Ok(SourceHandle { source_id, tag: BinaryEncoderTag })
    }
}

impl Encode for BinaryEncoder {
    open spec fn wire_format(&self) -> Format {
        Format::Binary
    }

    closed spec fn declared(&self) -> Seq<SourceModel> {
        self.sources.deep_view()
    }

    closed spec fn pending(&self) -> Seq<u8> {
        self.out@
    }

    fn write_event(&mut self, event: &Event) -> (r: Result<(), Error>) {
        write_declared_event(Format::Binary, self.sources.as_slice(), &mut self.out, event)
    }

    fn flush(&mut self) -> (out: Vec<u8>) {
        take_bytes(&mut self.out)
    }
}

/// A streaming encoder for the text format: a header line and a metadata
/// line that declares the sources, then one line per event.
pub struct TextEncoder {
    sources: Vec<Source>,
    out: Vec<u8>,
}

impl TextEncoder {
    /// Declares the sources; the header and metadata lines are written at once.
    pub fn new(sources: &[Source]) -> (r: Self)
        ensures
            r.wire_format() == Format::Text,
            r.declared() == sources.deep_view(),
            r.pending() == spec_text_preamble(sources.deep_view()),
    {
        let mut out: Vec<u8> = Vec::new();
        write_preamble(Format::Text, sources, &mut out);
        assert(out@ =~= spec_text_preamble(sources.deep_view()));
        TextEncoder { sources: copy_sources(sources), out }
    }

    /// A handle scoped to a declared source; an undeclared id is refused.
    pub fn source(&self, source_id: u8) -> (r: Result<SourceHandle<TextEncoderTag>, Error>)
        ensures
            declares(self.declared(), source_id) ==> (r matches Ok(h) && h.id() == source_id),
            !declares(self.declared(), source_id) ==> r == Err::<SourceHandle<TextEncoderTag>, Error>(
                Error::UnknownSource(source_id),
            ),
    {
        if !has_source(self.sources.as_slice(), source_id) {
            return Err(Error::UnknownSource(source_id));
        }
        Ok(SourceHandle { source_id, tag: TextEncoderTag })
    }
}

impl Encode for TextEncoder {
    open spec fn wire_format(&self) -> Format {
        Format::Text
    }

    closed spec fn declared(&self) -> Seq<SourceModel> {
        self.sources.deep_view()
    }

    closed spec fn pending(&self) -> Seq<u8> {
        self.out@
    }

    fn write_event(&mut self, event: &Event) -> (r: Result<(), Error>) {
        write_declared_event(Format::Text, self.sources.as_slice(), &mut self.out, event)
    }

    fn flush(&mut self) -> (out: Vec<u8>) {
        take_bytes(&mut self.out)
    }
}

/// An encoder for either wire format, chosen at construction.
pub struct Encoder {
    format: Format,
    sources: Vec<Source>,
    out: Vec<u8>,
}

impl Encoder {
    /// Declares the sources; the preamble of the chosen format is written at once.
    pub fn new(sources: &[Source], format: Format) -> (r: Self)
        ensures
            r.wire_format() == format,
            r.declared() == sources.deep_view(),
            r.pending() == spec_preamble(format, sources.deep_view()),
    {
        let mut out: Vec<u8> = Vec::new();
        write_preamble(format, sources, &mut out);
        assert(out@ =~= spec_preamble(format, sources.deep_view()));
        Encoder { format, sources: copy_sources(sources), out }
    }

    /// The declared sources.
    pub fn sources(&self) -> (r: &[Source])
        ensures
            r.deep_view() == self.declared(),
    {
        self.sources.as_slice()
    }

    /// A handle scoped to a declared source; an undeclared id is refused.
    pub fn source(&self, source_id: u8) -> (r: Result<SourceHandle<EncoderTag>, Error>)
        ensures
            declares(self.declared(), source_id) ==> (r matches Ok(h) && h.id() == source_id),
            !declares(self.declared(), source_id) ==> r == Err::<SourceHandle<EncoderTag>, Error>(
                Error::UnknownSource(source_id),
            ),
    {
        if !has_source(self.sources.as_slice(), source_id) {
            return Err(Error::UnknownSource(source_id));
        }
        Ok(SourceHandle { source_id, tag: EncoderTag })
    }
}

impl Encode for Encoder {
    closed spec fn wire_format(&self) -> Format {
        self.format
    }

    closed spec fn declared(&self) -> Seq<SourceModel> {
        self.sources.deep_view()
    }

    closed spec fn pending(&self) -> Seq<u8> {
        self.out@
    }

    fn write_event(&mut self, event: &Event) -> (r: Result<(), Error>) {
        write_declared_event(self.format, self.sources.as_slice(), &mut self.out, event)
    }

    fn flush(&mut self) -> (out: Vec<u8>) {
        take_bytes(&mut self.out)
    }
}

} // verus!
