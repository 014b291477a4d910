//! What a decoder reads back of what an encoder wrote, in either format.
use vstd::prelude::*;
use vstd::seq_lib::lemma_flatten_concat;

use crate::binary_format::{
    binary_faithful, meta_encodable, spec_binary_events, spec_records, all_ok,
    lemma_binary_stream_roundtrip, spec_binary_stream,
};
use crate::codec::{Format, declares, spec_event_bytes, spec_preamble, spec_write_events};
use crate::decoding::{ItemFault, spec_items, spec_next_item, spec_open, open_panics};
use crate::error::Fault;
use crate::event::{Event, SourceModel};
use crate::text_stream::{
    TextFault, spec_text_item, all_text_ok, names_single_line, spec_text_events, spec_text_records, line_len, lemma_line_len,
    lemma_text_stream_roundtrip, spec_text_stream,
};

verus! {

/// The encodings of the events, one after the other.
pub open spec fn spec_events_bytes(f: Format, es: Seq<Event>) -> Seq<u8> {
    es.map_values(|e: Event| spec_event_bytes(f, e)).flatten()
}

/// The successful reads of a sequence of events.
pub open spec fn ok_items(es: Seq<Event>) -> Seq<Result<Event, ItemFault>> {
    es.map_values(|e: Event| Ok::<Event, ItemFault>(e))
}

/// What a stream must hold to be read back as written: in the binary format,
/// sources whose metadata entries fit their length fields and events whose
/// kinds a record carries without loss; in the text format, source names
/// without a line feed.
pub open spec fn round_trips(f: Format, ss: Seq<SourceModel>, es: Seq<Event>) -> bool {
    match f {
        Format::Binary => meta_encodable(ss) && forall|i: int|
            0 <= i < es.len() ==> binary_faithful(#[trigger] es[i].kind),
        Format::Text => names_single_line(ss),
    }
}

/// Writing events whose sources are all declared writes every one of them.
pub proof fn lemma_write_events_declared(f: Format, ss: Seq<SourceModel>, es: Seq<Event>)
    requires
        forall|i: int| 0 <= i < es.len() ==> declares(ss, (#[trigger] es[i]).source_id),
    ensures
        spec_write_events(f, ss, es) == (spec_events_bytes(f, es), None::<u8>),
    decreases es.len(),
{
    let g = |e: Event| spec_event_bytes(f, e);
    if es.len() == 0 {
        assert(es.map_values(g) =~= Seq::<Seq<u8>>::empty());
    } else {
        let init = es.drop_last();
        assert forall|i: int| 0 <= i < init.len() implies declares(ss, (#[trigger] init[i]).source_id) by {
            assert(init[i] == es[i]);
        }
        lemma_write_events_declared(f, ss, init);
        assert(declares(ss, es[es.len() - 1].source_id));
        assert(es.map_values(g) =~= init.map_values(g) + seq![g(es.last())]);
        lemma_flatten_concat(init.map_values(g), seq![g(es.last())]);
        seq![g(es.last())].lemma_flatten_one_element();
        assert(seq![g(es.last())].drop_first() =~= Seq::<Seq<u8>>::empty());
    }
}

/// Reading events from bytes that read back, record by record, as the events.
proof fn lemma_items_binary(rem: Seq<u8>, es: Seq<Event>)
    requires
        spec_binary_events(rem) == all_ok(es),
    ensures
        spec_items(Format::Binary, rem) == ok_items(es),
    decreases rem.len(),
{
    if rem.len() == 0 {
        assert(all_ok(es).len() == 0);
        assert(ok_items(es) =~= Seq::<Result<Event, ItemFault>>::empty());
    } else if rem.len() < 26 {
        assert(spec_binary_events(rem) == seq![Err::<Event, Fault>(Fault::Truncated)]);
        assert(all_ok(es)[0] == Ok::<Event, Fault>(es[0]));
    } else {
        assert(all_ok(es)[0] == spec_binary_events(rem)[0]);
        assert(spec_binary_events(rem.skip(26)) =~= all_ok(es.skip(1))) by {
            assert(spec_binary_events(rem) =~= seq![spec_binary_events(rem)[0]]
                + spec_binary_events(rem.skip(26)));
            assert forall|i: int| 0 <= i < es.len() - 1 implies spec_binary_events(rem.skip(26))[i]
                == all_ok(es.skip(1))[i] by {
                assert(all_ok(es).len() == es.len());
                assert(spec_binary_events(rem)[i + 1] == spec_binary_events(rem.skip(26))[i]);
                assert(spec_binary_events(rem)[i + 1] == all_ok(es)[i + 1]);
                assert(all_ok(es.skip(1))[i] == Ok::<Event, Fault>(es[i + 1]));
            }
        }
        lemma_items_binary(rem.skip(26), es.skip(1));
        assert(ok_items(es) =~= seq![Ok::<Event, ItemFault>(es[0])] + ok_items(es.skip(1)));
    }
}

/// Reading events from bytes that read back, line by line, as the events.
proof fn lemma_items_text(rem: Seq<u8>, es: Seq<Event>)
    requires
        spec_text_events(rem) == all_text_ok(es),
    ensures
        spec_items(Format::Text, rem) == ok_items(es),
    decreases rem.len(),
{
    lemma_line_len(rem);
    if rem.len() == 0 {
        assert(all_text_ok(es).len() == 0);
        assert(ok_items(es) =~= Seq::<Result<Event, ItemFault>>::empty());
    } else {
        let n = line_len(rem);
        assert(all_text_ok(es)[0] == spec_text_events(rem)[0]);
        assert(spec_text_events(rem.skip(n as int)) =~= all_text_ok(es.skip(1))) by {
            assert(spec_text_events(rem) =~= seq![spec_text_events(rem)[0]] + spec_text_events(
                rem.skip(n as int),
            ));
            assert forall|i: int| 0 <= i < es.len() - 1 implies spec_text_events(
                rem.skip(n as int),
            )[i] == all_text_ok(es.skip(1))[i] by {
                assert(all_text_ok(es).len() == es.len());
                assert(spec_text_events(rem)[i + 1] == spec_text_events(rem.skip(n as int))[i]);
                assert(spec_text_events(rem)[i + 1] == all_text_ok(es)[i + 1]);
                assert(all_text_ok(es.skip(1))[i] == Ok::<Event, TextFault>(es[i + 1]));
            }
        }
        assert(spec_text_events(rem)[0] == spec_text_item(rem.take(n as int)));
        assert(spec_text_item(rem.take(n as int)) == Ok::<Event, TextFault>(es[0]));
        assert(spec_next_item(Format::Text, rem) == Some((Ok::<Event, ItemFault>(es[0]), n)));
        lemma_items_text(rem.skip(n as int), es.skip(1));
        assert(ok_items(es) =~= seq![Ok::<Event, ItemFault>(es[0])] + ok_items(es.skip(1)));
    }
}

/// A stream written by an encoder, the preamble for the declared sources and
/// then each event written, reads back as those sources, followed by exactly
/// the events written, in order, in either format.
pub proof fn lemma_stream_roundtrip(f: Format, ss: Seq<SourceModel>, es: Seq<Event>)
    requires
        forall|i: int| 0 <= i < es.len() ==> declares(ss, (#[trigger] es[i]).source_id),
        round_trips(f, ss, es),
    ensures
        spec_write_events(f, ss, es).1 is None,
        !open_panics(f, spec_preamble(f, ss) + spec_write_events(f, ss, es).0),
        spec_open(f, spec_preamble(f, ss) + spec_write_events(f, ss, es).0) == Ok::<
            (Seq<SourceModel>, nat),
            Fault,
        >((ss, spec_preamble(f, ss).len())),
        spec_items(
            f,
            (spec_preamble(f, ss) + spec_write_events(f, ss, es).0).skip(
                spec_preamble(f, ss).len() as int,
            ),
        ) == ok_items(es),
{
    lemma_write_events_declared(f, ss, es);
    let s = spec_preamble(f, ss) + spec_events_bytes(f, es);
    let p = spec_preamble(f, ss).len() as int;
    assert(s.skip(p) =~= spec_events_bytes(f, es));
    match f {
        Format::Binary => {
            assert(es.map_values(|e: Event| spec_event_bytes(f, e)) =~= es.map_values(
                |e: Event| crate::binary_format::spec_record(e),
            ));
            assert(spec_events_bytes(f, es) == spec_records(es));
            assert(s == spec_binary_stream(ss, es));
            lemma_binary_stream_roundtrip(ss, es);
            lemma_items_binary(spec_records(es), es);
        },
        Format::Text => {
            assert(es.map_values(|e: Event| spec_event_bytes(f, e)) =~= es.map_values(
                |e: Event| crate::text_stream::text_line_bytes(crate::text_event::spec_event_line(e)),
            ));
            assert(spec_events_bytes(f, es) == spec_text_records(es));
            assert(s == spec_text_stream(ss, es));
            lemma_text_stream_roundtrip(ss, es);
            lemma_items_text(spec_text_records(es), es);
        },
    }
}

} // verus!
