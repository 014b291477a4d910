use ctxp::binary_format::{decode_type_byte, encode_event_payload};
use ctxp::bytes::first_difference;
use ctxp::text_event::parse_event;
use ctxp::text_meta::parse_meta_entries;
use ctxp::{
    format_of_file_name, pack_counter, unpack_counter, AccessWidth, BinaryDecoder,
    BinaryEncoder, CounterKind, Decoder, Encode, Encoder, Error, Event, EventKind, Format,
    InfoKind, IoError, IoErrorKind, Route, Source, TextDecoder, TextEncoder,
};

fn two_sources() -> Vec<Source> {
    vec![
        Source { id: 0, name: "CPU0".into() },
        Source { id: 1, name: "CPU1".into() },
    ]
}

#[test]
fn pack_counter_exact_word() {
    assert_eq!(pack_counter(&CounterKind::DataWrite, 5, 0x1234), 0x151234);
    assert_eq!(pack_counter(&CounterKind::InstructionFetchThreshold, 0, 0), 0);
    assert_eq!(pack_counter(&CounterKind::DataRead, 7, 0xffff), 0x1fffff);
    // only the low three bits of the region are kept
    assert_eq!(pack_counter(&CounterKind::DataReadThreshold, 9, 1), 0x90001);
}

#[test]
fn unpack_counter_exact_fields() {
    assert_eq!(unpack_counter(0x151234).unwrap(), (CounterKind::DataWrite, 5, 0x1234));
    // bits above bit 20 are ignored
    assert_eq!(
        unpack_counter(0xffff_ffff_ffe0_0000 | 0x151234).unwrap(),
        (CounterKind::DataWrite, 5, 0x1234)
    );
}

#[test]
fn counter_pack_unpack_law() {
    let kinds = [
        CounterKind::InstructionFetchThreshold,
        CounterKind::DataReadThreshold,
        CounterKind::DataWrite,
        CounterKind::DataRead,
    ];
    for kind in kinds {
        for region in [0u8, 3, 7, 8, 200] {
            for tag in [0u16, 1, 0xabcd, 0xffff] {
                let v = pack_counter(&kind, region, tag);
                assert_eq!(unpack_counter(v).unwrap(), (kind, region % 8, tag));
                let (k2, r2, t2) = unpack_counter(v).unwrap();
                assert_eq!(pack_counter(&k2, r2, t2), v);
            }
        }
    }
}

#[test]
fn is_eof_classes() {
    let eof = Error::Io(IoError { kind: IoErrorKind::UnexpectedEof, message: String::new() });
    let interrupted =
        Error::Io(IoError { kind: IoErrorKind::Interrupted, message: String::new() });
    let other = Error::Io(IoError { kind: IoErrorKind::Other, message: String::new() });
    assert!(eof.is_eof());
    assert!(interrupted.is_eof());
    assert!(!other.is_eof());
    assert!(!Error::Parse("x".into()).is_eof());
    assert!(!Error::UnknownSource(3).is_eof());
}

#[test]
fn decode_type_byte_kinds() {
    assert_eq!(decode_type_byte(0x00, 1, 2).unwrap(), EventKind::Sync { target: 2 });
    assert_eq!(
        decode_type_byte(0x11, 1, 2).unwrap(),
        EventKind::BranchTaken { origin: 1, target: 2 }
    );
    assert_eq!(
        decode_type_byte(0x24, 0x10, 0x20).unwrap(),
        EventKind::MemWrite { width: AccessWidth::W4, addr: Some(0x10), value: 0x20 }
    );
    assert_eq!(
        decode_type_byte(0x38, 0x10, 0x20).unwrap(),
        EventKind::MemRead { width: AccessWidth::W8, addr: Some(0x10), value: 0x20 }
    );
    assert_eq!(decode_type_byte(0x5f, 0, 0).unwrap(), EventKind::Overflow);
    assert_eq!(
        decode_type_byte(0x61, 9, 0x151234).unwrap(),
        EventKind::Counter { count: 9, kind: CounterKind::DataWrite, region: 5, tag: 0x1234 }
    );
    assert_eq!(
        decode_type_byte(0x72, 1, 2).unwrap(),
        EventKind::Info { kind: InfoKind::I3, value1: 1, value2: 2 }
    );
    assert!(matches!(decode_type_byte(0x7e, 0, 0), Err(Error::Parse(_))));
    assert!(matches!(decode_type_byte(0x14, 0, 0), Err(Error::Parse(_))));
}

#[test]
fn encode_event_payload_words() {
    assert_eq!(
        encode_event_payload(&EventKind::Call { origin: 3, target: 4 }, true),
        (0x96, 3, 4)
    );
    assert_eq!(encode_event_payload(&EventKind::Sync { target: 7 }, false), (0x00, 0, 7));
    assert_eq!(
        encode_event_payload(
            &EventKind::Counter { count: 9, kind: CounterKind::DataWrite, region: 5, tag: 0x1234 },
            false
        ),
        (0x61, 9, 0x151234)
    );
}

#[test]
fn binary_stream_exact_bytes() {
    let sources = vec![Source { id: 7, name: "A".into() }];
    let mut enc = BinaryEncoder::new(&sources);
    enc.write_event(&Event { source_id: 7, kind: EventKind::Sync { target: 0x0102 }, cycle: Some(3) })
        .unwrap();
    let out = enc.flush();
    let mut expected: Vec<u8> = vec![b'C', b'T', b'X', b'P', 8, 0, 1, 0];
    expected.extend_from_slice(&[1, 0, 7, 0, 7, 1, b'A']);
    expected.extend_from_slice(&[7, 0x80]);
    expected.extend_from_slice(&0u64.to_le_bytes());
    expected.extend_from_slice(&0x0102u64.to_le_bytes());
    expected.extend_from_slice(&3u64.to_le_bytes());
    assert_eq!(out, expected);
}

#[test]
fn text_stream_exact_lines() {
    let mut enc = TextEncoder::new(&two_sources());
    enc.write_event(&Event {
        source_id: 1,
        kind: EventKind::MemRead { width: AccessWidth::W1, addr: Some(0x70000064), value: 0 },
        cycle: Some(1),
    })
    .unwrap();
    enc.write_event(&Event { source_id: 0, kind: EventKind::Overflow, cycle: None }).unwrap();
    let out = String::from_utf8(enc.flush()).unwrap();
    assert_eq!(
        out,
        "HDR:format=accemic//ctxp-txt,ver=1\nMETA:#0=\"CPU0\",#1=\"CPU1\"\n#1 @1 MR 1 0x70000064 0x0\n#0 - OVF\n"
    );
}

#[test]
fn unknown_source_is_refused_and_writes_nothing() {
    let mut enc = TextEncoder::new(&two_sources());
    let before = enc.flush();
    assert_eq!(
        enc.write_event(&Event { source_id: 9, kind: EventKind::Overflow, cycle: None }),
        Err(Error::UnknownSource(9))
    );
    assert!(enc.flush().is_empty());
    assert!(!before.is_empty());
    assert!(matches!(enc.source(9), Err(Error::UnknownSource(9))));
}

#[test]
fn write_events_stops_at_first_unknown_source() {
    let mut enc = Encoder::new(&two_sources(), Format::Binary);
    enc.flush();
    let events = [
        Event { source_id: 0, kind: EventKind::Overflow, cycle: None },
        Event { source_id: 4, kind: EventKind::Overflow, cycle: None },
        Event { source_id: 1, kind: EventKind::Overflow, cycle: None },
    ];
    assert_eq!(enc.write_events(&events), Err(Error::UnknownSource(4)));
    assert_eq!(enc.flush().len(), 26);
}

#[test]
fn source_handle_stamps_its_id() {
    let mut direct = Encoder::new(&two_sources(), Format::Text);
    direct
        .write_event(&Event { source_id: 1, kind: EventKind::Data { tag: 5 }, cycle: Some(2) })
        .unwrap();
    let mut shared = Encoder::new(&two_sources(), Format::Text);
    let h = shared.source(1).unwrap();
    assert_eq!(h.source_id(), 1);
    h.write_events(&mut shared, &[(EventKind::Data { tag: 5 }, Some(2))]).unwrap();
    assert_eq!(direct.flush(), shared.flush());
}

#[test]
fn parse_event_lines() {
    assert_eq!(
        parse_event("#2 @10 BT 0x1 0x2").unwrap(),
        Event { source_id: 2, kind: EventKind::BranchTaken { origin: 1, target: 2 }, cycle: Some(10) }
    );
    assert_eq!(
        parse_event("#0 - MW 2 - 0xff").unwrap(),
        Event {
            source_id: 0,
            kind: EventKind::MemWrite { width: AccessWidth::W2, addr: None, value: 0xff },
            cycle: None
        }
    );
    assert!(matches!(parse_event("#0 - JUMP 0x1"), Err(Error::UnknownEventKind(n)) if n == "JUMP"));
    assert_eq!(parse_event("#0 - MR 3 0x1 0x2"), Err(Error::InvalidMemWidth(3)));
    assert_eq!(parse_event("#0 - INFO 4 0x1 0x2"), Err(Error::InvalidInfoIndex(4)));
    assert!(matches!(parse_event("#0 - SYNC 12"), Err(Error::InvalidNumber(t)) if t == "12"));
    assert!(matches!(parse_event("0 - OVF"), Err(Error::Parse(_))));
    assert!(matches!(parse_event("#0 - SYNC"), Err(Error::Parse(_))));
}

#[test]
fn parse_meta_entries_cases() {
    let ss = parse_meta_entries(r#"#0="CPU0",#12="a\"b\\c""#).unwrap();
    assert_eq!(
        ss,
        vec![
            Source { id: 0, name: "CPU0".into() },
            Source { id: 12, name: "a\"b\\c".into() },
        ]
    );
    assert_eq!(parse_meta_entries("").unwrap(), vec![]);
    assert!(matches!(parse_meta_entries("0=\"x\""), Err(Error::Parse(_))));
    assert!(matches!(parse_meta_entries("#300=\"x\""), Err(Error::Parse(_))));
    assert!(matches!(parse_meta_entries("#1=\"x\\n\""), Err(Error::Parse(_))));
    assert!(matches!(parse_meta_entries("#1=\"x"), Err(Error::Parse(_))));
}

#[test]
fn format_from_file_names() {
    assert_eq!(format_of_file_name(Some("trace.ctxp.txt")), Ok(Format::Text));
    assert_eq!(format_of_file_name(Some("trace.ctxp-txt")), Ok(Format::Text));
    assert_eq!(Decoder::detect_format("trace.ctxp-txt"), Ok(Format::Text));
    assert_eq!(format_of_file_name(Some("trace.ctxp")), Ok(Format::Binary));
    assert_eq!(
        format_of_file_name(Some("trace.txt")),
        Err(Error::InvalidFileExtension("trace.txt".into()))
    );
    assert_eq!(format_of_file_name(None), Err(Error::InvalidFileName));
    assert_eq!(Decoder::detect_format("dir/run.ctxp.txt"), Ok(Format::Text));
    assert_eq!(Decoder::detect_format("/tmp/run.ctxp"), Ok(Format::Binary));
    assert_eq!(
        Decoder::detect_format("dir/run.bin"),
        Err(Error::InvalidFileExtension("run.bin".into()))
    );
    assert_eq!(Decoder::detect_format("dir/.."), Err(Error::InvalidFileName));
}

#[test]
fn binary_decoder_errors() {
    // bad magic
    assert!(matches!(BinaryDecoder::new(b"XTXP\x08\x00\x01\x00"), Err(Error::Parse(_))));
    // cut short in the header
    assert!(matches!(
        BinaryDecoder::new(b"CTX"),
        Err(Error::Io(IoError { kind: IoErrorKind::UnexpectedEof, .. }))
    ));
    // a record cut short, then the end
    let mut enc = BinaryEncoder::new(&two_sources());
    enc.write_event(&Event { source_id: 0, kind: EventKind::Overflow, cycle: None }).unwrap();
    let mut bytes = enc.flush();
    bytes.truncate(bytes.len() - 3);
    let mut dec = BinaryDecoder::new(&bytes).unwrap();
    assert_eq!(dec.sources().to_vec(), two_sources());
    let first = dec.next().unwrap();
    assert!(matches!(first, Err(e) if e.is_eof()));
    assert!(dec.next().is_none());
    assert!(dec.next().is_none());
}

#[test]
fn text_decoder_errors_and_fused_end() {
    assert!(matches!(TextDecoder::new(b"HDR:nope\nMETA:\n"), Err(Error::Parse(_))));
    assert!(matches!(
        TextDecoder::new(b"\xff\n"),
        Err(Error::Io(IoError { kind: IoErrorKind::InvalidData, .. }))
    ));
    let input = b"HDR:format=accemic//ctxp-txt,ver=1\nMETA:#0=\"X\"\n#0 - OVF\nbogus\n#0 @5 CTX 0x9\n";
    let mut dec = Decoder::new(input, Format::Text).unwrap();
    assert_eq!(dec.sources().to_vec(), vec![Source { id: 0, name: "X".into() }]);
    assert_eq!(
        dec.next().unwrap().unwrap(),
        Event { source_id: 0, kind: EventKind::Overflow, cycle: None }
    );
    assert!(matches!(dec.next(), Some(Err(Error::Parse(_)))));
    assert_eq!(
        dec.next().unwrap().unwrap(),
        Event { source_id: 0, kind: EventKind::Context { value: 9 }, cycle: Some(5) }
    );
    assert!(dec.next().is_none());
    assert!(dec.next().is_none());
}

#[test]
fn demux_routes_and_drops() {
    let sources = two_sources();
    let mut enc = Encoder::new(&sources, Format::Binary);
    for (id, tag) in [(0u8, 1u64), (1, 2), (0, 3), (1, 4)] {
        enc.write_event(&Event { source_id: id, kind: EventKind::Data { tag }, cycle: None })
            .unwrap();
    }
    let bytes = enc.flush();

    // a handler for source 1 and one for the rest
    let seen = std::cell::RefCell::new(Vec::new());
    let mut dmx = Decoder::new(&bytes, Format::Binary).unwrap().demux();
    dmx.on_source(1);
    dmx.on_unhandled();
    assert_eq!(dmx.route_of(1), Some(Route::Source(1)));
    assert_eq!(dmx.route_of(0), Some(Route::Unhandled));
    dmx.run(|route, e| {
        seen.borrow_mut().push((route, e.kind));
        Ok(())
    })
    .unwrap();
    assert_eq!(
        seen.into_inner(),
        vec![
            (Route::Unhandled, EventKind::Data { tag: 1 }),
            (Route::Source(1), EventKind::Data { tag: 2 }),
            (Route::Unhandled, EventKind::Data { tag: 3 }),
            (Route::Source(1), EventKind::Data { tag: 4 }),
        ]
    );

    // no handler: events are dropped; a handler error stops the run
    let mut dmx = BinaryDecoder::new(&bytes).unwrap().demux();
    dmx.on_source(1);
    let calls = std::cell::Cell::new(0);
    let r = dmx.run(|_, _| {
        calls.set(calls.get() + 1);
        Err(Error::Parse("stop".into()))
    });
    assert_eq!(r, Err(Error::Parse("stop".into())));
    assert_eq!(calls.get(), 1);
}

#[test]
fn roundtrip_all_kinds_both_formats() {
    let sources = vec![Source { id: 3, name: "core \"3\" \\ x".into() }];
    let kinds = vec![
        EventKind::Sync { target: u64::MAX },
        EventKind::Interrupt { origin: 1, target: 2 },
        EventKind::Rfi { origin: 1, target: 2 },
        EventKind::BranchTaken { origin: 1, target: 2 },
        EventKind::BranchNotTaken { origin: 1, target: 2 },
        EventKind::Call { origin: 1, target: 2 },
        EventKind::Return { origin: 1, target: 2 },
        EventKind::MemReadUnknownData { addr: 0xdead },
        EventKind::MemRead { width: AccessWidth::W2, addr: Some(0x10), value: 0xbeef },
        EventKind::MemWriteUnknownData { addr: 0xdead },
        EventKind::MemWrite { width: AccessWidth::W8, addr: Some(0x10), value: 0xbeef },
        EventKind::Overflow,
        EventKind::Context { value: 42 },
        EventKind::WallClock { value: 43 },
        EventKind::Info { kind: InfoKind::I2, value1: 5, value2: 6 },
        EventKind::Data { tag: 7 },
        EventKind::Counter { count: 8, kind: CounterKind::DataRead, region: 7, tag: 65535 },
        EventKind::LastPC { prev_pc: 0x1234 },
    ];
    let events: Vec<Event> = kinds
        .iter()
        .enumerate()
        .map(|(i, k)| Event {
            source_id: 3,
            kind: *k,
            cycle: if i % 2 == 0 { Some(i as u64 * 1000) } else { None },
        })
        .collect();
    for format in [Format::Binary, Format::Text] {
        let mut enc = Encoder::new(&sources, format);
        let bytes = enc.write_events(&events).unwrap();
        assert!(enc.flush().is_empty());
        let mut dec = Decoder::new(&bytes, format).unwrap();
        assert_eq!(dec.sources().to_vec(), sources);
        let mut back = Vec::new();
        while let Some(e) = dec.next() {
            back.push(e.unwrap());
        }
        assert_eq!(back, events);
    }
}

#[test]
fn binary_memory_access_without_address_reads_back_all_ones() {
    let sources = two_sources();
    let mut enc = BinaryEncoder::new(&sources);
    enc.write_event(&Event {
        source_id: 0,
        kind: EventKind::MemWrite { width: AccessWidth::W4, addr: None, value: 1 },
        cycle: None,
    })
    .unwrap();
    let bytes = enc.flush();
    let mut dec = BinaryDecoder::new(&bytes).unwrap();
    assert_eq!(
        dec.next().unwrap().unwrap(),
        Event {
            source_id: 0,
            kind: EventKind::MemWrite { width: AccessWidth::W4, addr: Some(u64::MAX), value: 1 },
            cycle: None
        }
    );
}

#[test]
fn write_events_hands_out_everything_after_the_last_event() {
    let sources = two_sources();
    let mut enc = TextEncoder::new(&sources);
    let events = [
        Event { source_id: 0, kind: EventKind::Overflow, cycle: None },
        Event { source_id: 1, kind: EventKind::Data { tag: 1 }, cycle: Some(7) },
    ];
    let out = String::from_utf8(enc.write_events(&events).unwrap()).unwrap();
    assert_eq!(
        out,
        "HDR:format=accemic//ctxp-txt,ver=1\nMETA:#0=\"CPU0\",#1=\"CPU1\"\n#0 - OVF\n#1 @7 DATA 0x1\n"
    );
    assert!(enc.flush().is_empty());
}

#[test]
fn next_dispatch_steps_in_stream_order() {
    let sources = vec![
        Source { id: 0, name: "A".into() },
        Source { id: 1, name: "B".into() },
        Source { id: 2, name: "C".into() },
    ];
    let mut enc = Encoder::new(&sources, Format::Text);
    for (id, tag) in [(2u8, 1u64), (0, 2), (2, 3), (1, 4), (2, 5)] {
        enc.write_event(&Event { source_id: id, kind: EventKind::Data { tag }, cycle: None })
            .unwrap();
    }
    let mut bytes = enc.flush();
    bytes.extend_from_slice(b"garbage\n#2 - DATA 0x6\n");
    let mut dmx = TextDecoder::new(&bytes).unwrap().demux();
    dmx.on_source(1);
    dmx.on_source(0);
    let step = |r: Option<Result<(Route, Event), Error>>| r.map(|x| x.map(|(route, e)| (route, e.kind)));
    assert_eq!(step(dmx.next_dispatch()), Some(Ok((Route::Source(0), EventKind::Data { tag: 2 }))));
    assert_eq!(step(dmx.next_dispatch()), Some(Ok((Route::Source(1), EventKind::Data { tag: 4 }))));
    assert!(matches!(dmx.next_dispatch(), Some(Err(Error::Parse(_)))));
    assert_eq!(dmx.next_dispatch(), None);
    assert_eq!(dmx.next_dispatch(), None);
}

#[test]
fn first_difference_positions() {
    assert_eq!(first_difference(b"abcd", b"abxd"), Some(2));
    assert_eq!(first_difference(b"abc", b"abcdef"), None);
    assert_eq!(first_difference(b"", b""), None);
    assert_eq!(first_difference(b"x", b"y"), Some(0));
}

#[test]
fn detect_format_takes_the_last_component() {
    assert_eq!(Decoder::detect_format("t.ctxp.txt"), Ok(Format::Text));
    assert_eq!(Decoder::detect_format("d/t.ctxp"), Ok(Format::Binary));
    assert_eq!(
        Decoder::detect_format("dir.ctxp/trace"),
        Err(Error::InvalidFileExtension("trace".into()))
    );
    assert_eq!(
        Decoder::detect_format("t.bin"),
        Err(Error::InvalidFileExtension("t.bin".into()))
    );
    assert_eq!(Decoder::detect_format("/"), Err(Error::InvalidFileName));
}

#[test]
fn live_decoding_piece_by_piece() {
    for format in [Format::Text, Format::Binary] {
        let mut enc = Encoder::new(&two_sources(), format);
        let events = [
            Event { source_id: 0, kind: EventKind::Call { origin: 1, target: 2 }, cycle: Some(3) },
            Event { source_id: 1, kind: EventKind::Overflow, cycle: None },
        ];
        let bytes = enc.write_events(&events).unwrap();
        // the preamble alone, then the rest a few bytes at a time
        let preamble_len = {
            let mut only = Encoder::new(&two_sources(), format);
            only.flush().len()
        };
        let mut dec = Decoder::new(&bytes[..preamble_len], format).unwrap();
        assert!(!dec.item_ready());
        let mut got = Vec::new();
        for piece in bytes[preamble_len..].chunks(5) {
            dec.feed(piece);
            while dec.item_ready() {
                got.push(dec.next().unwrap().unwrap());
            }
        }
        assert!(!dec.item_ready());
        assert!(dec.next().is_none());
        assert_eq!(got, events.to_vec());
    }
}

#[test]
fn parse_error_messages_carry_details() {
    assert_eq!(
        decode_type_byte(0x7e, 0, 0),
        Err(Error::Parse("unknown event type byte: 0x7e".into()))
    );
    assert_eq!(
        decode_type_byte(0x05, 0, 0),
        Err(Error::Parse("unknown event type byte: 0x05".into()))
    );
    assert!(matches!(
        BinaryDecoder::new(b"XTXP\x08\x00\x01\x00"),
        Err(Error::Parse(m)) if m == "invalid magic: [88, 84, 88, 80]"
    ));
    assert!(matches!(
        BinaryDecoder::new(b"CTXP\x08\x00\x02\x00"),
        Err(Error::Parse(m)) if m == "unsupported version: 2"
    ));
    assert!(matches!(
        BinaryDecoder::new(b"CTXP\x0a\x00\x01\x00"),
        Err(Error::Parse(m)) if m == "unexpected header size: 10"
    ));
    assert!(matches!(
        BinaryDecoder::new(b"CTXP\x08\x00\x01\x00\x02\x00\x04\x00"),
        Err(Error::Parse(m)) if m == "expected metadata section (0x0001), got 0x0002"
    ));
    assert_eq!(
        parse_meta_entries("0=\"x\""),
        Err(Error::Parse("expected '#', got '0'".into()))
    );
    assert_eq!(
        parse_meta_entries("#300=\"x\""),
        Err(Error::Parse("invalid source id: '300'".into()))
    );
}
