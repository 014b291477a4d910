use std::cell::RefCell;

use ctxp::{
    AccessWidth, BinaryDecoder, BinaryEncoder, Encode, Event, EventKind, Route, Source,
    TextDecoder, TextEncoder,
};

fn make_sources() -> Vec<Source> {
    vec![
        Source {
            id: 0,
            name: "CPU0".into(),
        },
        Source {
            id: 1,
            name: "CPU1".into(),
        },
    ]
}

fn make_events() -> Vec<Event> {
    vec![
        Event {
            source_id: 0,
            kind: EventKind::Sync { target: 0x80000000 },
            cycle: Some(0),
        },
        Event {
            source_id: 0,
            kind: EventKind::BranchNotTaken {
                origin: 0x80003ca2,
                target: 0x80003ca6,
            },
            cycle: Some(4),
        },
        Event {
            source_id: 1,
            kind: EventKind::MemRead {
                width: AccessWidth::W1,
                addr: Some(0x70000064),
                value: 0,
            },
            cycle: Some(1),
        },
        Event {
            source_id: 0,
            kind: EventKind::WallClock { value: 0x12000 },
            cycle: Some(10),
        },
        Event {
            source_id: 1,
            kind: EventKind::WallClock { value: 0x12000 },
            cycle: Some(4),
        },
        Event {
            source_id: 1,
            kind: EventKind::BranchTaken {
                origin: 0x80003d00,
                target: 0x8000298c,
            },
            cycle: Some(24),
        },
    ]
}

fn assert_bytes_eq(label: &str, a: &[u8], b: &[u8]) {
    if a != b {
        for (i, (x, y)) in a.iter().zip(b.iter()).enumerate() {
            if x != y {
                panic!(
                    "[{label}] first difference at byte {:#06x}: {:#04x} vs {:#04x}",
                    i, x, y
                );
            }
        }
        panic!("[{label}] lengths differ: {} vs {}", a.len(), b.len());
    }
}

fn decode_all_text(bytes: &[u8]) -> (Vec<Source>, Vec<Event>) {
    let mut dec = TextDecoder::new(bytes).unwrap();
    let sources = dec.sources().to_vec();
    let mut events = Vec::new();
    while let Some(e) = dec.next() {
        events.push(e.unwrap());
    }
    (sources, events)
}

fn decode_all_binary(bytes: &[u8]) -> (Vec<Source>, Vec<Event>) {
    let mut dec = BinaryDecoder::new(bytes).unwrap();
    let sources = dec.sources().to_vec();
    let mut events = Vec::new();
    while let Some(e) = dec.next() {
        events.push(e.unwrap());
    }
    (sources, events)
}

#[test]
fn text_encode_decode_roundtrip() {
    let sources = make_sources();
    let events = make_events();

    let buf = {
        let mut enc = TextEncoder::new(&sources);
        for event in &events {
            enc.write_event(event).unwrap();
        }
        enc.flush()
    };
    let (_, decoded) = decode_all_text(&buf);

    assert_eq!(events, decoded);
}

#[test]
fn binary_encode_decode_roundtrip() {
    let sources = make_sources();
    let events = make_events();

    let buf = {
        let mut enc = BinaryEncoder::new(&sources);
        for event in &events {
            enc.write_event(event).unwrap();
        }
        enc.flush()
    };
    let (_, decoded) = decode_all_binary(&buf);

    assert_eq!(events, decoded);
}

#[test]
fn transcode_text_to_binary() {
    let sources = make_sources();
    let events = make_events();

    // encode directly to binary
    let direct = {
        let mut enc = BinaryEncoder::new(&sources);
        for event in &events {
            enc.write_event(event).unwrap();
        }
        enc.flush()
    };
    // encode to text then transcode to binary
    let txt_buf = {
        let mut txt_enc = TextEncoder::new(&sources);
        for event in &events {
            txt_enc.write_event(event).unwrap();
        }
        txt_enc.flush()
    };
    let mut dec = TextDecoder::new(&txt_buf).unwrap();
    let transcoded = {
        let mut bin_enc = BinaryEncoder::new(dec.sources());
        while let Some(event) = dec.next() {
            bin_enc.write_event(&event.unwrap()).unwrap();
        }
        bin_enc.flush()
    };
    assert_bytes_eq("txt->bin transcode", &direct, &transcoded);
}

#[test]
fn transcode_binary_to_text() {
    let sources = make_sources();
    let events = make_events();

    // encode directly to text
    let direct_txt = {
        let mut enc = TextEncoder::new(&sources);
        for event in &events {
            enc.write_event(event).unwrap();
        }
        enc.flush()
    };
    // encode to binary then transcode to text
    let bin_buf = {
        let mut bin_enc = BinaryEncoder::new(&sources);
        for event in &events {
            bin_enc.write_event(event).unwrap();
        }
        bin_enc.flush()
    };
    let mut dec = BinaryDecoder::new(&bin_buf).unwrap();
    let transcoded_txt = {
        let mut txt_enc = TextEncoder::new(dec.sources());
        while let Some(event) = dec.next() {
            txt_enc.write_event(&event.unwrap()).unwrap();
        }
        txt_enc.flush()
    };
    assert_bytes_eq("bin->txt transcode", &direct_txt, &transcoded_txt);
}

#[test]
fn shared_encoder_matches_direct() {
    let sources = make_sources();
    let events = make_events();

    // direct encoding
    let direct = {
        let mut enc = TextEncoder::new(&sources);
        for event in &events {
            enc.write_event(event).unwrap();
        }
        enc.flush()
    };
    // shared encoder
    let shared_buf = {
        let mut enc = TextEncoder::new(&sources);
        let cpu0 = enc.source(0).unwrap();
        let cpu1 = enc.source(1).unwrap();
        for event in &events {
            match event.source_id {
                0 => cpu0.write_event(&mut enc, event.kind.clone(), event.cycle).unwrap(),
                1 => cpu1.write_event(&mut enc, event.kind.clone(), event.cycle).unwrap(),
                _ => unreachable!(),
            }
        }
        enc.flush()
    };
    assert_bytes_eq("shared encoder", &direct, &shared_buf);
}

#[test]
fn demux_reencodes_correctly() {
    let sources = make_sources();
    let events = make_events();

    // direct encoding
    let direct = {
        let mut enc = TextEncoder::new(&sources);
        for event in &events {
            enc.write_event(event).unwrap();
        }
        enc.flush()
    };
    // encode to text, demux and re-encode
    let reencoded = {
        let enc = RefCell::new(TextEncoder::new(&sources));
        let cpu0 = enc.borrow().source(0).unwrap();
        let cpu1 = enc.borrow().source(1).unwrap();

        let mut dmx = TextDecoder::new(&direct).unwrap().demux();
        dmx.on_source(0);
        dmx.on_source(1);
        dmx.run(|route, event| match route {
            Route::Source(0) => {
                cpu0.write_event(&mut *enc.borrow_mut(), event.kind.clone(), event.cycle)
            }
            Route::Source(1) => {
                cpu1.write_event(&mut *enc.borrow_mut(), event.kind.clone(), event.cycle)
            }
            _ => unreachable!(),
        })
        .unwrap();

        let out = enc.borrow_mut().flush();
        out
    };
    assert_bytes_eq("demux re-encode", &direct, &reencoded);
}
