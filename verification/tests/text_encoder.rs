use ctxp::{Encode, Source, TextEncoder};

#[test]
fn write_meta_matches_spec_example() {
    let sources = vec![
        Source {
            id: 0,
            name: "CPU0".into(),
        },
        Source {
            id: 1,
            name: "CPU1".into(),
        },
        Source {
            id: 2,
            name: "CPU2".into(),
        },
        Source {
            id: 3,
            name: r#"CPU\"3""#.into(),
        },
    ];

    let mut enc = TextEncoder::new(&sources);

    let output = String::from_utf8(enc.flush()).unwrap();
    let hdr_line = output.lines().nth(0).unwrap(); // line 0 is HDR
    let meta_line = output.lines().nth(1).unwrap(); // line 1 is META

    assert_eq!(hdr_line, r#"HDR:format=accemic//ctxp-txt,ver=1"#);
    assert_eq!(
        meta_line,
        r#"META:#0="CPU0",#1="CPU1",#2="CPU2",#3="CPU\\\"3\"""#
    );
}
