use canicasbrawl::baked_events::BakedEvent;

fn s(t: &str) -> String {
    t.to_string()
}

#[test]
fn payload_format() {
    let e = BakedEvent::Freeze { marble: 3, x: s("0.125"), y: s("-1.500"), duration: s("2") };
    assert_eq!(e.payload(), "freeze 3 0.125 -1.500 2");
    let e = BakedEvent::Module { name: s("zigzag"), top: s("-0.6"), seed: 18446744073709551615 };
    assert_eq!(e.payload(), "module zigzag -0.6 18446744073709551615");
    assert_eq!(BakedEvent::Finish { top: s("-40.2") }.payload(), "finish -40.2");
    let e = BakedEvent::Swap { marble_a: 0, marble_b: 8, x: s("0.1"), y: s("-5.0") };
    assert_eq!(e.payload(), "swap 0 8 0.1 -5.0");
}

#[test]
fn payload_round_trip() {
    let events = vec![
        BakedEvent::Freeze { marble: 3, x: s("0.125"), y: s("-1.500"), duration: s("2") },
        BakedEvent::Shrink { marble: 0, x: s("1"), y: s("2"), duration: s("5") },
        BakedEvent::Swap { marble_a: 4, marble_b: 7, x: s("0.000"), y: s("-9.250") },
        BakedEvent::Bouncy { x: s("0.2"), y: s("-3"), amplitude: s("0.11") },
        BakedEvent::Module { name: s("hex_stones"), top: s("-12.5"), seed: 42 },
        BakedEvent::Finish { top: s("-80") },
    ];
    for e in events {
        let line = e.payload();
        let back = BakedEvent::try_parse(&line).expect("a written event reads back");
        assert_eq!(back.payload(), line);
    }
}

#[test]
fn reading_tolerates_spacing() {
    match BakedEvent::try_parse("  module\tzigzag  -0.6   7 ") {
        Some(BakedEvent::Module { name, top, seed }) => {
            assert_eq!(name, "zigzag");
            assert_eq!(top, "-0.6");
            assert_eq!(seed, 7);
        }
        _ => panic!("expected a module"),
    }
}

#[test]
fn malformed_lines_are_refused() {
    for line in [
        "",
        "freeze 3 0 0",
        "freeze x 0 0 2",
        "freeze -1 0 0 2",
        "swap 1 b 0 0",
        "module zigzag 0",
        "module zigzag 0 -1",
        "finish",
        "finish 1 2",
        "explode 1 2 3 4",
    ] {
        assert!(BakedEvent::try_parse(line).is_none(), "{:?}", line);
    }
}

#[test]
fn number_fields_must_read_as_numbers() {
    for line in [
        "freeze 3 abc 0 2",
        "shrink 1 0 0 five",
        "swap 1 2 0 1e",
        "bouncy 0.2 -3 .",
        "module zigzag top 7",
        "finish 1.2.3",
        "finish +",
        "finish 1_000",
    ] {
        assert!(BakedEvent::try_parse(line).is_none(), "{:?}", line);
    }
    for line in [
        "finish inf",
        "finish -Infinity",
        "finish NaN",
        "finish .5",
        "finish 5.",
        "finish +1.5E-3",
        "finish 2e10",
        "bouncy -0 +0 1e+2",
    ] {
        assert!(BakedEvent::try_parse(line).is_some(), "{:?}", line);
    }
}

#[test]
fn float_grammar_agrees_with_std() {
    for text in [
        "0", "-1.5", "+.5", "5.", ".", "", "+", "-", "e5", "1e", "1e+", "1e-7", "1E7", "inf",
        "INF", "-infinity", "InFiNiTy", "nan", "NaN", "-nan", "infin", "1.2.3", "1e5e3", " 1",
        "1 ", "0x10", "1_0", "١", "1.e3", ".e3", "+-1",
    ] {
        assert_eq!(
            canicasbrawl::float_text::is_float(text),
            text.parse::<f32>().is_ok(),
            "{:?}",
            text
        );
    }
}

#[test]
fn parse_reads_a_written_event() {
    let e = BakedEvent::Bouncy { x: s("0.2"), y: s("-3"), amplitude: s("0.11") };
    assert_eq!(BakedEvent::parse(&e.payload()).payload(), "bouncy 0.2 -3 0.11");
}
