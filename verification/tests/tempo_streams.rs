use arrowvortex_clipboard::decode;
use arrowvortex_clipboard::encode_tempo;
use arrowvortex_clipboard::tempo_event_kind;
use arrowvortex_clipboard::DecodeResult;
use arrowvortex_clipboard::EncodeError;
use arrowvortex_clipboard::F64Bits;
use arrowvortex_clipboard::TempoEvent;
use arrowvortex_clipboard::TempoEventKind;

fn val(x: f64) -> F64Bits {
    F64Bits { bits: x.to_bits() }
}

#[test]
fn tempo_example_encodes_exactly() {
    let events = [
        TempoEvent { row: 0, kind: TempoEventKind::Bpm { bpm: val(120.0) } },
        TempoEvent { row: 48, kind: TempoEventKind::Delay { time: val(0.2) } },
        TempoEvent { row: 96, kind: TempoEventKind::Warp { num_skipped_rows: 24 } },
        TempoEvent { row: 144, kind: TempoEventKind::Scroll { ratio: val(2.0) } },
    ];
    let mut out = Vec::new();
    encode_tempo(&mut out, &events).unwrap();
    assert_eq!(
        out,
        b"ArrowVortex:tempo:!<<*\"zz?9eMm0E;(QR[KS3R@2/]!<Z^0!!!i9!!!$*O8o7\\z!!!!a!!".to_vec()
    );
}

#[test]
fn tempo_example_round_trips() {
    let events = vec![
        TempoEvent { row: 0, kind: TempoEventKind::Bpm { bpm: val(120.0) } },
        TempoEvent { row: 48, kind: TempoEventKind::Delay { time: val(0.2) } },
        TempoEvent { row: 96, kind: TempoEventKind::Warp { num_skipped_rows: 24 } },
        TempoEvent { row: 144, kind: TempoEventKind::Scroll { ratio: val(2.0) } },
    ];
    let mut out = Vec::new();
    encode_tempo(&mut out, &events).unwrap();
    let decoded = match decode(&out).unwrap() {
        DecodeResult::TempoEvents(events) => events,
        _ => panic!("unexpected data type"),
    };
    assert_eq!(decoded, events);
}

#[test]
fn every_tempo_kind_round_trips() {
    let events = vec![
        TempoEvent { row: 0, kind: TempoEventKind::Bpm { bpm: val(174.0) } },
        TempoEvent { row: 4, kind: TempoEventKind::Stop { time: val(0.5) } },
        TempoEvent { row: 8, kind: TempoEventKind::Delay { time: val(1.25) } },
        TempoEvent { row: 12, kind: TempoEventKind::Warp { num_skipped_rows: 96 } },
        TempoEvent {
            row: 16,
            kind: TempoEventKind::TimeSignature { numerator: 7, denominator: 8 },
        },
        TempoEvent { row: 20, kind: TempoEventKind::Ticks { num_ticks: 12 } },
        TempoEvent {
            row: 24,
            kind: TempoEventKind::Combo { combo_multiplier: 2, miss_multiplier: 3 },
        },
        TempoEvent {
            row: 28,
            kind: TempoEventKind::Speed {
                ratio: val(1.5),
                delay: val(4.0),
                delay_is_time: true,
            },
        },
        TempoEvent { row: 32, kind: TempoEventKind::Scroll { ratio: val(0.25) } },
        TempoEvent { row: 36, kind: TempoEventKind::FakeSegment { num_fake_rows: 48 } },
        TempoEvent {
            row: 40,
            kind: TempoEventKind::Label { message: b"chorus".to_vec() },
        },
    ];
    let mut out = Vec::new();
    encode_tempo(&mut out, &events).unwrap();
    let decoded = match decode(&out).unwrap() {
        DecodeResult::TempoEvents(events) => events,
        _ => panic!("unexpected data type"),
    };
    assert_eq!(decoded, events);
}

#[test]
fn consecutive_equal_kinds_share_a_run() {
    let events = vec![
        TempoEvent { row: 0, kind: TempoEventKind::Bpm { bpm: val(120.0) } },
        TempoEvent { row: 48, kind: TempoEventKind::Bpm { bpm: val(150.0) } },
        TempoEvent { row: 96, kind: TempoEventKind::Bpm { bpm: val(180.0) } },
        TempoEvent { row: 0, kind: TempoEventKind::Stop { time: val(0.1) } },
    ];
    let mut out = Vec::new();
    encode_tempo(&mut out, &events).unwrap();
    let decoded = match decode(&out).unwrap() {
        DecodeResult::TempoEvents(events) => events,
        _ => panic!("unexpected data type"),
    };
    assert_eq!(decoded, events);
}

#[test]
fn tempo_group_boundaries_are_maximal() {
    let events = [
        TempoEvent { row: 0, kind: TempoEventKind::Bpm { bpm: val(120.0) } },
        TempoEvent { row: 48, kind: TempoEventKind::Bpm { bpm: val(150.0) } },
        TempoEvent { row: 0, kind: TempoEventKind::Stop { time: val(0.1) } },
    ];
    assert_eq!(arrowvortex_clipboard::group_by(&events, 0), 2);
    assert_eq!(arrowvortex_clipboard::group_by(&events, 2), 3);
    assert_eq!(tempo_event_kind(&events[0].kind), 0);
    assert_eq!(tempo_event_kind(&events[2].kind), 1);
}

#[test]
fn unsorted_tempo_events_are_rejected() {
    // Stop (kind 1) before Bpm (kind 0) violates the kind-major order.
    let events = [
        TempoEvent { row: 0, kind: TempoEventKind::Stop { time: val(0.1) } },
        TempoEvent { row: 0, kind: TempoEventKind::Bpm { bpm: val(120.0) } },
    ];
    let mut out = Vec::new();
    assert_eq!(encode_tempo(&mut out, &events), Err(EncodeError::NotSorted));
    assert!(out.is_empty());

    // Equal kinds must be ordered by row.
    let events = [
        TempoEvent { row: 48, kind: TempoEventKind::Bpm { bpm: val(120.0) } },
        TempoEvent { row: 0, kind: TempoEventKind::Bpm { bpm: val(150.0) } },
    ];
    let mut out = Vec::new();
    assert_eq!(encode_tempo(&mut out, &events), Err(EncodeError::NotSorted));
}

#[test]
fn empty_tempo_stream_round_trips() {
    let events: Vec<TempoEvent> = Vec::new();
    let mut out = Vec::new();
    encode_tempo(&mut out, &events).unwrap();
    let decoded = match decode(&out).unwrap() {
        DecodeResult::TempoEvents(events) => events,
        _ => panic!("unexpected data type"),
    };
    assert!(decoded.is_empty());
}

#[test]
fn empty_label_round_trips() {
    let events = vec![TempoEvent {
        row: 7,
        kind: TempoEventKind::Label { message: Vec::new() },
    }];
    let mut out = Vec::new();
    encode_tempo(&mut out, &events).unwrap();
    let decoded = match decode(&out).unwrap() {
        DecodeResult::TempoEvents(events) => events,
        _ => panic!("unexpected data type"),
    };
    assert_eq!(decoded, events);
}
