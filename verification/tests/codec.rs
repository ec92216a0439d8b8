use arrowvortex_clipboard::decode;
use arrowvortex_clipboard::decode_dwords_from_base85;
use arrowvortex_clipboard::decode_varint;
use arrowvortex_clipboard::encode_row_based_notes;
use arrowvortex_clipboard::encode_time_based_notes;
use arrowvortex_clipboard::encode_varint;
use arrowvortex_clipboard::Base85Encoder;
use arrowvortex_clipboard::DecodeError;
use arrowvortex_clipboard::DecodeResult;
use arrowvortex_clipboard::EncodeError;
use arrowvortex_clipboard::F64Bits;
use arrowvortex_clipboard::Note;
use arrowvortex_clipboard::NoteKind;

fn time(seconds: f64) -> F64Bits {
    F64Bits { bits: seconds.to_bits() }
}

#[test]
fn test_decode_dwords_from_base85() {
    let bytes = decode_dwords_from_base85(b"alphagamma");
    assert_eq!(bytes, [0xC9, 0xE8, 0xC9, 0x19, 0xDC, 0x2C, 0x7E, 0x0E].to_vec());
}

#[test]
fn test_decode_varint() {
    let bytes = [
        0xBD, 0xC7, 0x03, 0xF0, 0x0D, 0xBA, 0xAD, 0xF0, 0x0D, 0xBA, 0xAD,
    ];
    let mut pos = 0;
    assert_eq!(decode_varint(&bytes, &mut pos).unwrap(), 58301);
    assert_eq!(pos, 3);
}

#[test]
fn test_base85_encoder() {
    let mut encoder = Base85Encoder::new();
    for &byte in &[0xC9, 0xE8, 0xC9, 0x19, 0xDC, 0x2C, 0x7E, 0x0E] {
        encoder.write(byte);
    }
    encoder.flush_buffer();
    assert_eq!(encoder.into_bytes(), b"alphagamma".to_vec());
}

#[test]
fn test_encode_varint() {
    fn base85_encode(callback: impl FnOnce(&mut Base85Encoder)) -> Vec<u8> {
        let mut encoder = Base85Encoder::new();
        callback(&mut encoder);
        encoder.flush_buffer();
        encoder.into_bytes()
    }

    let result = base85_encode(|encoder| encode_varint(encoder, 58301));
    let expected_result = base85_encode(|encoder| {
        for &byte in &[0xBD, 0xC7, 0x03] {
            encoder.write(byte);
        }
    });

    assert_eq!(result, expected_result);
}

#[test]
fn default_note_is_a_tap_in_column_zero() {
    assert_eq!(NoteKind::<u64>::default(), NoteKind::Tap);
    assert_eq!(
        Note::<u64>::default(),
        Note { pos: 0, column: 0, kind: NoteKind::Tap }
    );
}

#[test]
fn zero_word_encodes_as_z() {
    let mut encoder = Base85Encoder::new();
    encoder.write(0);
    encoder.write(0);
    encoder.write(0);
    encoder.write(0);
    encoder.flush_buffer();
    assert_eq!(encoder.into_bytes(), b"z".to_vec());
}

#[test]
fn z_decodes_to_zero_word() {
    assert_eq!(decode_dwords_from_base85(b"z"), vec![0, 0, 0, 0]);
}

#[test]
fn five_zero_digits_decode_like_z() {
    assert_eq!(
        decode_dwords_from_base85(b"!!!!!"),
        decode_dwords_from_base85(b"z")
    );
}

#[test]
fn varint_round_trips_across_widths() {
    for &v in &[
        0u64,
        1,
        127,
        128,
        300,
        58301,
        0xFFFF_FFFF,
        0x1234_5678_9ABC_DEF0,
        u64::MAX,
    ] {
        let mut encoder = Base85Encoder::new();
        encode_varint(&mut encoder, v);
        encoder.flush_buffer();
        let text = encoder.into_bytes();
        let bytes = decode_dwords_from_base85(&text);
        let mut pos = 0;
        assert_eq!(decode_varint(&bytes, &mut pos).unwrap(), v);
    }
}

#[test]
fn varint_zero_is_one_zero_byte() {
    // The encoder buffers through the armorer, so read the byte back out of
    // a raw stream instead: a single zero byte terminates immediately.
    let mut pos = 0;
    assert_eq!(decode_varint(&[0x00], &mut pos).unwrap(), 0);
    assert_eq!(pos, 1);
}

#[test]
fn row_based_example_encodes_exactly() {
    let notes = [
        Note { pos: 0u64, column: 0, kind: NoteKind::Tap },
        Note { pos: 12, column: 1, kind: NoteKind::Tap },
        Note { pos: 24, column: 2, kind: NoteKind::Tap },
        Note { pos: 36, column: 3, kind: NoteKind::Tap },
    ];
    let mut out = Vec::new();
    encode_row_based_notes(&mut out, &notes).unwrap();
    assert_eq!(out, b"ArrowVortex:notes:!!E9%!=T#H\"!d".to_vec());
}

#[test]
fn row_based_example_decodes_exactly() {
    let notes = match decode(b"ArrowVortex:notes:!!E9%!=T#H\"!d").unwrap() {
        DecodeResult::RowBasedNotes(notes) => notes,
        _ => panic!("unexpected data type"),
    };
    assert_eq!(
        notes,
        vec![
            Note { pos: 0u64, column: 0, kind: NoteKind::Tap },
            Note { pos: 12, column: 1, kind: NoteKind::Tap },
            Note { pos: 24, column: 2, kind: NoteKind::Tap },
            Note { pos: 36, column: 3, kind: NoteKind::Tap },
        ]
    );
}

#[test]
fn time_based_example_encodes_exactly() {
    let notes = [
        Note { pos: time(0.0), column: 0, kind: NoteKind::Tap },
        Note { pos: time(0.25), column: 1, kind: NoteKind::Tap },
        Note { pos: time(0.5), column: 2, kind: NoteKind::Tap },
        Note { pos: time(0.75), column: 3, kind: NoteKind::Tap },
    ];
    let mut out = Vec::new();
    encode_time_based_notes(&mut out, &notes).unwrap();
    assert_eq!(out, b"ArrowVortex:notes:!<`B&z!!!!\"z!!(A1!WW3#!!!#W56ClczkW]".to_vec());
}

#[test]
fn time_based_example_round_trips() {
    let notes = vec![
        Note { pos: time(0.0), column: 0, kind: NoteKind::Tap },
        Note { pos: time(0.25), column: 1, kind: NoteKind::Tap },
        Note { pos: time(0.5), column: 2, kind: NoteKind::Tap },
        Note { pos: time(0.75), column: 3, kind: NoteKind::Tap },
    ];
    let mut out = Vec::new();
    encode_time_based_notes(&mut out, &notes).unwrap();
    let decoded = match decode(&out).unwrap() {
        DecodeResult::TimeBasedNotes(notes) => notes,
        _ => panic!("unexpected data type"),
    };
    assert_eq!(decoded, notes);
}

#[test]
fn all_note_kinds_round_trip() {
    let notes = vec![
        Note { pos: 0u64, column: 0, kind: NoteKind::Tap },
        Note { pos: 12, column: 1, kind: NoteKind::Hold { end_pos: 48 } },
        Note { pos: 24, column: 2, kind: NoteKind::Mine },
        Note { pos: 36, column: 3, kind: NoteKind::Roll { end_pos: 60 } },
        Note { pos: 48, column: 126, kind: NoteKind::Lift },
        Note { pos: 96, column: 127, kind: NoteKind::Fake },
    ];
    let mut out = Vec::new();
    encode_row_based_notes(&mut out, &notes).unwrap();
    let decoded = match decode(&out).unwrap() {
        DecodeResult::RowBasedNotes(notes) => notes,
        _ => panic!("unexpected data type"),
    };
    assert_eq!(decoded, notes);
}

#[test]
fn unsorted_rows_are_rejected() {
    let notes = [
        Note { pos: 5u64, column: 0, kind: NoteKind::Tap },
        Note { pos: 3, column: 0, kind: NoteKind::Tap },
    ];
    let mut out = Vec::new();
    assert_eq!(
        encode_row_based_notes(&mut out, &notes),
        Err(EncodeError::NotSorted)
    );
    assert!(out.is_empty());
}

#[test]
fn equal_rows_need_sorted_columns() {
    let notes = [
        Note { pos: 5u64, column: 1, kind: NoteKind::Tap },
        Note { pos: 5, column: 0, kind: NoteKind::Tap },
    ];
    let mut out = Vec::new();
    assert_eq!(
        encode_row_based_notes(&mut out, &notes),
        Err(EncodeError::NotSorted)
    );
}

#[test]
fn nan_position_is_never_sorted() {
    let notes = [
        Note { pos: time(f64::NAN), column: 0, kind: NoteKind::Tap },
        Note { pos: time(1.0), column: 0, kind: NoteKind::Tap },
    ];
    let mut out = Vec::new();
    assert_eq!(
        encode_time_based_notes(&mut out, &notes),
        Err(EncodeError::NotSorted)
    );
}

#[test]
fn negative_zero_sorts_equal_to_zero() {
    let notes = [
        Note { pos: time(-0.0), column: 1, kind: NoteKind::Tap },
        Note { pos: time(0.0), column: 0, kind: NoteKind::Tap },
    ];
    // -0.0 and 0.0 compare equal, so the columns decide: 1 then 0 is out of
    // order.
    let mut out = Vec::new();
    assert_eq!(
        encode_time_based_notes(&mut out, &notes),
        Err(EncodeError::NotSorted)
    );

    let sorted = [
        Note { pos: time(-1.5), column: 0, kind: NoteKind::Tap },
        Note { pos: time(-0.0), column: 0, kind: NoteKind::Tap },
        Note { pos: time(0.0), column: 1, kind: NoteKind::Tap },
        Note { pos: time(2.5), column: 0, kind: NoteKind::Tap },
    ];
    let mut out = Vec::new();
    encode_time_based_notes(&mut out, &sorted).unwrap();
    let decoded = match decode(&out).unwrap() {
        DecodeResult::TimeBasedNotes(notes) => notes,
        _ => panic!("unexpected data type"),
    };
    assert_eq!(decoded.len(), 4);
    assert_eq!(decoded[0].pos.bits, (-1.5f64).to_bits());
    assert_eq!(decoded[1].pos.bits, (-0.0f64).to_bits());
}

#[test]
fn unknown_note_type_is_reported() {
    // Armor a hand-built body: flag 0, one note, extended record in column
    // 0 with start 0, end 0 and the unknown tag 7.
    let mut encoder = Base85Encoder::new();
    for &byte in &[0x00, 0x01, 0x80, 0x00, 0x00, 0x07] {
        encoder.write(byte);
    }
    encoder.flush_buffer();
    let mut text = b"ArrowVortex:notes:".to_vec();
    text.extend_from_slice(&encoder.into_bytes());
    assert_eq!(
        decode(&text).unwrap_err(),
        DecodeError::UnknownNoteType { note_type: 7 }
    );
}

#[test]
fn unknown_tempo_event_type_is_reported() {
    // Armor a hand-built body: a run of one event with the unknown kind 99,
    // whose row still parses first.
    let mut encoder = Base85Encoder::new();
    for &byte in &[0x01, 99, 0x00, 0x00, 0x00, 0x00] {
        encoder.write(byte);
    }
    encoder.flush_buffer();
    let mut text = b"ArrowVortex:tempo:".to_vec();
    text.extend_from_slice(&encoder.into_bytes());
    assert_eq!(
        decode(&text).unwrap_err(),
        DecodeError::UnknownTempoEventType { tempo_event_type: 99 }
    );
}

#[test]
fn missing_signature_is_reported() {
    assert_eq!(decode(b"hello world").unwrap_err(), DecodeError::MissingSignature);
    assert_eq!(decode(b""), Err(DecodeError::MissingSignature));
    assert_eq!(
        decode(b"ArrowVortex:other:!!"),
        Err(DecodeError::MissingSignature)
    );
}

#[test]
fn truncated_note_stream_is_reported() {
    // An empty body after the signature: even the flag byte is missing.
    assert_eq!(
        decode(b"ArrowVortex:notes:").unwrap_err(),
        DecodeError::UnexpectedEof
    );
    // A count promising more notes than the stream holds ends early: flag
    // 0, count 2, but only one tap record follows (a full armor word, so
    // no padding bytes blur the cut).
    let mut encoder = Base85Encoder::new();
    for &byte in &[0x00, 0x02, 0x05, 0x00] {
        encoder.write(byte);
    }
    encoder.flush_buffer();
    let mut text = b"ArrowVortex:notes:".to_vec();
    text.extend_from_slice(&encoder.into_bytes());
    assert_eq!(decode(&text).unwrap_err(), DecodeError::UnexpectedEof);
}

#[test]
fn fixed_width_fields_read_little_endian() {
    let bytes = [0x78, 0x56, 0x34, 0x12, 0xEF];
    let mut pos = 0;
    assert_eq!(
        arrowvortex_clipboard::decode_u32(&bytes, &mut pos).unwrap(),
        0x12345678
    );
    assert_eq!(pos, 4);

    let x = 2.5f64.to_bits().to_le_bytes();
    let mut pos = 0;
    let f = arrowvortex_clipboard::decode_f64_bits(&x, &mut pos).unwrap();
    assert_eq!(f.bits, 2.5f64.to_bits());
    assert_eq!(pos, 8);
}

#[test]
fn truncated_fixed_width_fields_are_reported() {
    let mut pos = 0;
    assert_eq!(
        arrowvortex_clipboard::decode_u32(&[1, 2, 3], &mut pos),
        Err(DecodeError::UnexpectedEof)
    );
    let mut pos = 0;
    assert_eq!(
        arrowvortex_clipboard::decode_f64_bits(&[1, 2, 3, 4, 5, 6, 7], &mut pos),
        Err(DecodeError::UnexpectedEof)
    );
}

#[test]
fn truncated_varint_is_reported() {
    // Continuation bits forever: no terminating byte.
    let bytes = [0xFF, 0xFF, 0xFF];
    let mut pos = 0;
    assert_eq!(
        decode_varint(&bytes, &mut pos),
        Err(DecodeError::UnexpectedEof)
    );
}
