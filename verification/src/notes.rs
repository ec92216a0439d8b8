//! The mathematical model of the note stream: one record per note, preceded
//! by a varint count, all behind the "time based" flag byte and the base85
//! armor.
//!
//! A record opens with one byte whose top bit says whether the note is
//! extended and whose low seven bits are the column. A plain record (a tap)
//! carries just the start position. An extended record carries the start
//! position, an end position, and a tag byte selecting the kind; kinds
//! without a genuine end position write the start position twice.

use vstd::prelude::*;

use crate::decode::DecodeError;
use crate::pos::Position;
use crate::wire::lemma_varint_round_trip;
use crate::wire::parse_varint;
use crate::wire::varint_bytes;
use crate::Note;
use crate::NoteKind;

verus! {

/// Whether a note's fields fit the wire format: the column must fit in the
/// head byte's seven low bits.
pub open spec fn note_wf<P: Position>(n: Note<P>) -> bool {
    n.column < 128
}

/// All notes of a sequence fit the wire format.
pub open spec fn notes_wf<P: Position>(notes: Seq<Note<P>>) -> bool {
    forall|i: int| 0 <= i < notes.len() ==> note_wf(#[trigger] notes[i])
}

/// The order the encoder requires: non-decreasing by position, then column.
pub open spec fn note_pair_sorted<P: Position>(a: Note<P>, b: Note<P>) -> bool {
    a.pos.lt_spec(b.pos) || (a.pos.eq_spec(b.pos) && a.column <= b.column)
}

/// A sequence is sorted when every adjacent pair is in order.
pub open spec fn notes_sorted<P: Position>(notes: Seq<Note<P>>) -> bool {
    forall|i: int|
        0 <= i < notes.len() - 1 ==> #[trigger] note_pair_sorted(notes[i], notes[i + 1])
}

/// The head byte of a note record: the column in the low seven bits, the
/// top bit set exactly on extended (non-tap) records.
pub open spec fn note_head_byte<P: Position>(n: Note<P>) -> u8 {
    match n.kind {
        NoteKind::Tap => (n.column % 128) as u8,
        _ => (n.column % 128 + 128) as u8,
    }
}

/// The serialized bytes of one note record.
pub open spec fn note_bytes<P: Position>(n: Note<P>) -> Seq<u8> {
    match n.kind {
        NoteKind::Tap => seq![note_head_byte(n)] + n.pos.wire_bytes(),
        NoteKind::Hold { end_pos } => seq![note_head_byte(n)] + n.pos.wire_bytes()
            + end_pos.wire_bytes() + seq![0u8],
        NoteKind::Mine => seq![note_head_byte(n)] + n.pos.wire_bytes() + n.pos.wire_bytes()
            + seq![1u8],
        NoteKind::Roll { end_pos } => seq![note_head_byte(n)] + n.pos.wire_bytes()
            + end_pos.wire_bytes() + seq![2u8],
        NoteKind::Lift => seq![note_head_byte(n)] + n.pos.wire_bytes() + n.pos.wire_bytes()
            + seq![3u8],
        NoteKind::Fake => seq![note_head_byte(n)] + n.pos.wire_bytes() + n.pos.wire_bytes()
            + seq![4u8],
    }
}

/// The serialized records of a note sequence, in order.
pub open spec fn notes_concat<P: Position>(notes: Seq<Note<P>>) -> Seq<u8>
    decreases notes.len(),
{
    if notes.len() == 0 {
        Seq::empty()
    } else {
        note_bytes(notes[0]) + notes_concat(notes.skip(1))
    }
}

/// The whole note section (after the flag byte): a varint count, then the
/// records.
pub open spec fn notes_section_bytes<P: Position>(notes: Seq<Note<P>>) -> Seq<u8> {
    varint_bytes(notes.len() as u64) + notes_concat(notes)
}

/// The raw bytes of a whole note stream, before the armor goes on: the
/// "time based" flag byte, then the note section.
pub open spec fn notes_stream_bytes<P: Position>(time_based: bool, notes: Seq<Note<P>>) -> Seq<
    u8,
> {
    seq![
        (if time_based {
            1u8
        } else {
            0u8
        }),
    ] + notes_section_bytes(notes)
}

/// The full clipboard text of a note stream: the signature, then the
/// armored stream bytes.
pub open spec fn notes_text<P: Position>(time_based: bool, notes: Seq<Note<P>>) -> Seq<u8> {
    crate::wire::notes_signature() + crate::base85::b85_encode(
        notes_stream_bytes(time_based, notes),
    )
}

/// Parses one note record from the front of `s`.
pub open spec fn parse_note<P: Position>(s: Seq<u8>) -> Result<(Note<P>, int), DecodeError> {
    if s.len() == 0 {
        Err(DecodeError::UnexpectedEof)
    } else {
        let fb = s[0];
        let column = (fb as int % 128) as u8;
        match P::parse_pos(s.skip(1)) {
            Err(e) => Err(e),
            Ok((p, n1)) => {
                if fb < 128 {
                    Ok((Note { pos: p, column, kind: NoteKind::Tap }, 1 + n1))
                } else {
                    match P::parse_pos(s.skip(1 + n1)) {
                        Err(e) => Err(e),
                        Ok((e2, n2)) => {
                            let ti = 1 + n1 + n2;
                            if s.len() <= ti {
                                Err(DecodeError::UnexpectedEof)
                            } else {
                                let tag = s[ti];
                                if tag == 0 {
                                    Ok(
                                        (
                                            Note {
                                                pos: p,
                                                column,
                                                kind: NoteKind::Hold { end_pos: e2 },
                                            },
                                            ti + 1,
                                        ),
                                    )
                                } else if tag == 1 {
                                    Ok((Note { pos: p, column, kind: NoteKind::Mine }, ti + 1))
                                } else if tag == 2 {
                                    Ok(
                                        (
                                            Note {
                                                pos: p,
                                                column,
                                                kind: NoteKind::Roll { end_pos: e2 },
                                            },
                                            ti + 1,
                                        ),
                                    )
                                } else if tag == 3 {
                                    Ok((Note { pos: p, column, kind: NoteKind::Lift }, ti + 1))
                                } else if tag == 4 {
                                    Ok((Note { pos: p, column, kind: NoteKind::Fake }, ti + 1))
                                } else {
                                    Err(DecodeError::UnknownNoteType { note_type: tag })
                                }
                            }
                        }
                    }
                }
            }
        }
    }
}

/// Parses exactly `count` note records from the front of `s`.
pub open spec fn parse_notes_rec<P: Position>(s: Seq<u8>, count: nat) -> Result<
    (Seq<Note<P>>, int),
    DecodeError,
>
    decreases count,
{
    if count == 0 {
        Ok((Seq::empty(), 0))
    } else {
        match parse_note::<P>(s) {
            Err(e) => Err(e),
            Ok((note, n)) => match parse_notes_rec::<P>(s.skip(n), (count - 1) as nat) {
                Err(e) => Err(e),
                Ok((notes, m)) => Ok((seq![note] + notes, n + m)),
            },
        }
    }
}

/// Parses the whole note section: the varint count, then that many records.
pub open spec fn parse_notes_section<P: Position>(s: Seq<u8>) -> Result<
    (Seq<Note<P>>, int),
    DecodeError,
> {
    match parse_varint(s) {
        Err(e) => Err(e),
        Ok((count, c)) => match parse_notes_rec::<P>(s.skip(c), count as nat) {
            Err(e) => Err(e),
            Ok((notes, m)) => Ok((notes, c + m)),
        },
    }
}

/// A successful record parse consumes at least one byte and no more than
/// the stream holds.
pub proof fn lemma_parse_note_consumed<P: Position>(s: Seq<u8>)
    ensures
        parse_note::<P>(s) matches Ok((n, c)) ==> 1 <= c <= s.len(),
{
    if s.len() > 0 {
        P::lemma_parse_consumed(s.skip(1));
        match P::parse_pos(s.skip(1)) {
            Ok((p, n1)) => {
                P::lemma_parse_consumed(s.skip(1 + n1));
            },
            Err(e) => {},
        }
    }
}

/// Round trip for one record: parsing a serialized in-range note, with
/// anything after it, yields the note back.
pub proof fn lemma_parse_note_round_trip<P: Position>(n: Note<P>, rest: Seq<u8>)
    requires
        note_wf(n),
    ensures
        parse_note::<P>(note_bytes(n) + rest) == Ok::<(Note<P>, int), DecodeError>(
            (n, note_bytes(n).len() as int),
        ),
{
    let s = note_bytes(n) + rest;
    let fb = note_head_byte(n);
    assert(s[0] == fb);
    let pw = n.pos.wire_bytes();
    let n1 = pw.len() as int;
    match n.kind {
        NoteKind::Tap => {
            assert(fb == n.column);
            assert(s.skip(1) =~= pw + rest);
            n.pos.lemma_parse_wire(rest);
        },
        NoteKind::Hold { end_pos } => {
            lemma_parse_note_round_trip_ext(n, end_pos, 0u8, rest);
        },
        NoteKind::Mine => {
            lemma_parse_note_round_trip_ext(n, n.pos, 1u8, rest);
        },
        NoteKind::Roll { end_pos } => {
            lemma_parse_note_round_trip_ext(n, end_pos, 2u8, rest);
        },
        NoteKind::Lift => {
            lemma_parse_note_round_trip_ext(n, n.pos, 3u8, rest);
        },
        NoteKind::Fake => {
            lemma_parse_note_round_trip_ext(n, n.pos, 4u8, rest);
        },
    }
}

/// Round-trip core for extended records: head byte, start, written end,
/// tag.
proof fn lemma_parse_note_round_trip_ext<P: Position>(n: Note<P>, ep: P, tag: u8, rest: Seq<u8>)
    requires
        note_wf(n),
        note_bytes(n) == seq![note_head_byte(n)] + n.pos.wire_bytes() + ep.wire_bytes()
            + seq![tag],
        !(n.kind is Tap),
        parse_note_ext_kind::<P>(tag, n.pos, ep, n.column) == Some(n),
    ensures
        parse_note::<P>(note_bytes(n) + rest) == Ok::<(Note<P>, int), DecodeError>(
            (n, note_bytes(n).len() as int),
        ),
{
    let s = note_bytes(n) + rest;
    let fb = note_head_byte(n);
    let pw = n.pos.wire_bytes();
    let ew = ep.wire_bytes();
    let n1 = pw.len() as int;
    let n2 = ew.len() as int;
    assert(s[0] == fb);
    assert(fb == n.column + 128);
    assert(s.skip(1) =~= pw + (ew + seq![tag] + rest));
    n.pos.lemma_parse_wire(ew + seq![tag] + rest);
    assert(s.skip(1 + n1) =~= ew + (seq![tag] + rest));
    ep.lemma_parse_wire(seq![tag] + rest);
    assert(s[1 + n1 + n2] == tag);
    assert(s.len() == 1 + n1 + n2 + 1 + rest.len());
}

/// The note an extended record's tag byte selects, given the parsed
/// positions and column; `None` for an unknown tag.
pub open spec fn parse_note_ext_kind<P: Position>(tag: u8, p: P, e2: P, column: u8) -> Option<
    Note<P>,
> {
    if tag == 0 {
        Some(Note { pos: p, column, kind: NoteKind::Hold { end_pos: e2 } })
    } else if tag == 1 {
        Some(Note { pos: p, column, kind: NoteKind::Mine })
    } else if tag == 2 {
        Some(Note { pos: p, column, kind: NoteKind::Roll { end_pos: e2 } })
    } else if tag == 3 {
        Some(Note { pos: p, column, kind: NoteKind::Lift })
    } else if tag == 4 {
        Some(Note { pos: p, column, kind: NoteKind::Fake })
    } else {
        None
    }
}

/// Appending one note to a sequence appends its record to the serialized
/// stream.
pub proof fn lemma_notes_concat_snoc<P: Position>(notes: Seq<Note<P>>, i: int)
    requires
        0 <= i < notes.len(),
    ensures
        notes_concat(notes.take(i + 1)) == notes_concat(notes.take(i)) + note_bytes(notes[i]),
    decreases i,
{
    if i == 0 {
        assert(notes.take(1) =~= seq![notes[0]]);
        assert(notes.take(1).skip(1) =~= Seq::<Note<P>>::empty());
        assert(notes_concat(notes.take(1).skip(1)) == Seq::<u8>::empty()) by {
            reveal_with_fuel(notes_concat, 2);
        }
        assert(notes.take(0) =~= Seq::<Note<P>>::empty());
        assert(note_bytes(notes[0]) + Seq::<u8>::empty() =~= note_bytes(notes[0]));
        assert(Seq::<u8>::empty() + note_bytes(notes[0]) =~= note_bytes(notes[0]));
    } else {
        let t = notes.skip(1);
        lemma_notes_concat_snoc(t, i - 1);
        assert(notes.take(i + 1)[0] == notes[0]);
        assert(notes.take(i + 1).skip(1) =~= t.take(i));
        assert(notes.take(i)[0] == notes[0]);
        assert(notes.take(i).skip(1) =~= t.take(i - 1));
        assert(t[i - 1] == notes[i]);
        assert(note_bytes(notes[0]) + (notes_concat(t.take(i - 1)) + note_bytes(notes[i]))
            =~= note_bytes(notes[0]) + notes_concat(t.take(i - 1)) + note_bytes(notes[i]));
    }
}

/// Round trip for a run of records: parsing the concatenation of `count`
/// serialized in-range notes, with anything after it, yields them all back.
pub proof fn lemma_parse_notes_rec_round_trip<P: Position>(notes: Seq<Note<P>>, rest: Seq<u8>)
    requires
        notes_wf(notes),
    ensures
        parse_notes_rec::<P>(notes_concat(notes) + rest, notes.len()) == Ok::<
            (Seq<Note<P>>, int),
            DecodeError,
        >((notes, notes_concat(notes).len() as int)),
    decreases notes.len(),
{
    if notes.len() == 0 {
        assert(notes =~= Seq::<Note<P>>::empty());
    } else {
        let n0 = notes[0];
        let tail = notes.skip(1);
        let s = notes_concat(notes) + rest;
        assert(s =~= note_bytes(n0) + (notes_concat(tail) + rest));
        lemma_parse_note_round_trip(n0, notes_concat(tail) + rest);
        assert(s.skip(note_bytes(n0).len() as int) =~= notes_concat(tail) + rest);
        assert(notes_wf(tail)) by {
            assert(forall|i: int|
                0 <= i < tail.len() ==> #[trigger] tail[i] == notes[i + 1]);
        }
        lemma_parse_notes_rec_round_trip(tail, rest);
        assert(seq![n0] + tail =~= notes);
    }
}

/// Round trip for the whole note section.
pub proof fn lemma_parse_notes_section_round_trip<P: Position>(notes: Seq<Note<P>>, rest: Seq<u8>)
    requires
        notes_wf(notes),
        notes.len() < 0x1_0000_0000_0000_0000,
    ensures
        parse_notes_section::<P>(notes_section_bytes(notes) + rest) == Ok::<
            (Seq<Note<P>>, int),
            DecodeError,
        >((notes, notes_section_bytes(notes).len() as int)),
{
    let cnt = notes.len() as u64;
    let vb = varint_bytes(cnt);
    let s = notes_section_bytes(notes) + rest;
    assert(s =~= vb + (notes_concat(notes) + rest));
    lemma_varint_round_trip(cnt, notes_concat(notes) + rest);
    assert(s.skip(vb.len() as int) =~= notes_concat(notes) + rest);
    lemma_parse_notes_rec_round_trip(notes, rest);
}

} // verus!
