//! The codec's round-trip laws, stated once over the whole pipeline.
//!
//! Each law is phrased over the same specification functions the executable
//! functions' contracts use, so together with those contracts it describes
//! the executable round trip: encoding a canonically sorted, in-range
//! sequence and decoding the produced text yields the sequence back.

use vstd::prelude::*;

use crate::base85::b85_decode;
use crate::base85::b85_encode;
use crate::base85::lemma_b85_round_trip;
use crate::decode::has_notes_signature;
use crate::decode::has_tempo_signature;
use crate::decode::DecodeError;
use crate::notes::notes_section_bytes;
use crate::notes::notes_stream_bytes;
use crate::notes::notes_text;
use crate::notes::notes_wf;
use crate::notes::parse_notes_section;
use crate::notes::lemma_parse_notes_section_round_trip;
use crate::pos::Position;
use crate::tempo::parse_tempo;
use crate::tempo::tempo_events_wf;
use crate::tempo::tempo_runs_bytes;
use crate::tempo::tempo_text;
use crate::tempo::lemma_parse_tempo_round_trip;
use crate::wire::notes_signature;
use crate::wire::tempo_signature;
use crate::Note;
use crate::TempoEventView;

verus! {

/// Round trip for note streams: the clipboard text of any in-range note
/// sequence carries the note signature, and its unarmored body decodes to
/// the flag byte and exactly the original notes.
///
/// Together with the contracts of [`encode_notes`](crate::encode_notes) and
/// [`decode`](crate::decode) this says that decoding an encoded sorted
/// stream returns the original sequence, position domain included.
pub proof fn lemma_clipboard_notes_round_trip<P: Position>(
    time_based: bool,
    notes: Seq<Note<P>>,
)
    requires
        notes_wf(notes),
        notes.len() < 0x1_0000_0000_0000_0000,
    ensures
        ({
            let body = b85_decode(notes_text(time_based, notes).skip(18));
            &&& has_notes_signature(notes_text(time_based, notes))
            &&& !has_tempo_signature(notes_text(time_based, notes))
            &&& body.len() > 0
            &&& body[0] == (if time_based {
                1u8
            } else {
                0u8
            })
            &&& (time_based ==> body[0] != 0)
            &&& parse_notes_section::<P>(body.skip(1)) == Ok::<
                (Seq<Note<P>>, int),
                DecodeError,
            >((notes, notes_section_bytes(notes).len() as int))
        }),
{
    let stream = notes_stream_bytes(time_based, notes);
    let text = notes_text(time_based, notes);
    assert(text.subrange(0, 18) =~= notes_signature());
    assert(text.subrange(0, 18) != tempo_signature()) by {
        assert(text.subrange(0, 18)[12] == notes_signature()[12]);
    }
    assert(text.skip(18) =~= b85_encode(stream));
    lemma_b85_round_trip(stream);
    let body = b85_decode(b85_encode(stream));
    assert(body[0] == body.take(stream.len() as int)[0]);
    let junk = body.skip(stream.len() as int);
    assert(body.skip(1) =~= notes_section_bytes(notes) + junk) by {
        assert forall|i: int| 0 <= i < body.len() - 1 implies body.skip(1)[i] == (
        notes_section_bytes(notes) + junk)[i] by {
            if i < stream.len() - 1 {
                assert(body[i + 1] == body.take(stream.len() as int)[i + 1]);
            }
        }
    }
    lemma_parse_notes_section_round_trip(notes, junk);
}

/// Round trip for tempo streams: the clipboard text of any in-range tempo
/// event sequence carries the tempo signature, and its unarmored body
/// parses back to exactly the original events, in order.
///
/// Together with the contracts of [`encode_tempo`](crate::encode_tempo) and
/// [`decode`](crate::decode) this says that decoding an encoded sorted
/// stream returns the original events.
pub proof fn lemma_clipboard_tempo_round_trip(evs: Seq<TempoEventView>)
    requires
        tempo_events_wf(evs),
        evs.len() < 0x1_0000_0000_0000_0000,
    ensures
        has_tempo_signature(tempo_text(evs)),
        !has_notes_signature(tempo_text(evs)),
        parse_tempo(b85_decode(tempo_text(evs).skip(18))) == Ok::<
            (Seq<TempoEventView>, int),
            DecodeError,
        >((evs, tempo_runs_bytes(evs).len() as int)),
{
    let stream = tempo_runs_bytes(evs);
    let text = tempo_text(evs);
    assert(text.subrange(0, 18) =~= tempo_signature());
    assert(text.subrange(0, 18) != notes_signature()) by {
        assert(text.subrange(0, 18)[12] == tempo_signature()[12]);
    }
    assert(text.skip(18) =~= b85_encode(stream));
    lemma_b85_round_trip(stream);
    let body = b85_decode(b85_encode(stream));
    let junk = body.skip(stream.len() as int);
    assert(body =~= stream + junk) by {
        assert forall|i: int| 0 <= i < body.len() implies body[i] == (stream + junk)[i] by {
            if i < stream.len() {
                assert(body[i] == body.take(stream.len() as int)[i]);
            }
        }
    }
    lemma_parse_tempo_round_trip(evs, junk);
    assert(parse_tempo(stream + junk) == parse_tempo(body));
}

/// The varint codec's shape laws: encoding zero takes exactly one zero
/// byte; every byte of an encoding but the last carries the continuation
/// bit and the last does not; and a stream that never clears the
/// continuation bit (or any fixed-width field cut short) fails with
/// `UnexpectedEof` instead of yielding a value.
pub proof fn lemma_varint_shape_and_truncation(v: u64, s: Seq<u8>)
    ensures
        crate::wire::varint_bytes(0) == seq![0u8],
        forall|i: int|
            0 <= i < crate::wire::varint_bytes(v).len() - 1
                ==> #[trigger] crate::wire::varint_bytes(v)[i] >= 128,
        crate::wire::varint_bytes(v)[crate::wire::varint_bytes(v).len() - 1] < 128,
        (forall|j: int| 0 <= j < s.len() ==> s[j] >= 128) ==> crate::wire::parse_varint(s)
            == Err::<(u64, int), DecodeError>(DecodeError::UnexpectedEof),
        s.len() < 4 ==> crate::wire::parse_u32(s) == Err::<(u32, int), DecodeError>(
            DecodeError::UnexpectedEof,
        ),
        s.len() < 8 ==> crate::wire::parse_u64(s) == Err::<(u64, int), DecodeError>(
            DecodeError::UnexpectedEof,
        ),
{
    assert(crate::wire::varint_bytes(0) =~= seq![0u8]);
    crate::wire::lemma_varint_bytes_shape(v);
    if forall|j: int| 0 <= j < s.len() ==> s[j] >= 128 {
        crate::wire::lemma_parse_varint_all_continuation(s);
    }
}

} // verus!
