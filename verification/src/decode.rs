//! Decoding: clipboard text to structured chart data.

use vstd::prelude::*;
use vstd::arithmetic::div_mod::lemma_fundamental_div_mod;
use vstd::arithmetic::div_mod::lemma_fundamental_div_mod_converse;

use crate::base85::b85_decode;
use crate::base85::b85_digit;
use crate::base85::b85_digit_at;
use crate::base85::b85_group_dword;
use crate::base85::b85_group_value;
use crate::base85::u32_be_bytes;
use crate::base85::ZERO_WORD_CHAR;
use crate::wire::parse_varint;
use crate::wire::lemma_parse_varint_consumed;
use crate::wire::lemma_parse_varint_all_continuation;
use crate::wire::parse_u32;
use crate::wire::parse_u64;
use crate::wire::u32_le_value;
use crate::wire::u64_le_value;
use crate::wire::varint_combine;
use crate::order::F64Bits;
use crate::pos::Position;
use crate::notes::parse_note;
use crate::notes::parse_notes_rec;
use crate::notes::parse_notes_section;
use crate::notes::lemma_parse_note_consumed;
use crate::tempo::parse_tempo_event;
use crate::tempo::parse_tempo_run;
use crate::tempo::parse_tempo_after_count;
use crate::tempo::parse_tempo;
use crate::tempo::lemma_parse_tempo_event_consumed;
use crate::tempo::lemma_parse_tempo_run_consumed;
use crate::tempo::lemma_parse_tempo_after_count_unfold;
use crate::tempo_views;
use crate::TempoEvent;
use crate::TempoEventKind;
use crate::Note;
use crate::NoteKind;

verus! {

broadcast use vstd::seq_lib::lemma_seq_skip_of_skip;

/// Error in a [`decode`](crate::decode) call.
#[derive(Debug, Clone, Copy, PartialEq, Eq, Structural)]
pub enum DecodeError {
    /// Input ended unexpectedly.
    UnexpectedEof,
    /// Input does not have the required ArrowVortex signature at the start.
    MissingSignature,
    /// Input is of non-trivial type and cannot be decoded by this library.
    NonTrivial,
    /// Input contained an unknown note type.
    UnknownNoteType {
        /// The unknown note type integer that was encountered.
        note_type: u8,
    },
    /// Input contained an unknown tempo event type.
    UnknownTempoEventType {
        /// The unknown tempo event type integer that was encountered.
        tempo_event_type: u8,
    },
}

/// The digit value of one armor character, wrapping below 33 as
/// [`b85_digit`] describes.
fn b85_digit_of(c: u8) -> (d: u8)
    ensures
        d as int == b85_digit(c),
{
    if c >= 33 {
        c - 33
    } else {
        c + 223
    }
}

/// The character group at the head of `s`: the whole of `s` when fewer than
/// five characters remain, else the first five.
pub open spec fn b85_head_group(s: Seq<u8>) -> Seq<u8> {
    if s.len() < 5 {
        s
    } else {
        s.take(5)
    }
}

/// Unfolding step of [`b85_decode`] for a head that is not the zero-word
/// shorthand.
proof fn lemma_b85_decode_step(s: Seq<u8>)
    requires
        s.len() > 0,
        s[0] != ZERO_WORD_CHAR,
    ensures
        b85_decode(s) == u32_be_bytes(b85_group_dword(b85_head_group(s))) + b85_decode(
            if s.len() < 5 {
                Seq::<u8>::empty()
            } else {
                s.skip(5)
            },
        ),
{
    if s.len() < 5 {
        assert(u32_be_bytes(b85_group_dword(s)) + b85_decode(Seq::<u8>::empty()) =~= u32_be_bytes(
            b85_group_dword(s),
        ));
    }
}

/// Reads the character group at `i` of `data`: its 32-bit word and the
/// number of characters it spans.
fn decode_b85_group(data: &[u8], i: usize) -> (r: (u32, usize))
    requires
        i < data@.len(),
    ensures
        r.0 == b85_group_dword(b85_head_group(data@.skip(i as int))),
        r.1 == if data@.len() - i < 5 {
            data@.len() - i
        } else {
            5int
        },
{
    let ghost g = b85_head_group(data@.skip(i as int));
    let rem = data.len() - i;
    let d0 = b85_digit_of(data[i]) as u64;
    let d1: u64 = if rem > 1 {
        b85_digit_of(data[i + 1]) as u64
    } else {
        85
    };
    let d2: u64 = if rem > 2 {
        b85_digit_of(data[i + 2]) as u64
    } else {
        85
    };
    let d3: u64 = if rem > 3 {
        b85_digit_of(data[i + 3]) as u64
    } else {
        85
    };
    let d4: u64 = if rem > 4 {
        b85_digit_of(data[i + 4]) as u64
    } else {
        85
    };
    let val: u64 = d0 * 52200625 + d1 * 614125 + d2 * 7225 + d3 * 85 + d4;
    let dword: u32 = (val % 0x1_0000_0000) as u32;
    proof {
        assert(b85_digit_at(g, 0) == d0);
        assert(b85_digit_at(g, 1) == d1);
        assert(b85_digit_at(g, 2) == d2);
        assert(b85_digit_at(g, 3) == d3);
        assert(b85_digit_at(g, 4) == d4);
        assert(b85_group_value(g) == val);
    }
    let step = if rem < 5 {
        rem
    } else {
        5
    };
    (dword, step)
}

/// Converts `data` from the base85 armor into the raw bytes it carries,
/// eagerly; see [`b85_decode`] for the word-by-word meaning.
pub fn decode_dwords_from_base85(data: &[u8]) -> (r: Vec<u8>)
    ensures
        r@ == b85_decode(data@),
{
    let mut out: Vec<u8> = Vec::new();
    let mut i: usize = 0;
    proof {
        assert(data@.skip(0) =~= data@);
        assert(out@ + b85_decode(data@) =~= b85_decode(data@));
    }
    while i < data.len()
        invariant
            i <= data@.len(),
            b85_decode(data@) == out@ + b85_decode(data@.skip(i as int)),
        decreases data@.len() - i,
    {
        let ghost s_i = data@.skip(i as int);
        let c = data[i];
        assert(s_i[0] == c);
        if c == ZERO_WORD_CHAR {
            out.push(0);
            out.push(0);
            out.push(0);
            out.push(0);
            i = i + 1;
            proof {
                assert(s_i.skip(1) =~= data@.skip(i as int));
                assert(b85_decode(data@) =~= out@ + b85_decode(data@.skip(i as int)));
            }
        } else {
            let (dword, step) = decode_b85_group(data, i);
            out.push((dword / 0x100_0000) as u8);
            out.push(((dword / 0x1_0000) % 0x100) as u8);
            out.push(((dword / 0x100) % 0x100) as u8);
            out.push((dword % 0x100) as u8);
            i = i + step;
            proof {
                lemma_b85_decode_step(s_i);
                if s_i.len() < 5 {
                    assert(data@.skip(i as int) =~= Seq::<u8>::empty());
                } else {
                    assert(s_i.skip(5) =~= data@.skip(i as int));
                }
                assert(b85_decode(data@) =~= out@ + b85_decode(data@.skip(i as int)));
            }
        }
    }
    proof {
        assert(data@.skip(i as int) =~= Seq::<u8>::empty());
        assert(b85_decode(data@) =~= out@);
    }
    out
}

/// Reads a LEB128 varint at `*pos`, advancing `*pos` past it; the result and
/// the bytes consumed are exactly what [`parse_varint`] gives on the stream
/// from `*pos`. When the stream ends before a terminating byte, the cursor
/// parks at the end of the stream and the call fails with `UnexpectedEof`.
pub fn decode_varint(data: &[u8], pos: &mut usize) -> (r: Result<u64, DecodeError>)
    requires
        *old(pos) <= data@.len(),
    ensures
        *final(pos) <= data@.len(),
        match parse_varint(data@.skip(*old(pos) as int)) {
            Ok((v, n)) => r == Ok::<u64, DecodeError>(v) && *final(pos) == *old(pos) + n,
            Err(e) => r == Err::<u64, DecodeError>(e) && *final(pos) == data@.len(),
        },
{
    let start = *pos;
    let mut end = start;
    while end < data.len() && data[end] >= 128
        invariant
            start <= end <= data@.len(),
            forall|j: int| start <= j < end ==> data@[j] >= 128,
        decreases data@.len() - end,
    {
        end = end + 1;
    }
    if end == data.len() {
        *pos = end;
        proof {
            lemma_parse_varint_all_continuation(data@.skip(start as int));
        }
        return Err(DecodeError::UnexpectedEof);
    }
    // data[end] terminates the varint; fold the digits back to front, the
    // way the parsing function is defined.
    let mut v: u64 = data[end] as u64;
    let mut j = end;
    proof {
        assert(data@.skip(end as int)[0] == data@[end as int]);
    }
    while j > start
        invariant
            start <= j <= end < data@.len(),
            forall|k: int| start <= k < end ==> data@[k] >= 128,
            parse_varint(data@.skip(j as int)) == Ok::<(u64, int), DecodeError>(
                (v, end - j + 1),
            ),
        decreases j,
    {
        j = j - 1;
        let b = data[j];
        assert(b >= 128);
        let low: u64 = v % 0x200_0000_0000_0000;
        let next: u64 = ((b - 128) as u64) + 128 * low;
        proof {
            lemma_varint_combine_exec(b, v);
            assert(data@.skip(j as int)[0] == b);
            assert(data@.skip(j as int).skip(1) =~= data@.skip(j as int + 1));
        }
        v = next;
    }
    *pos = end + 1;
    Ok(v)
}

/// The truncating fold the decoder computes agrees with [`varint_combine`].
proof fn lemma_varint_combine_exec(b: u8, v: u64)
    requires
        b >= 128,
    ensures
        varint_combine(b, v) == (b - 128) + 128 * (v as int % 0x200_0000_0000_0000),
{
    let d = (b - 128) as int;
    let q = v as int / 0x200_0000_0000_0000;
    let t = v as int % 0x200_0000_0000_0000;
    lemma_fundamental_div_mod(v as int, 0x200_0000_0000_0000);
    assert(d + 128 * (v as int) == q * 0x1_0000_0000_0000_0000 + (d + 128 * t));
    lemma_fundamental_div_mod_converse(
        d + 128 * (v as int),
        0x1_0000_0000_0000_0000,
        q,
        d + 128 * t,
    );
}

/// Reads one note record at `*pos`, advancing `*pos` past it; the outcome
/// is exactly what [`parse_note`] gives on the stream from `*pos`.
fn decode_note<P: Position>(data: &[u8], pos: &mut usize) -> (r: Result<Note<P>, DecodeError>)
    requires
        *old(pos) <= data@.len(),
    ensures
        *final(pos) <= data@.len(),
        match parse_note::<P>(data@.skip(*old(pos) as int)) {
            Ok((n, c)) => r == Ok::<Note<P>, DecodeError>(n) && *final(pos) == *old(pos) + c,
            Err(e) => r == Err::<Note<P>, DecodeError>(e),
        },
{
    let ghost start = *pos;
    let ghost s = data@.skip(start as int);
    if *pos == data.len() {
        return Err(DecodeError::UnexpectedEof);
    }
    let fb = data[*pos];
    *pos = *pos + 1;
    proof {
        assert(s[0] == fb);
        assert(data@.skip(*pos as int) =~= s.skip(1));
    }
    let p: P = match P::read_pos(data, pos) {
        Ok(p) => p,
        Err(e) => {
            return Err(e);
        },
    };
    let ghost n1 = *pos - start - 1;
    proof {
        P::lemma_parse_consumed(s.skip(1));
    }
    let column = fb % 128;
    if fb < 128 {
        Ok(Note { pos: p, column, kind: NoteKind::Tap })
    } else {
        proof {
            vstd::seq_lib::lemma_seq_skip_of_skip(data@, start as int, 1 + n1);
            assert(data@.skip(*pos as int) == s.skip(1 + n1));
        }
        let e2: P = match P::read_pos(data, pos) {
            Ok(e2) => e2,
            Err(e) => {
                return Err(e);
            },
        };
        proof {
            P::lemma_parse_consumed(s.skip(1 + n1));
        }
        if *pos == data.len() {
            return Err(DecodeError::UnexpectedEof);
        }
        let tag = data[*pos];
        proof {
            vstd::seq_lib::lemma_seq_skip_of_skip(data@, start as int, *pos - start);
            assert(data@.skip(*pos as int)[0] == tag);
            assert(s.skip(*pos - start)[0] == s[*pos - start]);
        }
        *pos = *pos + 1;
        if tag == 0 {
            Ok(Note { pos: p, column, kind: NoteKind::Hold { end_pos: e2 } })
        } else if tag == 1 {
            Ok(Note { pos: p, column, kind: NoteKind::Mine })
        } else if tag == 2 {
            Ok(Note { pos: p, column, kind: NoteKind::Roll { end_pos: e2 } })
        } else if tag == 3 {
            Ok(Note { pos: p, column, kind: NoteKind::Lift })
        } else if tag == 4 {
            Ok(Note { pos: p, column, kind: NoteKind::Fake })
        } else {
            Err(DecodeError::UnknownNoteType { note_type: tag })
        }
    }
}

/// Decodes the note section at `*pos`: the varint note count, then exactly
/// that many records, in stream order. The outcome is exactly what
/// [`parse_notes_section`] gives on the stream from `*pos`.
pub fn decode_notes<P: Position>(data: &[u8], pos: &mut usize) -> (r: Result<
    Vec<Note<P>>,
    DecodeError,
>)
    requires
        *old(pos) <= data@.len(),
    ensures
        *final(pos) <= data@.len(),
        match parse_notes_section::<P>(data@.skip(*old(pos) as int)) {
            Ok((ns, c)) => r matches Ok(v) && v@ == ns && *final(pos) == *old(pos) + c,
            Err(e) => r == Err::<Vec<Note<P>>, DecodeError>(e),
        },
{
    let ghost start = *pos;
    let ghost s = data@.skip(start as int);
    let count = match decode_varint(data, pos) {
        Ok(c) => c,
        Err(e) => {
            return Err(e);
        },
    };
    let ghost mid = *pos;
    proof {
        lemma_parse_varint_consumed(s);
        vstd::seq_lib::lemma_seq_skip_of_skip(data@, start as int, mid - start);
        assert(data@.skip(mid as int) == s.skip(mid - start));
    }
    let mut result: Vec<Note<P>> = Vec::new();
    let mut k: u64 = 0;
    while k < count
        invariant
            start == *old(pos),
            start <= mid <= *pos <= data@.len(),
            k <= count,
            s == data@.skip(start as int),
            parse_varint(s) == Ok::<(u64, int), DecodeError>((count, mid - start)),
            match parse_notes_rec::<P>(data@.skip(*pos as int), (count - k) as nat) {
                Ok((tail, m)) => parse_notes_rec::<P>(s.skip(mid - start), count as nat)
                    == Ok::<(Seq<Note<P>>, int), DecodeError>(
                    (result@ + tail, (*pos - mid) + m),
                ),
                Err(e) => parse_notes_rec::<P>(s.skip(mid - start), count as nat) == Err::<
                    (Seq<Note<P>>, int),
                    DecodeError,
                >(e),
            },
        decreases count - k,
    {
        let ghost pos_before = *pos;
        let ghost res0 = result@;
        let n = match decode_note::<P>(data, pos) {
            Ok(n) => n,
            Err(e) => {
                proof {
                    assert(parse_notes_rec::<P>(data@.skip(pos_before as int), (count - k) as nat)
                        == Err::<(Seq<Note<P>>, int), DecodeError>(e));
                }
                return Err(e);
            },
        };
        result.push(n);
        k = k + 1;
        proof {
            lemma_parse_note_consumed::<P>(data@.skip(pos_before as int));
            vstd::seq_lib::lemma_seq_skip_of_skip(data@, pos_before as int, *pos - pos_before);
            let cur = data@.skip(*pos as int);
            match parse_notes_rec::<P>(cur, (count - k) as nat) {
                Ok((tail, m)) => {
                    assert(res0 + (seq![n] + tail) =~= result@ + tail);
                },
                Err(e) => {},
            }
        }
    }
    proof {
        assert(parse_notes_rec::<P>(data@.skip(*pos as int), 0) == Ok::<
            (Seq<Note<P>>, int),
            DecodeError,
        >((Seq::empty(), 0)));
        assert(result@ + Seq::<Note<P>>::empty() =~= result@);
        assert(parse_notes_rec::<P>(s.skip(mid - start), count as nat) == Ok::<
            (Seq<Note<P>>, int),
            DecodeError,
        >((result@, *pos - mid)));
        assert(parse_notes_section::<P>(s) == Ok::<(Seq<Note<P>>, int), DecodeError>(
            (result@, *pos - start),
        ));
    }
    Ok(result)
}

/// Reads one tempo event of the given kind at `*pos`, advancing `*pos` past
/// it; the outcome is exactly what [`parse_tempo_event`] gives on the stream
/// from `*pos`.
pub fn decode_single_tempo_event(data: &[u8], pos: &mut usize, kind: u8) -> (r: Result<
    TempoEvent,
    DecodeError,
>)
    requires
        *old(pos) <= data@.len(),
    ensures
        *final(pos) <= data@.len(),
        match parse_tempo_event(data@.skip(*old(pos) as int), kind) {
            Ok((ev, c)) => r matches Ok(v) && v@ == ev && *final(pos) == *old(pos) + c,
            Err(e) => r == Err::<TempoEvent, DecodeError>(e),
        },
{
    proof {
        reveal(parse_tempo_event);
    }
    let ghost start = *pos;
    let ghost s = data@.skip(start as int);
    let row = match decode_u32(data, pos) {
        Ok(v) => v,
        Err(e) => {
            return Err(e);
        },
    };
    proof {
        vstd::seq_lib::lemma_seq_skip_of_skip(data@, start as int, 4);
        assert(data@.skip(*pos as int) == s.skip(4));
    }
    let kind_val: TempoEventKind = if kind == 0 {
        let b = match decode_f64_bits(data, pos) {
            Ok(v) => v,
            Err(e) => {
                return Err(e);
            },
        };
        TempoEventKind::Bpm { bpm: b }
    } else if kind == 1 {
        let b = match decode_f64_bits(data, pos) {
            Ok(v) => v,
            Err(e) => {
                return Err(e);
            },
        };
        TempoEventKind::Stop { time: b }
    } else if kind == 2 {
        let b = match decode_f64_bits(data, pos) {
            Ok(v) => v,
            Err(e) => {
                return Err(e);
            },
        };
        TempoEventKind::Delay { time: b }
    } else if kind == 3 {
        let n = match decode_u32(data, pos) {
            Ok(v) => v,
            Err(e) => {
                return Err(e);
            },
        };
        TempoEventKind::Warp { num_skipped_rows: n }
    } else if kind == 4 {
        let nu = match decode_u32(data, pos) {
            Ok(v) => v,
            Err(e) => {
                return Err(e);
            },
        };
        proof {
            vstd::seq_lib::lemma_seq_skip_of_skip(data@, start as int, 8);
            assert(data@.skip(*pos as int) == s.skip(4).skip(4)) by {
                vstd::seq_lib::lemma_seq_skip_of_skip(data@, start as int + 4, 4);
            }
        }
        let de = match decode_u32(data, pos) {
            Ok(v) => v,
            Err(e) => {
                return Err(e);
            },
        };
        TempoEventKind::TimeSignature { numerator: nu, denominator: de }
    } else if kind == 5 {
        let n = match decode_u32(data, pos) {
            Ok(v) => v,
            Err(e) => {
                return Err(e);
            },
        };
        TempoEventKind::Ticks { num_ticks: n }
    } else if kind == 6 {
        let c = match decode_u32(data, pos) {
            Ok(v) => v,
            Err(e) => {
                return Err(e);
            },
        };
        proof {
            assert(data@.skip(*pos as int) == s.skip(4).skip(4)) by {
                vstd::seq_lib::lemma_seq_skip_of_skip(data@, start as int, 8);
                vstd::seq_lib::lemma_seq_skip_of_skip(data@, start as int + 4, 4);
            }
        }
        let m = match decode_u32(data, pos) {
            Ok(v) => v,
            Err(e) => {
                return Err(e);
            },
        };
        TempoEventKind::Combo { combo_multiplier: c, miss_multiplier: m }
    } else if kind == 7 {
        let ra = match decode_f64_bits(data, pos) {
            Ok(v) => v,
            Err(e) => {
                return Err(e);
            },
        };
        proof {
            assert(data@.skip(*pos as int) == s.skip(4).skip(8)) by {
                vstd::seq_lib::lemma_seq_skip_of_skip(data@, start as int, 12);
                vstd::seq_lib::lemma_seq_skip_of_skip(data@, start as int + 4, 8);
            }
        }
        let de = match decode_f64_bits(data, pos) {
            Ok(v) => v,
            Err(e) => {
                return Err(e);
            },
        };
        proof {
            assert(data@.skip(*pos as int) == s.skip(4).skip(16)) by {
                vstd::seq_lib::lemma_seq_skip_of_skip(data@, start as int, 20);
                vstd::seq_lib::lemma_seq_skip_of_skip(data@, start as int + 4, 16);
            }
        }
        let fl = match decode_u32(data, pos) {
            Ok(v) => v,
            Err(e) => {
                return Err(e);
            },
        };
        TempoEventKind::Speed { ratio: ra, delay: de, delay_is_time: fl != 0 }
    } else if kind == 8 {
        let b = match decode_f64_bits(data, pos) {
            Ok(v) => v,
            Err(e) => {
                return Err(e);
            },
        };
        TempoEventKind::Scroll { ratio: b }
    } else if kind == 9 {
        let n = match decode_u32(data, pos) {
            Ok(v) => v,
            Err(e) => {
                return Err(e);
            },
        };
        TempoEventKind::FakeSegment { num_fake_rows: n }
    } else if kind == 10 {
        let ml = match decode_varint(data, pos) {
            Ok(v) => v,
            Err(e) => {
                return Err(e);
            },
        };
        let ghost mstart = *pos;
        proof {
            lemma_parse_varint_consumed(s.skip(4));
            vstd::seq_lib::lemma_seq_skip_of_skip(s, 4, mstart - start - 4);
            vstd::seq_lib::lemma_seq_skip_of_skip(data@, start as int, mstart - start);
            assert(data@.skip(mstart as int) == s.skip(4).skip(mstart - start - 4));
        }
        if ((data.len() - *pos) as u64) < ml {
            return Err(DecodeError::UnexpectedEof);
        }
        let mlen = ml as usize;
        let mend = *pos + mlen;
        let mut message: Vec<u8> = Vec::new();
        let mut j: usize = *pos;
        while j < mend
            invariant
                mstart <= j <= mend,
                mend == mstart + mlen,
                mend <= data@.len(),
                message@ == data@.skip(mstart as int).take(j - mstart),
            decreases mend - j,
        {
            message.push(data[j]);
            j = j + 1;
            proof {
                assert(message@ =~= data@.skip(mstart as int).take(j - mstart));
            }
        }
        *pos = mend;
        TempoEventKind::Label { message }
    } else {
        return Err(DecodeError::UnknownTempoEventType { tempo_event_type: kind });
    };
    Ok(TempoEvent { row, kind: kind_val })
}

/// Reads a run of `count` tempo events of one kind at `*pos`, advancing
/// `*pos` past them; the outcome is exactly what [`parse_tempo_run`] gives
/// on the stream from `*pos`.
fn decode_tempo_run(data: &[u8], pos: &mut usize, kind: u8, count: u64) -> (r: Result<
    Vec<TempoEvent>,
    DecodeError,
>)
    requires
        *old(pos) <= data@.len(),
    ensures
        *final(pos) <= data@.len(),
        match parse_tempo_run(data@.skip(*old(pos) as int), kind, count as nat) {
            Ok((evs, c)) => r matches Ok(v) && tempo_views(v@) == evs && *final(pos) == *old(pos)
                + c,
            Err(e) => r == Err::<Vec<TempoEvent>, DecodeError>(e),
        },
{
    let ghost start = *pos;
    let ghost s = data@.skip(start as int);
    let mut result: Vec<TempoEvent> = Vec::new();
    let mut k: u64 = 0;
    proof {
        assert(tempo_views(result@) =~= Seq::<crate::TempoEventView>::empty());
    }
    while k < count
        invariant
            start == *old(pos),
            start <= *pos <= data@.len(),
            k <= count,
            s == data@.skip(start as int),
            match parse_tempo_run(data@.skip(*pos as int), kind, (count - k) as nat) {
                Ok((tail, m)) => parse_tempo_run(s, kind, count as nat) == Ok::<
                    (Seq<crate::TempoEventView>, int),
                    DecodeError,
                >((tempo_views(result@) + tail, (*pos - start) + m)),
                Err(e) => parse_tempo_run(s, kind, count as nat) == Err::<
                    (Seq<crate::TempoEventView>, int),
                    DecodeError,
                >(e),
            },
        decreases count - k,
    {
        let ghost pos_before = *pos;
        let ghost res0 = tempo_views(result@);
        let ev = match decode_single_tempo_event(data, pos, kind) {
            Ok(ev) => ev,
            Err(e) => {
                return Err(e);
            },
        };
        result.push(ev);
        k = k + 1;
        proof {
            lemma_parse_tempo_event_consumed(data@.skip(pos_before as int), kind);
            vstd::seq_lib::lemma_seq_skip_of_skip(data@, pos_before as int, *pos - pos_before);
            assert(tempo_views(result@) =~= res0.push(ev@));
            match parse_tempo_run(data@.skip(*pos as int), kind, (count - k) as nat) {
                Ok((tail, m)) => {
                    assert(res0 + (seq![ev@] + tail) =~= tempo_views(result@) + tail);
                },
                Err(e) => {},
            }
        }
    }
    proof {
        assert(parse_tempo_run(data@.skip(*pos as int), kind, 0) == Ok::<
            (Seq<crate::TempoEventView>, int),
            DecodeError,
        >((Seq::empty(), 0)));
        assert(tempo_views(result@) + Seq::<crate::TempoEventView>::empty() =~= tempo_views(
            result@,
        ));
    }
    Ok(result)
}

/// Decodes the tempo stream at `*pos`: run-length-grouped events until a
/// zero run count ends the stream. The outcome is exactly what
/// [`parse_tempo`] gives on the stream from `*pos`.
#[verifier::rlimit(100)]
pub fn decode_tempo(data: &[u8], pos: &mut usize) -> (r: Result<Vec<TempoEvent>, DecodeError>)
    requires
        *old(pos) <= data@.len(),
    ensures
        *final(pos) <= data@.len(),
        match parse_tempo(data@.skip(*old(pos) as int)) {
            Ok((evs, c)) => r matches Ok(v) && tempo_views(v@) == evs && *final(pos) == *old(pos)
                + c,
            Err(e) => r == Err::<Vec<TempoEvent>, DecodeError>(e),
        },
{
    let ghost start = *pos;
    let ghost s = data@.skip(start as int);
    let mut count = match decode_varint(data, pos) {
        Ok(c) => c,
        Err(e) => {
            return Err(e);
        },
    };
    proof {
        lemma_parse_varint_consumed(s);
        vstd::seq_lib::lemma_seq_skip_of_skip(data@, start as int, *pos - start);
        assert(tempo_views(Seq::<TempoEvent>::empty()) =~= Seq::<crate::TempoEventView>::empty());
    }
    let mut result: Vec<TempoEvent> = Vec::new();
    while count != 0
        invariant
            start == *old(pos),
            start <= *pos <= data@.len(),
            s == data@.skip(start as int),
            match parse_tempo_after_count(data@.skip(*pos as int), count) {
                Ok((tail, m)) => parse_tempo(s) == Ok::<
                    (Seq<crate::TempoEventView>, int),
                    DecodeError,
                >((tempo_views(result@) + tail, (*pos - start) + m)),
                Err(e) => parse_tempo(s) == Err::<(Seq<crate::TempoEventView>, int), DecodeError>(
                    e,
                ),
            },
        decreases data@.len() - *pos,
    {
        let ghost run_hdr = *pos;
        let ghost res0 = tempo_views(result@);
        if *pos == data.len() {
            return Err(DecodeError::UnexpectedEof);
        }
        let kind = data[*pos];
        proof {
            assert(data@.skip(run_hdr as int)[0] == kind);
            vstd::seq_lib::lemma_seq_skip_of_skip(data@, run_hdr as int, 1);
        }
        *pos = *pos + 1;
        let mut run = match decode_tempo_run(data, pos, kind, count) {
            Ok(v) => v,
            Err(e) => {
                return Err(e);
            },
        };
        let ghost run_views = tempo_views(run@);
        let ghost after_run = *pos;
        proof {
            lemma_parse_tempo_run_consumed(
                data@.skip(run_hdr as int + 1),
                kind,
                count as nat,
            );
        }
        result.append(&mut run);
        proof {
            assert(tempo_views(result@) =~= res0 + run_views);
            vstd::seq_lib::lemma_seq_skip_of_skip(data@, run_hdr as int + 1, after_run - run_hdr
                - 1);
            vstd::seq_lib::lemma_seq_skip_of_skip(data@, run_hdr as int, after_run - run_hdr);
            lemma_parse_tempo_after_count_unfold(
                data@.skip(run_hdr as int),
                count,
                run_views,
                after_run - run_hdr - 1,
            );
        }
        count = match decode_varint(data, pos) {
            Ok(c) => c,
            Err(e) => {
                return Err(e);
            },
        };
        proof {
            lemma_parse_varint_consumed(data@.skip(after_run as int));
            vstd::seq_lib::lemma_seq_skip_of_skip(data@, after_run as int, *pos - after_run);
            match parse_tempo_after_count(data@.skip(*pos as int), count) {
                Ok((tail, m)) => {
                    assert((res0 + run_views) + tail =~= res0 + (run_views + tail));
                },
                Err(e) => {},
            }
        }
    }
    proof {
        assert(parse_tempo_after_count(data@.skip(*pos as int), 0) == Ok::<
            (Seq<crate::TempoEventView>, int),
            DecodeError,
        >((Seq::empty(), 0)));
        assert(tempo_views(result@) + Seq::<crate::TempoEventView>::empty() =~= tempo_views(
            result@,
        ));
    }
    Ok(result)
}

/// Whether `d` opens with the note-stream signature.
pub open spec fn has_notes_signature(d: Seq<u8>) -> bool {
    d.len() >= 18 && d.subrange(0, 18) == crate::wire::notes_signature()
}

/// Whether `d` opens with the tempo-stream signature.
pub open spec fn has_tempo_signature(d: Seq<u8>) -> bool {
    d.len() >= 18 && d.subrange(0, 18) == crate::wire::tempo_signature()
}

/// Whether the input starts with the ASCII bytes of `ArrowVortex:notes:`.
fn check_notes_signature(data: &[u8]) -> (r: bool)
    ensures
        r == has_notes_signature(data@),
{
    if data.len() < 18 {
        return false;
    }
    let r = data[0] == 65 && data[1] == 114 && data[2] == 114 && data[3] == 111 && data[4] == 119
        && data[5] == 86 && data[6] == 111 && data[7] == 114 && data[8] == 116 && data[9] == 101
        && data[10] == 120 && data[11] == 58 && data[12] == 110 && data[13] == 111 && data[14]
        == 116 && data[15] == 101 && data[16] == 115 && data[17] == 58;
    proof {
        if r {
            assert(data@.subrange(0, 18) =~= crate::wire::notes_signature());
        } else {
            if data@.subrange(0, 18) == crate::wire::notes_signature() {
                assert(forall|i: int|
                    0 <= i < 18 ==> data@[i] == #[trigger] data@.subrange(0, 18)[i]);
            }
        }
    }
    r
}

/// Whether the input starts with the ASCII bytes of `ArrowVortex:tempo:`.
fn check_tempo_signature(data: &[u8]) -> (r: bool)
    ensures
        r == has_tempo_signature(data@),
{
    if data.len() < 18 {
        return false;
    }
    let r = data[0] == 65 && data[1] == 114 && data[2] == 114 && data[3] == 111 && data[4] == 119
        && data[5] == 86 && data[6] == 111 && data[7] == 114 && data[8] == 116 && data[9] == 101
        && data[10] == 120 && data[11] == 58 && data[12] == 116 && data[13] == 101 && data[14]
        == 109 && data[15] == 112 && data[16] == 111 && data[17] == 58;
    proof {
        if r {
            assert(data@.subrange(0, 18) =~= crate::wire::tempo_signature());
        } else {
            if data@.subrange(0, 18) == crate::wire::tempo_signature() {
                assert(forall|i: int|
                    0 <= i < 18 ==> data@[i] == #[trigger] data@.subrange(0, 18)[i]);
            }
        }
    }
    r
}

/// Possible contents of ArrowVortex clipboard data. Returned by
/// [`decode`].
#[derive(Debug, Clone, PartialEq)]
pub enum DecodeResult {
    /// Row based notes copy (most common).
    RowBasedNotes(Vec<Note<u64>>),
    /// Time based notes copy (positions are IEEE 754 bit patterns).
    TimeBasedNotes(Vec<Note<F64Bits>>),
    /// Tempo events copy.
    TempoEvents(Vec<TempoEvent>),
}

/// Decodes an unarmored note-stream body: the flag byte, then the note
/// section in the position domain the flag selects.
fn decode_notes_stream(body: &[u8]) -> (r: Result<DecodeResult, DecodeError>)
    ensures
        body@.len() == 0 ==> r == Err::<DecodeResult, DecodeError>(DecodeError::UnexpectedEof),
        body@.len() > 0 && body@[0] == 0 ==> match parse_notes_section::<u64>(body@.skip(1)) {
            Ok((ns, c)) => r matches Ok(v) && v matches DecodeResult::RowBasedNotes(notes)
                && notes@ == ns,
            Err(e) => r == Err::<DecodeResult, DecodeError>(e),
        },
        body@.len() > 0 && body@[0] != 0 ==> match parse_notes_section::<F64Bits>(
            body@.skip(1),
        ) {
            Ok((ns, c)) => r matches Ok(v) && v matches DecodeResult::TimeBasedNotes(notes)
                && notes@ == ns,
            Err(e) => r == Err::<DecodeResult, DecodeError>(e),
        },
{
    if body.len() == 0 {
        return Err(DecodeError::UnexpectedEof);
    }
    let flag = body[0];
    let mut cursor: usize = 1;
    if flag != 0 {
        match decode_notes::<F64Bits>(body, &mut cursor) {
            Ok(notes) => Ok(DecodeResult::TimeBasedNotes(notes)),
            Err(e) => Err(e),
        }
    } else {
        match decode_notes::<u64>(body, &mut cursor) {
            Ok(notes) => Ok(DecodeResult::RowBasedNotes(notes)),
            Err(e) => Err(e),
        }
    }
}

/// Decodes an unarmored tempo-stream body.
fn decode_tempo_stream(body: &[u8]) -> (r: Result<DecodeResult, DecodeError>)
    ensures
        match parse_tempo(body@) {
            Ok((evs, c)) => r matches Ok(v) && v matches DecodeResult::TempoEvents(t)
                && tempo_views(t@) == evs,
            Err(e) => r == Err::<DecodeResult, DecodeError>(e),
        },
{
    let mut cursor: usize = 0;
    proof {
        assert(body@.skip(0) =~= body@);
    }
    match decode_tempo(body, &mut cursor) {
        Ok(evs) => Ok(DecodeResult::TempoEvents(evs)),
        Err(e) => Err(e),
    }
}

/// Decodes a clipboard byte buffer into chart data.
///
/// Exactly two signatures are recognized. After the signature the base85
/// armor comes off; a note stream then opens with its "time based" flag
/// byte, which selects the position domain, and a tempo stream is a run
/// sequence. The result and error are exactly what the parsing functions
/// give on the unarmored body.
pub fn decode(data: &[u8]) -> (r: Result<DecodeResult, DecodeError>)
    ensures
        !has_notes_signature(data@) && !has_tempo_signature(data@) ==> r == Err::<
            DecodeResult,
            DecodeError,
        >(DecodeError::MissingSignature),
        has_notes_signature(data@) ==> {
            let body = b85_decode(data@.skip(18));
            if body.len() == 0 {
                r == Err::<DecodeResult, DecodeError>(DecodeError::UnexpectedEof)
            } else if body[0] == 0 {
                match parse_notes_section::<u64>(body.skip(1)) {
                    Ok((ns, c)) => r matches Ok(v) && v matches DecodeResult::RowBasedNotes(notes)
                        && notes@ == ns,
                    Err(e) => r == Err::<DecodeResult, DecodeError>(e),
                }
            } else {
                match parse_notes_section::<F64Bits>(body.skip(1)) {
                    Ok((ns, c)) => r matches Ok(v) && v matches DecodeResult::TimeBasedNotes(notes)
                        && notes@ == ns,
                    Err(e) => r == Err::<DecodeResult, DecodeError>(e),
                }
            }
        },
        has_tempo_signature(data@) ==> match parse_tempo(b85_decode(data@.skip(18))) {
            Ok((evs, c)) => r matches Ok(v) && v matches DecodeResult::TempoEvents(t)
                && tempo_views(t@) == evs,
            Err(e) => r == Err::<DecodeResult, DecodeError>(e),
        },
{
    let is_tempo: bool;
    if check_notes_signature(data) {
        is_tempo = false;
    } else if check_tempo_signature(data) {
        is_tempo = true;
    } else {
        return Err(DecodeError::MissingSignature);
    }
    proof {
        assert(!(has_notes_signature(data@) && has_tempo_signature(data@))) by {
            if has_notes_signature(data@) && has_tempo_signature(data@) {
                assert(data@.subrange(0, 18)[12] == crate::wire::notes_signature()[12]);
                assert(data@.subrange(0, 18)[12] == crate::wire::tempo_signature()[12]);
            }
        }
    }
    let tail = &data[18..data.len()];
    proof {
        assert(tail@ =~= data@.skip(18));
    }
    let body = decode_dwords_from_base85(tail);
    if is_tempo {
        decode_tempo_stream(body.as_slice())
    } else {
        decode_notes_stream(body.as_slice())
    }
}

/// Reads a little-endian `u32` at `*pos`, advancing `*pos` past it; the
/// outcome is exactly what [`parse_u32`] gives on the stream from `*pos`.
pub fn decode_u32(data: &[u8], pos: &mut usize) -> (r: Result<u32, DecodeError>)
    requires
        *old(pos) <= data@.len(),
    ensures
        *final(pos) <= data@.len(),
        match parse_u32(data@.skip(*old(pos) as int)) {
            Ok((v, n)) => r == Ok::<u32, DecodeError>(v) && *final(pos) == *old(pos) + n,
            Err(e) => r == Err::<u32, DecodeError>(e) && *final(pos) == data@.len(),
        },
{
    if data.len() - *pos < 4 {
        *pos = data.len();
        return Err(DecodeError::UnexpectedEof);
    }
    let i = *pos;
    let v: u32 = data[i] as u32 + data[i + 1] as u32 * 0x100 + data[i + 2] as u32 * 0x1_0000
        + data[i + 3] as u32 * 0x100_0000;
    proof {
        let s = data@.skip(i as int);
        assert(s[0] == data@[i as int] && s[1] == data@[i as int + 1] && s[2] == data@[
            i as int + 2
        ] && s[3] == data@[i as int + 3]);
        assert(u32_le_value(s) == v);
    }
    *pos = i + 4;
    Ok(v)
}

/// Reads a little-endian 64-bit IEEE 754 bit pattern at `*pos`, advancing
/// `*pos` past it; the outcome is exactly what [`parse_u64`] gives on the
/// stream from `*pos`.
pub fn decode_f64_bits(data: &[u8], pos: &mut usize) -> (r: Result<F64Bits, DecodeError>)
    requires
        *old(pos) <= data@.len(),
    ensures
        *final(pos) <= data@.len(),
        match parse_u64(data@.skip(*old(pos) as int)) {
            Ok((v, n)) => r == Ok::<F64Bits, DecodeError>(F64Bits { bits: v }) && *final(pos)
                == *old(pos) + n,
            Err(e) => r == Err::<F64Bits, DecodeError>(e) && *final(pos) == data@.len(),
        },
{
    if data.len() - *pos < 8 {
        *pos = data.len();
        return Err(DecodeError::UnexpectedEof);
    }
    let i = *pos;
    let v: u64 = data[i] as u64 + data[i + 1] as u64 * 0x100 + data[i + 2] as u64 * 0x1_0000
        + data[i + 3] as u64 * 0x100_0000 + data[i + 4] as u64 * 0x1_0000_0000 + data[i + 5] as u64
        * 0x100_0000_0000 + data[i + 6] as u64 * 0x1_0000_0000_0000 + data[i + 7] as u64
        * 0x100_0000_0000_0000;
    proof {
        let s = data@.skip(i as int);
        assert(s[0] == data@[i as int] && s[1] == data@[i as int + 1] && s[2] == data@[
            i as int + 2
        ] && s[3] == data@[i as int + 3] && s[4] == data@[i as int + 4] && s[5] == data@[
            i as int + 5
        ] && s[6] == data@[i as int + 6] && s[7] == data@[i as int + 7]);
        assert(u64_le_value(s) == v);
    }
    *pos = i + 8;
    Ok(F64Bits { bits: v })
}

} // verus!
