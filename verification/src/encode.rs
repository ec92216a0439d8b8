//! Encoding: structured chart data to clipboard text.

use vstd::prelude::*;

use crate::base85::b85_encode;
use crate::base85::b85_group_chars;
use crate::base85::lemma_b85_encode_append;
use crate::base85::u32_be_value_padded;
use crate::base85::ZERO_WORD_CHAR;
use crate::wire::u32_le_bytes;
use crate::wire::u64_le_bytes;
use crate::wire::varint_bytes;
use crate::wire::lemma_u64_le_bytes_split;
use crate::order::F64Bits;
use crate::pos::Position;
use crate::notes::note_bytes;
use crate::notes::note_pair_sorted;
use crate::notes::notes_concat;
use crate::notes::notes_sorted;
use crate::notes::notes_stream_bytes;
use crate::notes::notes_text;
use crate::notes::lemma_notes_concat_snoc;
use crate::wire::notes_signature;
use crate::Note;
use crate::NoteKind;
use crate::TempoEvent;
use crate::TempoEventKind;
use crate::tempo_views;
use crate::tempo::lemma_run_len_bounds;
use crate::tempo::lemma_run_len_characterization;
use crate::tempo::lemma_tempo_fields_concat_snoc;
use crate::tempo::run_len;
use crate::tempo::tempo_event_fields;
use crate::tempo::tempo_fields_concat;
use crate::tempo::tempo_kind_tag;
use crate::tempo::tempo_pair_sorted;
use crate::tempo::tempo_runs_bytes;
use crate::tempo::tempo_sorted;
use crate::tempo::tempo_text;
use crate::wire::tempo_signature;

verus! {

/// Error that may occur during any of the encoding functions.
///
/// Encoding writes to an in-memory buffer, which cannot fail, so the only
/// error is unsorted input: the functions validate the required order before
/// writing anything.
#[derive(Debug, Clone, Copy, PartialEq, Eq, Structural)]
pub enum EncodeError {
    /// Input data was not sorted.
    NotSorted,
}

/// Armoring a stream that ends in one full word appends that word's armor.
#[verifier::rlimit(100)]
proof fn lemma_b85_encode_full_word(stable: Seq<u8>, word: Seq<u8>)
    requires
        stable.len() % 4 == 0,
        word.len() == 4,
    ensures
        b85_encode(stable + word) == b85_encode(stable) + (if u32_be_value_padded(word) as u32
            == 0 {
            seq![ZERO_WORD_CHAR]
        } else {
            b85_group_chars(u32_be_value_padded(word) as u32)
        }),
{
    lemma_b85_encode_append(stable, word);
    let v = u32_be_value_padded(word) as u32;
    assert(word.skip(4) =~= Seq::<u8>::empty());
    assert(b85_encode(word.skip(4)) == Seq::<u8>::empty()) by {
        reveal(b85_encode);
    }
    reveal(b85_encode);
    if v == 0 {
        assert(b85_encode(word) =~= seq![ZERO_WORD_CHAR]);
    } else {
        assert(b85_encode(word) =~= b85_group_chars(v));
    }
}

/// Armoring a stream that ends in a short word appends the word's leading
/// characters.
#[verifier::rlimit(100)]
proof fn lemma_b85_encode_partial_word(stable: Seq<u8>, word: Seq<u8>)
    requires
        stable.len() % 4 == 0,
        1 <= word.len() <= 3,
    ensures
        b85_encode(stable + word) == b85_encode(stable) + b85_group_chars(
            u32_be_value_padded(word) as u32,
        ).take(word.len() as int + 1),
{
    lemma_b85_encode_append(stable, word);
    assert(b85_encode(word) == b85_group_chars(u32_be_value_padded(word) as u32).take(
        word.len() as int + 1,
    )) by {
        reveal(b85_encode);
    }
}

/// Streaming base85 armorer.
///
/// Bytes written with [`write`](Base85Encoder::write) accumulate in a 4-byte
/// word buffer; each full word is armored immediately, and
/// [`flush_buffer`](Base85Encoder::flush_buffer) armors a trailing short
/// word. The produced text is read off with
/// [`into_bytes`](Base85Encoder::into_bytes).
///
/// Its contract speaks through two sequences: [`flushed`](Base85Encoder::flushed),
/// armor text already fixed, and [`unflushed`](Base85Encoder::unflushed), raw
/// bytes fed since the last flush, which become `b85_encode(unflushed)` when
/// the next flush fixes them.
pub struct Base85Encoder {
    out: Vec<u8>,
    pending: Vec<u8>,
    base: Ghost<Seq<u8>>,
    fed: Ghost<Seq<u8>>,
}

impl Base85Encoder {
    /// Armor text already produced and fixed.
    pub closed spec fn flushed(&self) -> Seq<u8> {
        self.base@
    }

    /// Raw bytes fed since the last flush (or creation); the next flush
    /// turns them into `b85_encode(unflushed())`.
    pub closed spec fn unflushed(&self) -> Seq<u8> {
        self.fed@
    }

    /// Internal consistency: the word buffer holds the tail of the fed
    /// bytes that no full word has consumed yet, and the output holds the
    /// fixed text plus the armor of the fed full words.
    pub closed spec fn wf(&self) -> bool {
        &&& self.pending@.len() <= 3
        &&& self.pending@.len() == self.fed@.len() % 4
        &&& self.pending@ == self.fed@.skip(self.fed@.len() - self.pending@.len())
        &&& self.out@ == self.base@ + b85_encode(
            self.fed@.take(self.fed@.len() - self.pending@.len()),
        )
    }

    /// A fresh encoder with nothing fed and nothing produced.
    pub fn new() -> (r: Base85Encoder)
        ensures
            r.wf(),
            r.flushed() == Seq::<u8>::empty(),
            r.unflushed() == Seq::<u8>::empty(),
    {
        let r = Base85Encoder {
            out: Vec::new(),
            pending: Vec::new(),
            base: Ghost(Seq::empty()),
            fed: Ghost(Seq::empty()),
        };
        proof {
            assert(r.fed@.skip(0) =~= r.pending@);
            assert(r.fed@.take(0) =~= Seq::<u8>::empty());
            assert(b85_encode(Seq::<u8>::empty()) == Seq::<u8>::empty()) by {
                reveal(b85_encode);
            }
            assert(r.out@ =~= r.base@ + b85_encode(Seq::<u8>::empty()));
        }
        r
    }

    /// Feeds one raw byte; a fourth buffered byte armors the completed word
    /// at once.
    #[verifier::rlimit(100)]
    pub fn write(&mut self, byte: u8)
        requires
            old(self).wf(),
        ensures
            final(self).wf(),
            final(self).flushed() == old(self).flushed(),
            final(self).unflushed() == old(self).unflushed().push(byte),
    {
        let ghost fed0 = self.fed@;
        let ghost stable0 = fed0.take(fed0.len() - self.pending@.len());
        self.pending.push(byte);
        proof {
            self.fed@ = self.fed@.push(byte);
        }
        if self.pending.len() == 4 {
            let ghost word = self.pending@;
            let v = self.word_value();
            if v == 0 {
                self.out.push(ZERO_WORD_CHAR);
            } else {
                self.push_group_chars(v);
            }
            self.pending.clear();
            proof {
                let fed1 = self.fed@;
                assert(stable0 + word =~= fed1);
                lemma_b85_encode_full_word(stable0, word);
                assert(self.pending@ =~= fed1.skip(fed1.len() as int));
                assert(fed1.take(fed1.len() as int) =~= fed1);
                assert(self.out@ =~= self.base@ + b85_encode(fed1));
            }
        } else {
            proof {
                let fed1 = self.fed@;
                assert(self.pending@ =~= fed1.skip(fed1.len() - self.pending@.len()));
                assert(stable0 =~= fed1.take(fed1.len() - self.pending@.len()));
            }
        }
    }

    /// Armors whatever sits in the word buffer (a no-op on an empty buffer),
    /// fixing all bytes fed so far as produced text.
    pub fn flush_buffer(&mut self)
        requires
            old(self).wf(),
        ensures
            final(self).wf(),
            final(self).flushed() == old(self).flushed() + b85_encode(old(self).unflushed()),
            final(self).unflushed() == Seq::<u8>::empty(),
    {
        let ghost fed0 = self.fed@;
        let ghost stable0 = fed0.take(fed0.len() - self.pending@.len());
        let n = self.pending.len();
        if n > 0 {
            let ghost word = self.pending@;
            let v = self.word_value();
            self.push_partial_group_chars(v, n);
            self.pending.clear();
            proof {
                assert(word =~= fed0.skip(fed0.len() - n));
                assert(stable0 + word =~= fed0);
                lemma_b85_encode_partial_word(stable0, word);
                assert(self.out@ =~= self.base@ + b85_encode(fed0));
            }
        } else {
            proof {
                assert(stable0 =~= fed0);
            }
        }
        proof {
            self.base@ = self.base@ + b85_encode(fed0);
            self.fed@ = Seq::empty();
            assert(self.pending@ =~= self.fed@.skip(0));
            assert(self.fed@.take(0) =~= Seq::<u8>::empty());
            assert(b85_encode(Seq::<u8>::empty()) == Seq::<u8>::empty()) by {
                reveal(b85_encode);
            }
            assert(self.out@ =~= self.base@ + b85_encode(Seq::<u8>::empty()));
        }
    }

    /// Flushes and hands out the produced armor text.
    pub fn into_bytes(self) -> (r: Vec<u8>)
        requires
            self.wf(),
        ensures
            r@ == self.flushed() + b85_encode(self.unflushed()),
    {
        let mut this = self;
        this.flush_buffer();
        proof {
            assert(this.fed@.take(0) =~= Seq::<u8>::empty());
            assert(b85_encode(Seq::<u8>::empty()) == Seq::<u8>::empty()) by {
                reveal(b85_encode);
            }
        }
        this.out
    }

    /// The big-endian value of the buffered word, zero-padded to four bytes.
    fn word_value(&self) -> (v: u32)
        requires
            self.pending@.len() <= 4,
        ensures
            v == u32_be_value_padded(self.pending@),
    {
        let n = self.pending.len();
        let b0: u32 = if n > 0 {
            self.pending[0] as u32
        } else {
            0
        };
        let b1: u32 = if n > 1 {
            self.pending[1] as u32
        } else {
            0
        };
        let b2: u32 = if n > 2 {
            self.pending[2] as u32
        } else {
            0
        };
        let b3: u32 = if n > 3 {
            self.pending[3] as u32
        } else {
            0
        };
        b0 * 0x100_0000 + b1 * 0x1_0000 + b2 * 0x100 + b3
    }

    /// Appends all five armor characters of `v` to the output.
    fn push_group_chars(&mut self, v: u32)
        ensures
            final(self).out@ == old(self).out@ + b85_group_chars(v),
            final(self).pending == old(self).pending,
            final(self).base == old(self).base,
            final(self).fed == old(self).fed,
    {
        self.out.push((33 + (v / 52200625) % 85) as u8);
        self.out.push((33 + (v / 614125) % 85) as u8);
        self.out.push((33 + (v / 7225) % 85) as u8);
        self.out.push((33 + (v / 85) % 85) as u8);
        self.out.push((33 + v % 85) as u8);
        proof {
            assert(self.out@ =~= old(self).out@ + b85_group_chars(v));
        }
    }

    /// Appends the first `n + 1` armor characters of `v` to the output, for
    /// a trailing word of `n` bytes.
    fn push_partial_group_chars(&mut self, v: u32, n: usize)
        requires
            1 <= n <= 3,
        ensures
            final(self).out@ == old(self).out@ + b85_group_chars(v).take(n as int + 1),
            final(self).pending == old(self).pending,
            final(self).base == old(self).base,
            final(self).fed == old(self).fed,
    {
        self.out.push((33 + (v / 52200625) % 85) as u8);
        self.out.push((33 + (v / 614125) % 85) as u8);
        if n >= 2 {
            self.out.push((33 + (v / 7225) % 85) as u8);
        }
        if n >= 3 {
            self.out.push((33 + (v / 85) % 85) as u8);
        }
        proof {
            assert(self.out@ =~= old(self).out@ + b85_group_chars(v).take(n as int + 1));
        }
    }
}

/// Feeds the LEB128 encoding of `n` to the armorer; see
/// [`varint_bytes`](crate::wire::varint_bytes).
pub fn encode_varint(writer: &mut Base85Encoder, n: u64)
    requires
        old(writer).wf(),
    ensures
        final(writer).wf(),
        final(writer).flushed() == old(writer).flushed(),
        final(writer).unflushed() == old(writer).unflushed() + varint_bytes(n),
{
    let mut m = n;
    while m >= 128
        invariant
            writer.wf(),
            writer.flushed() == old(writer).flushed(),
            writer.unflushed() + varint_bytes(m) == old(writer).unflushed() + varint_bytes(n),
        decreases m,
    {
        let ghost before = writer.unflushed();
        writer.write((m % 128 + 128) as u8);
        proof {
            assert(writer.unflushed() + varint_bytes(m / 128) =~= before + varint_bytes(m));
        }
        m = m / 128;
    }
    let ghost before = writer.unflushed();
    writer.write(m as u8);
    proof {
        assert(varint_bytes(m) =~= seq![m as u8]);
        assert(writer.unflushed() =~= before + varint_bytes(m));
        assert(writer.unflushed() =~= old(writer).unflushed() + varint_bytes(n));
    }
}

/// Feeds the four little-endian bytes of `n` to the armorer.
#[verifier::rlimit(100)]
pub fn encode_u32(writer: &mut Base85Encoder, n: u32)
    requires
        old(writer).wf(),
    ensures
        final(writer).wf(),
        final(writer).flushed() == old(writer).flushed(),
        final(writer).unflushed() == old(writer).unflushed() + u32_le_bytes(n),
{
    writer.write((n % 0x100) as u8);
    writer.write(((n / 0x100) % 0x100) as u8);
    writer.write(((n / 0x1_0000) % 0x100) as u8);
    writer.write(((n / 0x100_0000) % 0x100) as u8);
    proof {
        assert(writer.unflushed() =~= old(writer).unflushed() + u32_le_bytes(n));
    }
}

/// Feeds the eight little-endian bytes of an IEEE 754 bit pattern to the
/// armorer, low half first.
pub fn encode_f64_bits(writer: &mut Base85Encoder, n: F64Bits)
    requires
        old(writer).wf(),
    ensures
        final(writer).wf(),
        final(writer).flushed() == old(writer).flushed(),
        final(writer).unflushed() == old(writer).unflushed() + u64_le_bytes(n.bits),
{
    let b = n.bits;
    proof {
        assert(b / 0x1_0000_0000 < 0x1_0000_0000) by (bit_vector);
    }
    let lo: u32 = (b % 0x1_0000_0000) as u32;
    let hi: u32 = (b / 0x1_0000_0000) as u32;
    encode_u32(writer, lo);
    encode_u32(writer, hi);
    proof {
        lemma_u64_le_bytes_split(b);
        assert(writer.unflushed() =~= old(writer).unflushed() + u64_le_bytes(b));
    }
}


/// Whether `notes` is non-decreasing by position, then column; exactly
/// [`notes_sorted`].
fn notes_sorted_exec<P: Position>(notes: &[Note<P>]) -> (r: bool)
    ensures
        r == notes_sorted::<P>(notes@),
{
    let n = notes.len();
    let mut i: usize = 1;
    while i < n
        invariant
            1 <= i,
            n == notes@.len(),
            forall|j: int|
                0 <= j < i - 1 ==> #[trigger] note_pair_sorted(notes@[j], notes@[j + 1]),
        decreases n - i,
    {
        let a = notes[i - 1];
        let b = notes[i];
        let ok = a.pos.lt(b.pos) || (a.pos.eq_pos(b.pos) && a.column <= b.column);
        if !ok {
            proof {
                assert(!note_pair_sorted(notes@[i - 1], notes@[i - 1 + 1]));
                assert(!notes_sorted::<P>(notes@));
            }
            return false;
        }
        i = i + 1;
    }
    true
}

/// Appends the note-stream signature to `out`.
fn push_notes_signature(out: &mut Vec<u8>)
    ensures
        final(out)@ == old(out)@ + notes_signature(),
{
    out.push(65);
    out.push(114);
    out.push(114);
    out.push(111);
    out.push(119);
    out.push(86);
    out.push(111);
    out.push(114);
    out.push(116);
    out.push(101);
    out.push(120);
    out.push(58);
    out.push(110);
    out.push(111);
    out.push(116);
    out.push(101);
    out.push(115);
    out.push(58);
    proof {
        assert(out@ =~= old(out)@ + notes_signature());
    }
}

/// Feeds one note record to the armorer; see
/// [`note_bytes`](crate::notes::note_bytes).
#[verifier::rlimit(100)]
fn encode_note<P: Position>(writer: &mut Base85Encoder, n: &Note<P>)
    requires
        old(writer).wf(),
    ensures
        final(writer).wf(),
        final(writer).flushed() == old(writer).flushed(),
        final(writer).unflushed() == old(writer).unflushed() + note_bytes(*n),
{
    match n.kind {
        NoteKind::Tap => {
            writer.write(n.column % 128);
            n.pos.write_pos(writer);
        },
        NoteKind::Hold { end_pos } => {
            writer.write(n.column % 128 + 128);
            n.pos.write_pos(writer);
            end_pos.write_pos(writer);
            writer.write(0);
        },
        NoteKind::Mine => {
            writer.write(n.column % 128 + 128);
            n.pos.write_pos(writer);
            n.pos.write_pos(writer);
            writer.write(1);
        },
        NoteKind::Roll { end_pos } => {
            writer.write(n.column % 128 + 128);
            n.pos.write_pos(writer);
            end_pos.write_pos(writer);
            writer.write(2);
        },
        NoteKind::Lift => {
            writer.write(n.column % 128 + 128);
            n.pos.write_pos(writer);
            n.pos.write_pos(writer);
            writer.write(3);
        },
        NoteKind::Fake => {
            writer.write(n.column % 128 + 128);
            n.pos.write_pos(writer);
            n.pos.write_pos(writer);
            writer.write(4);
        },
    }
    proof {
        assert(writer.unflushed() =~= old(writer).unflushed() + note_bytes(*n));
    }
}

/// Encodes a list of notes into `out`: the signature, then the armored flag
/// byte, note count and records. The notes must be sorted by position, then
/// column; on unsorted input the call fails with `NotSorted` and writes
/// nothing.
pub fn encode_notes<P: Position>(out: &mut Vec<u8>, notes: &[Note<P>], time_based: bool) -> (r:
    Result<(), EncodeError>)
    ensures
        notes_sorted::<P>(notes@) ==> r == Ok::<(), EncodeError>(()) && final(out)@ == old(out)@
            + notes_text::<P>(time_based, notes@),
        !notes_sorted::<P>(notes@) ==> r == Err::<(), EncodeError>(EncodeError::NotSorted)
            && final(out)@ == old(out)@,
{
    if !notes_sorted_exec(notes) {
        return Err(EncodeError::NotSorted);
    }
    push_notes_signature(out);
    let mut enc = Base85Encoder::new();
    enc.write(
        if time_based {
            1
        } else {
            0
        },
    );
    encode_varint(&mut enc, notes.len() as u64);
    let ghost header = notes_stream_bytes::<P>(time_based, notes@).take(
        1 + varint_bytes(notes@.len() as u64).len() as int,
    );
    proof {
        assert(header =~= seq![
            (if time_based {
                1u8
            } else {
                0u8
            }),
        ] + varint_bytes(notes@.len() as u64));
        assert(enc.unflushed() =~= header + notes_concat(notes@.take(0)));
    }
    let mut i: usize = 0;
    while i < notes.len()
        invariant
            i <= notes@.len(),
            enc.wf(),
            enc.flushed() == Seq::<u8>::empty(),
            enc.unflushed() == header + notes_concat(notes@.take(i as int)),
            header == seq![
                (if time_based {
                    1u8
                } else {
                    0u8
                }),
            ] + varint_bytes(notes@.len() as u64),
        decreases notes@.len() - i,
    {
        encode_note(&mut enc, &notes[i]);
        proof {
            lemma_notes_concat_snoc(notes@, i as int);
            assert(enc.unflushed() =~= header + notes_concat(notes@.take(i as int + 1)));
        }
        i = i + 1;
    }
    proof {
        assert(notes@.take(notes@.len() as int) =~= notes@);
        assert(enc.unflushed() =~= notes_stream_bytes::<P>(time_based, notes@));
    }
    let mut body = enc.into_bytes();
    out.append(&mut body);
    proof {
        assert(Seq::<u8>::empty() + b85_encode(notes_stream_bytes::<P>(time_based, notes@))
            =~= b85_encode(notes_stream_bytes::<P>(time_based, notes@)));
        assert(out@ =~= old(out)@ + notes_text::<P>(time_based, notes@));
    }
    Ok(())
}

/// Encodes a list of row-based notes (positions are row indices) into
/// `out`; see [`encode_notes`].
pub fn encode_row_based_notes(out: &mut Vec<u8>, notes: &[Note<u64>]) -> (r: Result<
    (),
    EncodeError,
>)
    ensures
        notes_sorted::<u64>(notes@) ==> r == Ok::<(), EncodeError>(()) && final(out)@ == old(out)@
            + notes_text::<u64>(false, notes@),
        !notes_sorted::<u64>(notes@) ==> r == Err::<(), EncodeError>(EncodeError::NotSorted)
            && final(out)@ == old(out)@,
{
    encode_notes(out, notes, false)
}

/// Encodes a list of time-based notes (positions are IEEE 754 bit
/// patterns) into `out`; see [`encode_notes`].
pub fn encode_time_based_notes(out: &mut Vec<u8>, notes: &[Note<F64Bits>]) -> (r: Result<
    (),
    EncodeError,
>)
    ensures
        notes_sorted::<F64Bits>(notes@) ==> r == Ok::<(), EncodeError>(()) && final(out)@ == old(
            out,
        )@ + notes_text::<F64Bits>(true, notes@),
        !notes_sorted::<F64Bits>(notes@) ==> r == Err::<(), EncodeError>(
            EncodeError::NotSorted,
        ) && final(out)@ == old(out)@,
{
    encode_notes(out, notes, true)
}


/// The wire tag byte of a tempo event kind; see
/// [`tempo_kind_tag`](crate::tempo::tempo_kind_tag).
pub fn tempo_event_kind(event: &TempoEventKind) -> (r: u8)
    ensures
        r == tempo_kind_tag(event@),
{
    match event {
        TempoEventKind::Bpm { .. } => 0,
        TempoEventKind::Stop { .. } => 1,
        TempoEventKind::Delay { .. } => 2,
        TempoEventKind::Warp { .. } => 3,
        TempoEventKind::TimeSignature { .. } => 4,
        TempoEventKind::Ticks { .. } => 5,
        TempoEventKind::Combo { .. } => 6,
        TempoEventKind::Speed { .. } => 7,
        TempoEventKind::Scroll { .. } => 8,
        TempoEventKind::FakeSegment { .. } => 9,
        TempoEventKind::Label { .. } => 10,
    }
}

/// Finds the end of the maximal run of events sharing the kind of the event
/// at `start`: the index one past the last event of the group.
pub fn group_by(events: &[TempoEvent], start: usize) -> (end: usize)
    requires
        start < events@.len(),
    ensures
        start < end <= events@.len(),
        end - start == run_len(tempo_views(events@).skip(start as int)),
{
    let ghost vs = tempo_views(events@).skip(start as int);
    let k0 = tempo_event_kind(&events[start].kind);
    proof {
        assert(vs[0] == events@[start as int]@);
    }
    let mut end = start + 1;
    while end < events.len() && tempo_event_kind(&events[end].kind) == k0
        invariant
            start < end <= events@.len(),
            k0 == tempo_kind_tag(events@[start as int]@.kind),
            vs == tempo_views(events@).skip(start as int),
            forall|j: int|
                start <= j < end ==> tempo_kind_tag(#[trigger] events@[j]@.kind) == k0,
        decreases events@.len() - end,
    {
        end = end + 1;
    }
    proof {
        assert forall|j: int| 0 <= j < end - start implies tempo_kind_tag(
            #[trigger] vs[j].kind,
        ) == tempo_kind_tag(vs[0].kind) by {
            assert(vs[j] == events@[start + j]@);
        }
        if end < events@.len() {
            assert(vs[end - start] == events@[end as int]@);
        }
        lemma_run_len_characterization(vs, end - start);
    }
    end
}

/// Feeds one event's row and kind-specific fields to the armorer; see
/// [`tempo_event_fields`](crate::tempo::tempo_event_fields).
#[verifier::rlimit(100)]
pub fn encode_single_tempo_event(writer: &mut Base85Encoder, event: &TempoEvent)
    requires
        old(writer).wf(),
    ensures
        final(writer).wf(),
        final(writer).flushed() == old(writer).flushed(),
        final(writer).unflushed() == old(writer).unflushed() + tempo_event_fields(event@),
{
    encode_u32(writer, event.row);
    match &event.kind {
        TempoEventKind::Bpm { bpm } => {
            encode_f64_bits(writer, *bpm);
        },
        TempoEventKind::Stop { time } => {
            encode_f64_bits(writer, *time);
        },
        TempoEventKind::Delay { time } => {
            encode_f64_bits(writer, *time);
        },
        TempoEventKind::Warp { num_skipped_rows } => {
            encode_u32(writer, *num_skipped_rows);
        },
        TempoEventKind::TimeSignature { numerator, denominator } => {
            encode_u32(writer, *numerator);
            encode_u32(writer, *denominator);
        },
        TempoEventKind::Ticks { num_ticks } => {
            encode_u32(writer, *num_ticks);
        },
        TempoEventKind::Combo { combo_multiplier, miss_multiplier } => {
            encode_u32(writer, *combo_multiplier);
            encode_u32(writer, *miss_multiplier);
        },
        TempoEventKind::Speed { ratio, delay, delay_is_time } => {
            encode_f64_bits(writer, *ratio);
            encode_f64_bits(writer, *delay);
            encode_u32(
                writer,
                if *delay_is_time {
                    1
                } else {
                    0
                },
            );
        },
        TempoEventKind::Scroll { ratio } => {
            encode_f64_bits(writer, *ratio);
        },
        TempoEventKind::FakeSegment { num_fake_rows } => {
            encode_u32(writer, *num_fake_rows);
        },
        TempoEventKind::Label { message } => {
            encode_varint(writer, message.len() as u64);
            let ghost base = writer.unflushed();
            let mut j: usize = 0;
            while j < message.len()
                invariant
                    writer.wf(),
                    j <= message@.len(),
                    writer.flushed() == old(writer).flushed(),
                    writer.unflushed() == base + message@.take(j as int),
                    base == old(writer).unflushed() + u32_le_bytes(event.row) + varint_bytes(
                        message@.len() as u64,
                    ),
                    message == &event.kind->Label_message,
                decreases message@.len() - j,
            {
                writer.write(message[j]);
                j = j + 1;
                proof {
                    assert(writer.unflushed() =~= base + message@.take(j as int));
                }
            }
            proof {
                assert(message@.take(message@.len() as int) =~= message@);
            }
        },
    }
    proof {
        assert(writer.unflushed() =~= old(writer).unflushed() + tempo_event_fields(event@));
    }
}

/// Whether `events` is non-decreasing by kind tag, then row; exactly
/// [`tempo_sorted`] of the views.
fn tempo_sorted_exec(events: &[TempoEvent]) -> (r: bool)
    ensures
        r == tempo_sorted(tempo_views(events@)),
{
    let ghost vs = tempo_views(events@);
    let n = events.len();
    let mut i: usize = 1;
    while i < n
        invariant
            1 <= i,
            n == events@.len(),
            vs == tempo_views(events@),
            forall|j: int| 0 <= j < i - 1 ==> #[trigger] tempo_pair_sorted(vs[j], vs[j + 1]),
        decreases n - i,
    {
        let ka = tempo_event_kind(&events[i - 1].kind);
        let kb = tempo_event_kind(&events[i].kind);
        let ok = ka < kb || (ka == kb && events[i - 1].row <= events[i].row);
        proof {
            assert(vs[i - 1] == events@[i - 1]@ && vs[i as int] == events@[i as int]@);
        }
        if !ok {
            proof {
                assert(!tempo_pair_sorted(vs[i - 1], vs[i - 1 + 1]));
                assert(!tempo_sorted(vs));
            }
            return false;
        }
        i = i + 1;
    }
    true
}

/// Appends the tempo-stream signature to `out`.
fn push_tempo_signature(out: &mut Vec<u8>)
    ensures
        final(out)@ == old(out)@ + tempo_signature(),
{
    out.push(65);
    out.push(114);
    out.push(114);
    out.push(111);
    out.push(119);
    out.push(86);
    out.push(111);
    out.push(114);
    out.push(116);
    out.push(101);
    out.push(120);
    out.push(58);
    out.push(116);
    out.push(101);
    out.push(109);
    out.push(112);
    out.push(111);
    out.push(58);
    proof {
        assert(out@ =~= old(out)@ + tempo_signature());
    }
}

/// Encodes a list of tempo events into `out`: the signature, then the
/// armored run-length-grouped events and the terminating zero count. The
/// events must be sorted by kind tag, then row; on unsorted input the call
/// fails with `NotSorted` and writes nothing.
#[verifier::rlimit(100)]
pub fn encode_tempo(out: &mut Vec<u8>, tempo_events: &[TempoEvent]) -> (r: Result<
    (),
    EncodeError,
>)
    ensures
        tempo_sorted(tempo_views(tempo_events@)) ==> r == Ok::<(), EncodeError>(()) && final(out)@
            == old(out)@ + tempo_text(tempo_views(tempo_events@)),
        !tempo_sorted(tempo_views(tempo_events@)) ==> r == Err::<(), EncodeError>(
            EncodeError::NotSorted,
        ) && final(out)@ == old(out)@,
{
    let ghost vs = tempo_views(tempo_events@);
    if !tempo_sorted_exec(tempo_events) {
        return Err(EncodeError::NotSorted);
    }
    push_tempo_signature(out);
    let mut enc = Base85Encoder::new();
    proof {
        assert(vs.skip(0) =~= vs);
        assert(Seq::<u8>::empty() + tempo_runs_bytes(vs) =~= tempo_runs_bytes(vs));
    }
    let mut i: usize = 0;
    while i < tempo_events.len()
        invariant
            i <= tempo_events@.len(),
            vs == tempo_views(tempo_events@),
            enc.wf(),
            enc.flushed() == Seq::<u8>::empty(),
            tempo_runs_bytes(vs) == enc.unflushed() + tempo_runs_bytes(vs.skip(i as int)),
        decreases tempo_events@.len() - i,
    {
        let ghost run_vs = vs.skip(i as int);
        let ghost pre = enc.unflushed();
        let end = group_by(tempo_events, i);
        let ghost g = end - i;
        let k = tempo_event_kind(&tempo_events[i].kind);
        proof {
            assert(run_vs[0] == tempo_events@[i as int]@);
            lemma_run_len_bounds(run_vs);
        }
        encode_varint(&mut enc, (end - i) as u64);
        enc.write(k);
        let ghost hdr = pre + varint_bytes(g as u64) + seq![k];
        proof {
            assert(enc.unflushed() =~= hdr);
            assert(run_vs.take(0) =~= Seq::<crate::TempoEventView>::empty());
            assert(enc.unflushed() =~= hdr + tempo_fields_concat(run_vs.take(0)));
        }
        let mut j: usize = i;
        while j < end
            invariant
                i <= j <= end <= tempo_events@.len(),
                vs == tempo_views(tempo_events@),
                run_vs == vs.skip(i as int),
                enc.wf(),
                enc.flushed() == Seq::<u8>::empty(),
                enc.unflushed() == hdr + tempo_fields_concat(run_vs.take(j - i)),
            decreases end - j,
        {
            encode_single_tempo_event(&mut enc, &tempo_events[j]);
            proof {
                assert(run_vs[j - i] == tempo_events@[j as int]@);
                lemma_tempo_fields_concat_snoc(run_vs, j - i);
                assert(enc.unflushed() =~= hdr + tempo_fields_concat(run_vs.take(j - i + 1)));
            }
            j = j + 1;
        }
        i = end;
        proof {
            assert(run_vs.take(g) =~= vs.skip((end - g) as int).take(g));
            assert(run_vs.skip(g) =~= vs.skip(i as int));
            assert(tempo_runs_bytes(run_vs) == varint_bytes(g as u64) + seq![
                tempo_kind_tag(run_vs[0].kind),
            ] + tempo_fields_concat(run_vs.take(g)) + tempo_runs_bytes(vs.skip(i as int)));
            assert(tempo_runs_bytes(vs) =~= enc.unflushed() + tempo_runs_bytes(vs.skip(i as int)));
        }
    }
    encode_varint(&mut enc, 0);
    proof {
        assert(vs.skip(tempo_events@.len() as int) =~= Seq::<crate::TempoEventView>::empty());
        assert(tempo_runs_bytes(vs) =~= enc.unflushed());
    }
    let mut body = enc.into_bytes();
    out.append(&mut body);
    proof {
        assert(Seq::<u8>::empty() + b85_encode(tempo_runs_bytes(vs)) =~= b85_encode(
            tempo_runs_bytes(vs),
        ));
        assert(out@ =~= old(out)@ + tempo_text(vs));
    }
    Ok(())
}

} // verus!
