//! Codec for the ArrowVortex editor's clipboard format: a base85-armored,
//! variable-length binary encoding of note charts and tempo-change timelines.
//!
//! [`decode`] turns clipboard text (as bytes) into structured chart data;
//! [`encode_row_based_notes`], [`encode_time_based_notes`] and [`encode_tempo`]
//! turn structured data back into clipboard text, byte for byte
//! round-trippable when the input is canonically sorted.
//!
//! The editor stores time offsets as 64-bit IEEE 754 values. This crate never
//! computes with such values; it only moves their 64 bits through the wire
//! format, so it represents them as [`F64Bits`], the raw bit pattern. Callers
//! that want floating-point values convert at the boundary with
//! `f64::from_bits` / `f64::to_bits`.

use vstd::prelude::*;

pub mod order;
pub mod pos;
pub mod wire;
pub mod notes;
pub mod tempo;
pub mod base85;
pub mod decode;
pub mod encode;
pub mod props;

pub use order::F64Bits;
pub use pos::Position;
pub use decode::DecodeError;
pub use decode::decode_dwords_from_base85;
pub use decode::decode_varint;
pub use decode::decode_u32;
pub use decode::decode_f64_bits;
pub use encode::EncodeError;
pub use encode::Base85Encoder;
pub use encode::encode_varint;
pub use encode::encode_u32;
pub use encode::encode_f64_bits;
pub use decode::decode;
pub use decode::DecodeResult;
pub use decode::decode_notes;
pub use decode::decode_tempo;
pub use decode::decode_single_tempo_event;
pub use encode::encode_notes;
pub use encode::encode_row_based_notes;
pub use encode::encode_time_based_notes;
pub use encode::encode_tempo;
pub use encode::encode_single_tempo_event;
pub use encode::tempo_event_kind;
pub use encode::group_by;
pub use props::lemma_clipboard_notes_round_trip;
pub use props::lemma_clipboard_tempo_round_trip;
pub use props::lemma_varint_shape_and_truncation;

verus! {

/// Note-type specific data.
///
/// `P` is the position domain: `u64` rows for row-based charts, [`F64Bits`]
/// time offsets for time-based charts.
#[derive(Debug, Clone, Copy, PartialEq, Eq, PartialOrd, Ord, Hash)]
pub enum NoteKind<P> {
    /// Normal tap.
    Tap,
    /// Hold note, spanning from this note's position up to `end_pos`.
    Hold {
        /// Where this hold note ends.
        end_pos: P,
    },
    /// Mine note.
    Mine,
    /// Roll note, spanning from this note's position up to `end_pos`.
    Roll {
        /// Where this roll note ends.
        end_pos: P,
    },
    /// Lift note.
    Lift,
    /// Fake note.
    Fake,
}

impl<P> Default for NoteKind<P> {
    /// The default note kind is a plain tap.
    fn default() -> (r: Self)
        ensures
            r == NoteKind::<P>::Tap,
    {
        Self::Tap
    }
}

/// Singular note.
#[derive(Debug, Clone, Copy, PartialEq, Eq, PartialOrd, Ord, Hash)]
pub struct Note<P> {
    /// Position of this note.
    pub pos: P,
    /// Column of this note. The left-most column is 0; the wire format keeps
    /// only the low 7 bits.
    pub column: u8,
    /// Type and type-specific data for this note.
    pub kind: NoteKind<P>,
}

impl<P: Default> Default for Note<P> {
    /// The default note is a tap in column 0 at the default position.
    fn default() -> (r: Self)
        ensures
            r.column == 0 && r.kind == NoteKind::<P>::Tap,
    {
        Note { pos: P::default(), column: 0, kind: NoteKind::Tap }
    }
}

/// Tempo event type specific data.
///
/// The 64-bit fields hold IEEE 754 bit patterns; see [`F64Bits`].
#[derive(Debug, Clone, PartialEq)]
pub enum TempoEventKind {
    /// Changes BPM (beats per minute).
    Bpm {
        /// BPM value.
        bpm: F64Bits,
    },
    /// Stops for a number of seconds.
    Stop {
        /// Duration in seconds.
        time: F64Bits,
    },
    /// Delays for a number of seconds.
    Delay {
        /// Duration in seconds.
        time: F64Bits,
    },
    /// Warps over a number of rows.
    Warp {
        /// Length in rows.
        num_skipped_rows: u32,
    },
    /// Changes time signature.
    TimeSignature {
        /// Numerator of the time signature fraction.
        numerator: u32,
        /// Denominator of the time signature fraction.
        denominator: u32,
    },
    /// Changes number of ticks per beat.
    Ticks {
        /// Number of ticks per beat.
        num_ticks: u32,
    },
    /// Changes combo multiplier settings.
    Combo {
        /// Combo multiplier.
        combo_multiplier: u32,
        /// Miss multiplier.
        miss_multiplier: u32,
    },
    /// Changes speed segments.
    Speed {
        /// Speed ratio.
        ratio: F64Bits,
        /// Transition delay.
        delay: F64Bits,
        /// Whether the delay is measured in time rather than beats.
        delay_is_time: bool,
    },
    /// Changes scroll speed.
    Scroll {
        /// Scroll speed multiplier.
        ratio: F64Bits,
    },
    /// Converts all notes in the following rows into fakes.
    FakeSegment {
        /// Length in rows.
        num_fake_rows: u32,
    },
    /// Label with arbitrary content.
    Label {
        /// Message content.
        message: Vec<u8>,
    },
}

/// Singular tempo event.
#[derive(Debug, Clone, PartialEq)]
pub struct TempoEvent {
    /// Row position of this tempo event.
    pub row: u32,
    /// Type and type-specific data for this tempo event.
    pub kind: TempoEventKind,
}

/// The mathematical value of a [`TempoEventKind`]: the same variants, with
/// the label message abstracted to a byte sequence.
pub ghost enum TempoEventKindView {
    /// See [`TempoEventKind::Bpm`].
    Bpm { bpm: F64Bits },
    /// See [`TempoEventKind::Stop`].
    Stop { time: F64Bits },
    /// See [`TempoEventKind::Delay`].
    Delay { time: F64Bits },
    /// See [`TempoEventKind::Warp`].
    Warp { num_skipped_rows: u32 },
    /// See [`TempoEventKind::TimeSignature`].
    TimeSignature { numerator: u32, denominator: u32 },
    /// See [`TempoEventKind::Ticks`].
    Ticks { num_ticks: u32 },
    /// See [`TempoEventKind::Combo`].
    Combo { combo_multiplier: u32, miss_multiplier: u32 },
    /// See [`TempoEventKind::Speed`].
    Speed { ratio: F64Bits, delay: F64Bits, delay_is_time: bool },
    /// See [`TempoEventKind::Scroll`].
    Scroll { ratio: F64Bits },
    /// See [`TempoEventKind::FakeSegment`].
    FakeSegment { num_fake_rows: u32 },
    /// See [`TempoEventKind::Label`].
    Label { message: Seq<u8> },
}

/// The mathematical value of a [`TempoEvent`].
pub ghost struct TempoEventView {
    /// See [`TempoEvent::row`].
    pub row: u32,
    /// See [`TempoEvent::kind`].
    pub kind: TempoEventKindView,
}

impl View for TempoEventKind {
    type V = TempoEventKindView;

    open spec fn view(&self) -> TempoEventKindView {
        match self {
            TempoEventKind::Bpm { bpm } => TempoEventKindView::Bpm { bpm: *bpm },
            TempoEventKind::Stop { time } => TempoEventKindView::Stop { time: *time },
            TempoEventKind::Delay { time } => TempoEventKindView::Delay { time: *time },
            TempoEventKind::Warp { num_skipped_rows } => TempoEventKindView::Warp {
                num_skipped_rows: *num_skipped_rows,
            },
            TempoEventKind::TimeSignature { numerator, denominator } => {
                TempoEventKindView::TimeSignature {
                    numerator: *numerator,
                    denominator: *denominator,
                }
            },
            TempoEventKind::Ticks { num_ticks } => TempoEventKindView::Ticks {
                num_ticks: *num_ticks,
            },
            TempoEventKind::Combo { combo_multiplier, miss_multiplier } => {
                TempoEventKindView::Combo {
                    combo_multiplier: *combo_multiplier,
                    miss_multiplier: *miss_multiplier,
                }
            },
            TempoEventKind::Speed { ratio, delay, delay_is_time } => TempoEventKindView::Speed {
                ratio: *ratio,
                delay: *delay,
                delay_is_time: *delay_is_time,
            },
            TempoEventKind::Scroll { ratio } => TempoEventKindView::Scroll { ratio: *ratio },
            TempoEventKind::FakeSegment { num_fake_rows } => TempoEventKindView::FakeSegment {
                num_fake_rows: *num_fake_rows,
            },
            TempoEventKind::Label { message } => TempoEventKindView::Label { message: message@ },
        }
    }
}

impl View for TempoEvent {
    type V = TempoEventView;

    open spec fn view(&self) -> TempoEventView {
        TempoEventView { row: self.row, kind: self.kind@ }
    }
}

/// The mathematical values of a sequence of tempo events.
pub open spec fn tempo_views(evs: Seq<TempoEvent>) -> Seq<TempoEventView> {
    evs.map_values(|e: TempoEvent| e@)
}

} // verus!
