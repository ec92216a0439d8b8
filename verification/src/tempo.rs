//! The mathematical model of the tempo stream: run-length-grouped events
//! behind the base85 armor.
//!
//! The stream is a sequence of runs. A run opens with a varint event count;
//! a count of zero ends the stream. A non-empty run continues with one kind
//! tag byte and then that many events of that kind, each a `u32` row
//! followed by kind-specific fields. The encoder groups consecutive events
//! of equal kind into maximal runs.

use vstd::prelude::*;

use crate::decode::DecodeError;
use crate::wire::lemma_parse_u32_round_trip;
use crate::wire::lemma_parse_u64_round_trip;
use crate::wire::lemma_parse_varint_consumed;
use crate::wire::lemma_varint_round_trip;
use crate::wire::parse_u32;
use crate::wire::parse_u64;
use crate::wire::parse_varint;
use crate::wire::u32_le_bytes;
use crate::wire::u64_le_bytes;
use crate::wire::varint_bytes;
use crate::TempoEventKindView;
use crate::TempoEventView;

verus! {

/// The tag byte of a tempo event kind, in the order the format fixes.
pub open spec fn tempo_kind_tag(k: TempoEventKindView) -> u8 {
    match k {
        TempoEventKindView::Bpm { .. } => 0,
        TempoEventKindView::Stop { .. } => 1,
        TempoEventKindView::Delay { .. } => 2,
        TempoEventKindView::Warp { .. } => 3,
        TempoEventKindView::TimeSignature { .. } => 4,
        TempoEventKindView::Ticks { .. } => 5,
        TempoEventKindView::Combo { .. } => 6,
        TempoEventKindView::Speed { .. } => 7,
        TempoEventKindView::Scroll { .. } => 8,
        TempoEventKindView::FakeSegment { .. } => 9,
        TempoEventKindView::Label { .. } => 10,
    }
}

/// Whether an event's fields fit the wire format: a label message length
/// must fit the varint's 64 bits.
pub open spec fn tempo_event_wf(e: TempoEventView) -> bool {
    match e.kind {
        TempoEventKindView::Label { message } => message.len() < 0x1_0000_0000_0000_0000,
        _ => true,
    }
}

/// All events of a sequence fit the wire format.
pub open spec fn tempo_events_wf(evs: Seq<TempoEventView>) -> bool {
    forall|i: int| 0 <= i < evs.len() ==> tempo_event_wf(#[trigger] evs[i])
}

/// The order the encoder requires: non-decreasing by kind tag, then row.
pub open spec fn tempo_pair_sorted(a: TempoEventView, b: TempoEventView) -> bool {
    tempo_kind_tag(a.kind) < tempo_kind_tag(b.kind) || (tempo_kind_tag(a.kind) == tempo_kind_tag(
        b.kind,
    ) && a.row <= b.row)
}

/// A sequence is sorted when every adjacent pair is in order.
pub open spec fn tempo_sorted(evs: Seq<TempoEventView>) -> bool {
    forall|i: int|
        0 <= i < evs.len() - 1 ==> #[trigger] tempo_pair_sorted(evs[i], evs[i + 1])
}

/// The serialized bytes of one event: its row, then its kind-specific
/// fields (the kind tag is written once per run, not per event).
pub open spec fn tempo_event_fields(e: TempoEventView) -> Seq<u8> {
    u32_le_bytes(e.row) + match e.kind {
        TempoEventKindView::Bpm { bpm } => u64_le_bytes(bpm.bits),
        TempoEventKindView::Stop { time } => u64_le_bytes(time.bits),
        TempoEventKindView::Delay { time } => u64_le_bytes(time.bits),
        TempoEventKindView::Warp { num_skipped_rows } => u32_le_bytes(num_skipped_rows),
        TempoEventKindView::TimeSignature { numerator, denominator } => u32_le_bytes(numerator)
            + u32_le_bytes(denominator),
        TempoEventKindView::Ticks { num_ticks } => u32_le_bytes(num_ticks),
        TempoEventKindView::Combo { combo_multiplier, miss_multiplier } => u32_le_bytes(
            combo_multiplier,
        ) + u32_le_bytes(miss_multiplier),
        TempoEventKindView::Speed { ratio, delay, delay_is_time } => u64_le_bytes(ratio.bits)
            + u64_le_bytes(delay.bits) + u32_le_bytes(
            if delay_is_time {
                1
            } else {
                0
            },
        ),
        TempoEventKindView::Scroll { ratio } => u64_le_bytes(ratio.bits),
        TempoEventKindView::FakeSegment { num_fake_rows } => u32_le_bytes(num_fake_rows),
        TempoEventKindView::Label { message } => varint_bytes(message.len() as u64) + message,
    }
}

/// The serialized fields of a run's events, in order.
pub open spec fn tempo_fields_concat(evs: Seq<TempoEventView>) -> Seq<u8>
    decreases evs.len(),
{
    if evs.len() == 0 {
        Seq::empty()
    } else {
        tempo_event_fields(evs[0]) + tempo_fields_concat(evs.skip(1))
    }
}

/// The length of the maximal leading run of events sharing the first
/// event's kind tag.
pub open spec fn run_len(evs: Seq<TempoEventView>) -> int
    decreases evs.len(),
{
    if evs.len() <= 1 {
        evs.len() as int
    } else if tempo_kind_tag(evs[1].kind) == tempo_kind_tag(evs[0].kind) {
        1 + run_len(evs.skip(1))
    } else {
        1
    }
}

/// The leading run spans at least one event (on a non-empty sequence) and
/// at most the whole sequence, all its events share the first event's tag,
/// and it is maximal.
pub proof fn lemma_run_len_bounds(evs: Seq<TempoEventView>)
    requires
        evs.len() > 0,
    ensures
        1 <= run_len(evs) <= evs.len(),
        forall|j: int|
            0 <= j < run_len(evs) ==> tempo_kind_tag(#[trigger] evs[j].kind) == tempo_kind_tag(
                evs[0].kind,
            ),
        run_len(evs) < evs.len() ==> tempo_kind_tag(evs[run_len(evs)].kind) != tempo_kind_tag(
            evs[0].kind,
        ),
    decreases evs.len(),
{
    if evs.len() > 1 && tempo_kind_tag(evs[1].kind) == tempo_kind_tag(evs[0].kind) {
        let t = evs.skip(1);
        lemma_run_len_bounds(t);
        assert forall|j: int|
            0 <= j < run_len(evs) implies tempo_kind_tag(#[trigger] evs[j].kind) == tempo_kind_tag(
            evs[0].kind,
        ) by {
            if j > 0 {
                assert(t[j - 1] == evs[j]);
                assert(tempo_kind_tag(t[j - 1].kind) == tempo_kind_tag(t[0].kind));
            }
        }
        if run_len(evs) < evs.len() {
            assert(evs[run_len(evs)] == t[run_len(t)]);
        }
    }
}

/// A scan that stops at the first differing tag (or the end) has found the
/// leading run's length.
pub proof fn lemma_run_len_characterization(evs: Seq<TempoEventView>, i: int)
    requires
        1 <= i <= evs.len(),
        forall|j: int|
            0 <= j < i ==> tempo_kind_tag(#[trigger] evs[j].kind) == tempo_kind_tag(evs[0].kind),
        i < evs.len() ==> tempo_kind_tag(evs[i].kind) != tempo_kind_tag(evs[0].kind),
    ensures
        run_len(evs) == i,
    decreases evs.len(),
{
    if evs.len() > 1 && tempo_kind_tag(evs[1].kind) == tempo_kind_tag(evs[0].kind) {
        let t = evs.skip(1);
        assert(forall|j: int|
            0 <= j < i - 1 ==> tempo_kind_tag(#[trigger] t[j].kind) == tempo_kind_tag(t[0].kind));
        lemma_run_len_characterization(t, i - 1);
    }
}

/// The serialized bytes of the whole stream (before the armor goes on):
/// maximal runs, then the terminating zero count.
pub open spec fn tempo_runs_bytes(evs: Seq<TempoEventView>) -> Seq<u8>
    decreases evs.len(),
{
    if evs.len() == 0 {
        varint_bytes(0)
    } else {
        proof {
            lemma_run_len_bounds(evs);
        }
        let g = run_len(evs);
        varint_bytes(g as u64) + seq![tempo_kind_tag(evs[0].kind)] + tempo_fields_concat(
            evs.take(g),
        ) + tempo_runs_bytes(evs.skip(g))
    }
}

/// The full clipboard text of a tempo stream: the signature, then the
/// armored runs.
pub open spec fn tempo_text(evs: Seq<TempoEventView>) -> Seq<u8> {
    crate::wire::tempo_signature() + crate::base85::b85_encode(tempo_runs_bytes(evs))
}

/// Parses one event of the given kind from the front of `s`: its row, then
/// its kind-specific fields.
#[verifier::opaque]
pub open spec fn parse_tempo_event(s: Seq<u8>, kind: u8) -> Result<
    (TempoEventView, int),
    DecodeError,
> {
    match parse_u32(s) {
        Err(e) => Err(e),
        Ok((row, _c)) => {
            let t = s.skip(4);
            if kind == 0 {
                match parse_u64(t) {
                    Err(e) => Err(e),
                    Ok((b, _c8)) => Ok(
                        (
                            TempoEventView {
                                row,
                                kind: TempoEventKindView::Bpm { bpm: crate::F64Bits { bits: b } },
                            },
                            12,
                        ),
                    ),
                }
            } else if kind == 1 {
                match parse_u64(t) {
                    Err(e) => Err(e),
                    Ok((b, _c8)) => Ok(
                        (
                            TempoEventView {
                                row,
                                kind: TempoEventKindView::Stop { time: crate::F64Bits { bits: b } },
                            },
                            12,
                        ),
                    ),
                }
            } else if kind == 2 {
                match parse_u64(t) {
                    Err(e) => Err(e),
                    Ok((b, _c8)) => Ok(
                        (
                            TempoEventView {
                                row,
                                kind: TempoEventKindView::Delay {
                                    time: crate::F64Bits { bits: b },
                                },
                            },
                            12,
                        ),
                    ),
                }
            } else if kind == 3 {
                match parse_u32(t) {
                    Err(e) => Err(e),
                    Ok((n, _c4)) => Ok(
                        (
                            TempoEventView {
                                row,
                                kind: TempoEventKindView::Warp { num_skipped_rows: n },
                            },
                            8,
                        ),
                    ),
                }
            } else if kind == 4 {
                match parse_u32(t) {
                    Err(e) => Err(e),
                    Ok((nu, _)) => match parse_u32(t.skip(4)) {
                        Err(e) => Err(e),
                        Ok((de, _)) => Ok(
                            (
                                TempoEventView {
                                    row,
                                    kind: TempoEventKindView::TimeSignature {
                                        numerator: nu,
                                        denominator: de,
                                    },
                                },
                                12,
                            ),
                        ),
                    },
                }
            } else if kind == 5 {
                match parse_u32(t) {
                    Err(e) => Err(e),
                    Ok((n, _)) => Ok(
                        (
                            TempoEventView { row, kind: TempoEventKindView::Ticks { num_ticks: n } },
                            8,
                        ),
                    ),
                }
            } else if kind == 6 {
                match parse_u32(t) {
                    Err(e) => Err(e),
                    Ok((c, _)) => match parse_u32(t.skip(4)) {
                        Err(e) => Err(e),
                        Ok((m, _)) => Ok(
                            (
                                TempoEventView {
                                    row,
                                    kind: TempoEventKindView::Combo {
                                        combo_multiplier: c,
                                        miss_multiplier: m,
                                    },
                                },
                                12,
                            ),
                        ),
                    },
                }
            } else if kind == 7 {
                match parse_u64(t) {
                    Err(e) => Err(e),
                    Ok((ra, _)) => match parse_u64(t.skip(8)) {
                        Err(e) => Err(e),
                        Ok((de, _)) => match parse_u32(t.skip(16)) {
                            Err(e) => Err(e),
                            Ok((fl, _)) => Ok(
                                (
                                    TempoEventView {
                                        row,
                                        kind: TempoEventKindView::Speed {
                                            ratio: crate::F64Bits { bits: ra },
                                            delay: crate::F64Bits { bits: de },
                                            delay_is_time: fl != 0,
                                        },
                                    },
                                    24,
                                ),
                            ),
                        },
                    },
                }
            } else if kind == 8 {
                match parse_u64(t) {
                    Err(e) => Err(e),
                    Ok((b, _)) => Ok(
                        (
                            TempoEventView {
                                row,
                                kind: TempoEventKindView::Scroll {
                                    ratio: crate::F64Bits { bits: b },
                                },
                            },
                            12,
                        ),
                    ),
                }
            } else if kind == 9 {
                match parse_u32(t) {
                    Err(e) => Err(e),
                    Ok((n, _)) => Ok(
                        (
                            TempoEventView {
                                row,
                                kind: TempoEventKindView::FakeSegment { num_fake_rows: n },
                            },
                            8,
                        ),
                    ),
                }
            } else if kind == 10 {
                match parse_varint(t) {
                    Err(e) => Err(e),
                    Ok((ml, cv)) => {
                        if t.skip(cv).len() < ml {
                            Err(DecodeError::UnexpectedEof)
                        } else {
                            Ok(
                                (
                                    TempoEventView {
                                        row,
                                        kind: TempoEventKindView::Label {
                                            message: t.skip(cv).take(ml as int),
                                        },
                                    },
                                    4 + cv + ml,
                                ),
                            )
                        }
                    },
                }
            } else {
                Err(DecodeError::UnknownTempoEventType { tempo_event_type: kind })
            }
        },
    }
}

/// A successful event parse consumes at least one byte and no more than the
/// stream holds.
pub proof fn lemma_parse_tempo_event_consumed(s: Seq<u8>, kind: u8)
    ensures
        parse_tempo_event(s, kind) matches Ok((e, c)) ==> 1 <= c <= s.len(),
{
    reveal(parse_tempo_event);
    if s.len() >= 4 && kind == 10 {
        lemma_parse_varint_consumed(s.skip(4));
    }
}

/// Parses exactly `count` events of one kind from the front of `s`.
pub open spec fn parse_tempo_run(s: Seq<u8>, kind: u8, count: nat) -> Result<
    (Seq<TempoEventView>, int),
    DecodeError,
>
    decreases count,
{
    if count == 0 {
        Ok((Seq::empty(), 0))
    } else {
        match parse_tempo_event(s, kind) {
            Err(e) => Err(e),
            Ok((e, n)) => match parse_tempo_run(s.skip(n), kind, (count - 1) as nat) {
                Err(e2) => Err(e2),
                Ok((evs, m)) => Ok((seq![e] + evs, n + m)),
            },
        }
    }
}

/// A successful run parse consumes no more than the stream holds.
pub proof fn lemma_parse_tempo_run_consumed(s: Seq<u8>, kind: u8, count: nat)
    ensures
        parse_tempo_run(s, kind, count) matches Ok((evs, c)) ==> 0 <= c <= s.len()
            && evs.len() == count,
    decreases count,
{
    if count > 0 {
        lemma_parse_tempo_event_consumed(s, kind);
        match parse_tempo_event(s, kind) {
            Err(e) => {},
            Ok((e, n)) => {
                lemma_parse_tempo_run_consumed(s.skip(n), kind, (count - 1) as nat);
            },
        }
    }
}

/// Parses the remainder of the stream, the opening run count already read:
/// nothing when the count is zero, else a kind byte, that many events, and
/// the rest of the runs.
pub open spec fn parse_tempo_after_count(s: Seq<u8>, count: u64) -> Result<
    (Seq<TempoEventView>, int),
    DecodeError,
>
    decreases s.len(),
{
    if count == 0 {
        Ok((Seq::empty(), 0))
    } else if s.len() == 0 {
        Err(DecodeError::UnexpectedEof)
    } else {
        let kind = s[0];
        match parse_tempo_run(s.skip(1), kind, count as nat) {
            Err(e) => Err(e),
            Ok((evs, c2)) => {
                proof {
                    lemma_parse_tempo_run_consumed(s.skip(1), kind, count as nat);
                }
                match parse_varint(s.skip(1 + c2)) {
                    Err(e) => Err(e),
                    Ok((count2, c3)) => {
                        proof {
                            lemma_parse_varint_consumed(s.skip(1 + c2));
                        }
                        match parse_tempo_after_count(s.skip(1 + c2 + c3), count2) {
                            Err(e) => Err(e),
                            Ok((evs2, c4)) => Ok((evs + evs2, 1 + c2 + c3 + c4)),
                        }
                    },
                }
            },
        }
    }
}

/// Parses a whole tempo stream: runs until a zero count ends it.
pub open spec fn parse_tempo(s: Seq<u8>) -> Result<(Seq<TempoEventView>, int), DecodeError> {
    match parse_varint(s) {
        Err(e) => Err(e),
        Ok((count, c)) => match parse_tempo_after_count(s.skip(c), count) {
            Err(e) => Err(e),
            Ok((evs, m)) => Ok((evs, c + m)),
        },
    }
}

/// Round trip for one event: parsing its serialized fields under its own
/// kind tag, with anything after them, yields the event back.
pub proof fn lemma_parse_tempo_event_round_trip(e: TempoEventView, rest: Seq<u8>)
    requires
        tempo_event_wf(e),
    ensures
        parse_tempo_event(tempo_event_fields(e) + rest, tempo_kind_tag(e.kind)) == Ok::<
            (TempoEventView, int),
            DecodeError,
        >((e, tempo_event_fields(e).len() as int)),
{
    if tempo_kind_tag(e.kind) <= 5 {
        lemma_parse_tempo_event_round_trip_low(e, rest);
    } else if e.kind is Speed {
        lemma_parse_tempo_event_round_trip_speed(e, rest);
    } else if e.kind is Label {
        lemma_parse_tempo_event_round_trip_label(e, rest);
    } else {
        lemma_parse_tempo_event_round_trip_high(e, rest);
    }
}

/// Round-trip cases for the kinds with low tags.
#[verifier::rlimit(100)]
proof fn lemma_parse_tempo_event_round_trip_low(e: TempoEventView, rest: Seq<u8>)
    requires
        tempo_event_wf(e),
        tempo_kind_tag(e.kind) <= 5,
    ensures
        parse_tempo_event(tempo_event_fields(e) + rest, tempo_kind_tag(e.kind)) == Ok::<
            (TempoEventView, int),
            DecodeError,
        >((e, tempo_event_fields(e).len() as int)),
{
    reveal(parse_tempo_event);
    let fields = tempo_event_fields(e);
    let s = fields + rest;
    let rb = u32_le_bytes(e.row);
    match e.kind {
        TempoEventKindView::Bpm { bpm } => {
            assert(s =~= rb + (u64_le_bytes(bpm.bits) + rest));
            lemma_parse_u32_round_trip(e.row, u64_le_bytes(bpm.bits) + rest);
            assert(s.skip(4) =~= u64_le_bytes(bpm.bits) + rest);
            lemma_parse_u64_round_trip(bpm.bits, rest);
        },
        TempoEventKindView::Stop { time } => {
            assert(s =~= rb + (u64_le_bytes(time.bits) + rest));
            lemma_parse_u32_round_trip(e.row, u64_le_bytes(time.bits) + rest);
            assert(s.skip(4) =~= u64_le_bytes(time.bits) + rest);
            lemma_parse_u64_round_trip(time.bits, rest);
        },
        TempoEventKindView::Delay { time } => {
            assert(s =~= rb + (u64_le_bytes(time.bits) + rest));
            lemma_parse_u32_round_trip(e.row, u64_le_bytes(time.bits) + rest);
            assert(s.skip(4) =~= u64_le_bytes(time.bits) + rest);
            lemma_parse_u64_round_trip(time.bits, rest);
        },
        TempoEventKindView::Warp { num_skipped_rows } => {
            assert(s =~= rb + (u32_le_bytes(num_skipped_rows) + rest));
            lemma_parse_u32_round_trip(e.row, u32_le_bytes(num_skipped_rows) + rest);
            assert(s.skip(4) =~= u32_le_bytes(num_skipped_rows) + rest);
            lemma_parse_u32_round_trip(num_skipped_rows, rest);
        },
        TempoEventKindView::TimeSignature { numerator, denominator } => {
            let nb = u32_le_bytes(numerator);
            let db = u32_le_bytes(denominator);
            assert(s =~= rb + (nb + (db + rest)));
            lemma_parse_u32_round_trip(e.row, nb + (db + rest));
            assert(s.skip(4) =~= nb + (db + rest));
            lemma_parse_u32_round_trip(numerator, db + rest);
            assert(s.skip(4).skip(4) =~= db + rest);
            lemma_parse_u32_round_trip(denominator, rest);
        },
        TempoEventKindView::Ticks { num_ticks } => {
            assert(s =~= rb + (u32_le_bytes(num_ticks) + rest));
            lemma_parse_u32_round_trip(e.row, u32_le_bytes(num_ticks) + rest);
            assert(s.skip(4) =~= u32_le_bytes(num_ticks) + rest);
            lemma_parse_u32_round_trip(num_ticks, rest);
        },
        _ => {
        },
    }
}

/// Round-trip cases for the combo, scroll and fake-segment kinds.
#[verifier::rlimit(100)]
proof fn lemma_parse_tempo_event_round_trip_high(e: TempoEventView, rest: Seq<u8>)
    requires
        tempo_event_wf(e),
        tempo_kind_tag(e.kind) == 6 || tempo_kind_tag(e.kind) == 8 || tempo_kind_tag(e.kind) == 9,
    ensures
        parse_tempo_event(tempo_event_fields(e) + rest, tempo_kind_tag(e.kind)) == Ok::<
            (TempoEventView, int),
            DecodeError,
        >((e, tempo_event_fields(e).len() as int)),
{
    reveal(parse_tempo_event);
    let fields = tempo_event_fields(e);
    let s = fields + rest;
    let rb = u32_le_bytes(e.row);
    match e.kind {
        TempoEventKindView::Combo { combo_multiplier, miss_multiplier } => {
            let cb = u32_le_bytes(combo_multiplier);
            let mb = u32_le_bytes(miss_multiplier);
            assert(s =~= rb + (cb + (mb + rest)));
            lemma_parse_u32_round_trip(e.row, cb + (mb + rest));
            assert(s.skip(4) =~= cb + (mb + rest));
            lemma_parse_u32_round_trip(combo_multiplier, mb + rest);
            assert(s.skip(4).skip(4) =~= mb + rest);
            lemma_parse_u32_round_trip(miss_multiplier, rest);
        },
        TempoEventKindView::Scroll { ratio } => {
            assert(s =~= rb + (u64_le_bytes(ratio.bits) + rest));
            lemma_parse_u32_round_trip(e.row, u64_le_bytes(ratio.bits) + rest);
            assert(s.skip(4) =~= u64_le_bytes(ratio.bits) + rest);
            lemma_parse_u64_round_trip(ratio.bits, rest);
        },
        TempoEventKindView::FakeSegment { num_fake_rows } => {
            assert(s =~= rb + (u32_le_bytes(num_fake_rows) + rest));
            lemma_parse_u32_round_trip(e.row, u32_le_bytes(num_fake_rows) + rest);
            assert(s.skip(4) =~= u32_le_bytes(num_fake_rows) + rest);
            lemma_parse_u32_round_trip(num_fake_rows, rest);
        },
        _ => {
        },
    }
}

/// Round-trip case for the speed kind.
#[verifier::rlimit(100)]
proof fn lemma_parse_tempo_event_round_trip_speed(e: TempoEventView, rest: Seq<u8>)
    requires
        tempo_event_wf(e),
        e.kind is Speed,
    ensures
        parse_tempo_event(tempo_event_fields(e) + rest, tempo_kind_tag(e.kind)) == Ok::<
            (TempoEventView, int),
            DecodeError,
        >((e, tempo_event_fields(e).len() as int)),
{
    reveal(parse_tempo_event);
    let fields = tempo_event_fields(e);
    let s = fields + rest;
    let rb = u32_le_bytes(e.row);
    match e.kind {
        TempoEventKindView::Speed { ratio, delay, delay_is_time } => {
            let ra = u64_le_bytes(ratio.bits);
            let de = u64_le_bytes(delay.bits);
            let fl = u32_le_bytes(
                if delay_is_time {
                    1
                } else {
                    0
                },
            );
            assert(s =~= rb + (ra + (de + (fl + rest))));
            lemma_parse_u32_round_trip(e.row, ra + (de + (fl + rest)));
            assert(s.skip(4) =~= ra + (de + (fl + rest)));
            lemma_parse_u64_round_trip(ratio.bits, de + (fl + rest));
            assert(s.skip(4).skip(8) =~= de + (fl + rest));
            lemma_parse_u64_round_trip(delay.bits, fl + rest);
            assert(s.skip(4).skip(16) =~= fl + rest);
            lemma_parse_u32_round_trip(
                if delay_is_time {
                    1
                } else {
                    0
                },
                rest,
            );
        },
        _ => {
        },
    }
}

/// Round-trip case for the label kind.
#[verifier::rlimit(100)]
proof fn lemma_parse_tempo_event_round_trip_label(e: TempoEventView, rest: Seq<u8>)
    requires
        tempo_event_wf(e),
        e.kind is Label,
    ensures
        parse_tempo_event(tempo_event_fields(e) + rest, tempo_kind_tag(e.kind)) == Ok::<
            (TempoEventView, int),
            DecodeError,
        >((e, tempo_event_fields(e).len() as int)),
{
    reveal(parse_tempo_event);
    let fields = tempo_event_fields(e);
    let s = fields + rest;
    let rb = u32_le_bytes(e.row);
    match e.kind {
        TempoEventKindView::Label { message } => {
            let ml = message.len() as u64;
            let vb = varint_bytes(ml);
            assert(s =~= rb + (vb + (message + rest)));
            lemma_parse_u32_round_trip(e.row, vb + (message + rest));
            assert(s.skip(4) =~= vb + (message + rest));
            lemma_varint_round_trip(ml, message + rest);
            assert(s.skip(4).skip(vb.len() as int) =~= message + rest);
            assert((message + rest).take(ml as int) =~= message);
        },
        _ => {
        },
    }
}

/// Appending one event to a run appends its fields to the serialized run.
pub proof fn lemma_tempo_fields_concat_snoc(evs: Seq<TempoEventView>, i: int)
    requires
        0 <= i < evs.len(),
    ensures
        tempo_fields_concat(evs.take(i + 1)) == tempo_fields_concat(evs.take(i))
            + tempo_event_fields(evs[i]),
    decreases i,
{
    if i == 0 {
        assert(evs.take(1) =~= seq![evs[0]]);
        assert(evs.take(1).skip(1) =~= Seq::<TempoEventView>::empty());
        assert(tempo_fields_concat(evs.take(1).skip(1)) == Seq::<u8>::empty()) by {
            reveal_with_fuel(tempo_fields_concat, 2);
        }
        assert(evs.take(0) =~= Seq::<TempoEventView>::empty());
        assert(tempo_event_fields(evs[0]) + Seq::<u8>::empty() =~= tempo_event_fields(evs[0]));
        assert(Seq::<u8>::empty() + tempo_event_fields(evs[0]) =~= tempo_event_fields(evs[0]));
    } else {
        let t = evs.skip(1);
        lemma_tempo_fields_concat_snoc(t, i - 1);
        assert(evs.take(i + 1)[0] == evs[0]);
        assert(evs.take(i + 1).skip(1) =~= t.take(i));
        assert(evs.take(i)[0] == evs[0]);
        assert(evs.take(i).skip(1) =~= t.take(i - 1));
        assert(t[i - 1] == evs[i]);
        assert(tempo_event_fields(evs[0]) + (tempo_fields_concat(t.take(i - 1))
            + tempo_event_fields(evs[i])) =~= tempo_event_fields(evs[0]) + tempo_fields_concat(
            t.take(i - 1),
        ) + tempo_event_fields(evs[i]));
    }
}

/// Round trip for a run: parsing the concatenated fields of `count` events
/// of one kind, with anything after them, yields them all back.
pub proof fn lemma_parse_tempo_run_round_trip(evs: Seq<TempoEventView>, kind: u8, rest: Seq<u8>)
    requires
        tempo_events_wf(evs),
        forall|i: int| 0 <= i < evs.len() ==> tempo_kind_tag(#[trigger] evs[i].kind) == kind,
    ensures
        parse_tempo_run(tempo_fields_concat(evs) + rest, kind, evs.len()) == Ok::<
            (Seq<TempoEventView>, int),
            DecodeError,
        >((evs, tempo_fields_concat(evs).len() as int)),
    decreases evs.len(),
{
    if evs.len() == 0 {
        assert(evs =~= Seq::<TempoEventView>::empty());
    } else {
        let e0 = evs[0];
        let tail = evs.skip(1);
        let s = tempo_fields_concat(evs) + rest;
        assert(s =~= tempo_event_fields(e0) + (tempo_fields_concat(tail) + rest));
        lemma_parse_tempo_event_round_trip(e0, tempo_fields_concat(tail) + rest);
        assert(s.skip(tempo_event_fields(e0).len() as int) =~= tempo_fields_concat(tail) + rest);
        assert(tempo_events_wf(tail) && forall|i: int|
            0 <= i < tail.len() ==> tempo_kind_tag(#[trigger] tail[i].kind) == kind) by {
            assert(forall|i: int| 0 <= i < tail.len() ==> #[trigger] tail[i] == evs[i + 1]);
        }
        lemma_parse_tempo_run_round_trip(tail, kind, rest);
        assert(seq![e0] + tail =~= evs);
    }
}

/// A stream that opens with one parsed run, followed by bytes that parse as
/// a whole tempo stream, parses as the run's events followed by the
/// stream's.
proof fn lemma_parse_tempo_after_count_compose(
    x: Seq<u8>,
    g: u64,
    head: Seq<TempoEventView>,
    c2: int,
    tail: Seq<TempoEventView>,
    len2: int,
)
    requires
        g != 0,
        x.len() > 0,
        parse_tempo_run(x.skip(1), x[0], g as nat) == Ok::<(Seq<TempoEventView>, int), DecodeError>(
            (head, c2),
        ),
        0 <= c2,
        1 + c2 <= x.len(),
        parse_tempo(x.skip(1 + c2)) == Ok::<(Seq<TempoEventView>, int), DecodeError>(
            (tail, len2),
        ),
    ensures
        parse_tempo_after_count(x, g) == Ok::<(Seq<TempoEventView>, int), DecodeError>(
            (head + tail, 1 + c2 + len2),
        ),
{
    let y = x.skip(1 + c2);
    match parse_varint(y) {
        Ok((count2, c3)) => {
            lemma_parse_varint_consumed(y);
            vstd::seq_lib::lemma_seq_skip_of_skip(x, 1 + c2, c3);
            assert(x.skip(1 + c2 + c3) == y.skip(c3));
        },
        Err(e) => {
            assert(false);
        },
    }
}

/// Inductive step of the stream round trip: one leading maximal run.
#[verifier::rlimit(100)]
proof fn lemma_parse_tempo_round_trip_step(evs: Seq<TempoEventView>, rest: Seq<u8>)
    requires
        tempo_events_wf(evs),
        evs.len() < 0x1_0000_0000_0000_0000,
        evs.len() > 0,
        parse_tempo(tempo_runs_bytes(evs.skip(run_len(evs))) + rest) == Ok::<
            (Seq<TempoEventView>, int),
            DecodeError,
        >((evs.skip(run_len(evs)), tempo_runs_bytes(evs.skip(run_len(evs))).len() as int)),
    ensures
        parse_tempo(tempo_runs_bytes(evs) + rest) == Ok::<(Seq<TempoEventView>, int), DecodeError>(
            (evs, tempo_runs_bytes(evs).len() as int),
        ),
{
    let s = tempo_runs_bytes(evs) + rest;
    lemma_run_len_bounds(evs);
    let g = run_len(evs);
    let head = evs.take(g);
    let tail = evs.skip(g);
    let kind = tempo_kind_tag(evs[0].kind);
    let vb = varint_bytes(g as u64);
    let fc = tempo_fields_concat(head);
    let tb = tempo_runs_bytes(tail);
    assert(s =~= vb + ((seq![kind] + fc + tb) + rest));
    lemma_varint_round_trip(g as u64, (seq![kind] + fc + tb) + rest);
    assert(s.skip(vb.len() as int) =~= (seq![kind] + fc + tb) + rest);
    let x = s.skip(vb.len() as int);
    assert(x[0] == kind);
    assert(x.skip(1) =~= fc + (tb + rest));
    assert(tempo_events_wf(head) && forall|i: int|
        0 <= i < head.len() ==> tempo_kind_tag(#[trigger] head[i].kind) == kind) by {
        assert(forall|i: int| 0 <= i < head.len() ==> #[trigger] head[i] == evs[i]);
    }
    lemma_parse_tempo_run_round_trip(head, kind, tb + rest);
    assert(x.skip(1 + fc.len() as int) =~= tb + rest) by {
        vstd::seq_lib::lemma_seq_skip_of_skip(x, 1, fc.len() as int);
        assert(x.skip(1).skip(fc.len() as int) =~= tb + rest);
    }
    lemma_parse_tempo_after_count_compose(
        x,
        g as u64,
        head,
        fc.len() as int,
        tail,
        tb.len() as int,
    );
    assert(head + tail =~= evs);
}

/// Round trip for a whole tempo stream: parsing the serialized runs of a
/// well-formed event sequence, with anything after them, yields the events
/// back in order.
pub proof fn lemma_parse_tempo_round_trip(evs: Seq<TempoEventView>, rest: Seq<u8>)
    requires
        tempo_events_wf(evs),
        evs.len() < 0x1_0000_0000_0000_0000,
    ensures
        parse_tempo(tempo_runs_bytes(evs) + rest) == Ok::<(Seq<TempoEventView>, int), DecodeError>(
            (evs, tempo_runs_bytes(evs).len() as int),
        ),
    decreases evs.len(),
{
    if evs.len() == 0 {
        assert(tempo_runs_bytes(evs) + rest =~= varint_bytes(0) + rest);
        lemma_varint_round_trip(0, rest);
        assert(evs =~= Seq::<TempoEventView>::empty());
        assert(varint_bytes(0) =~= seq![0u8]);
        assert((varint_bytes(0) + rest).skip(1) =~= rest);
    } else {
        lemma_run_len_bounds(evs);
        let tail = evs.skip(run_len(evs));
        assert(tempo_events_wf(tail)) by {
            assert(forall|i: int|
                0 <= i < tail.len() ==> #[trigger] tail[i] == evs[i + run_len(evs)]);
        }
        lemma_parse_tempo_round_trip(tail, rest);
        lemma_parse_tempo_round_trip_step(evs, rest);
    }
}

/// Unfolds one run of [`parse_tempo_after_count`]: with the leading run
/// parsed, the outcome is the following count's parse and the rest of the
/// stream.
pub proof fn lemma_parse_tempo_after_count_unfold(
    rs: Seq<u8>,
    count: u64,
    run_views: Seq<TempoEventView>,
    c2: int,
)
    requires
        count != 0,
        rs.len() > 0,
        parse_tempo_run(rs.skip(1), rs[0], count as nat) == Ok::<
            (Seq<TempoEventView>, int),
            DecodeError,
        >((run_views, c2)),
        0 <= c2,
        1 + c2 <= rs.len(),
    ensures
        match parse_varint(rs.skip(1 + c2)) {
            Err(e) => parse_tempo_after_count(rs, count) == Err::<
                (Seq<TempoEventView>, int),
                DecodeError,
            >(e),
            Ok((count2, c3)) => match parse_tempo_after_count(rs.skip(1 + c2 + c3), count2) {
                Ok((tail2, m4)) => parse_tempo_after_count(rs, count) == Ok::<
                    (Seq<TempoEventView>, int),
                    DecodeError,
                >((run_views + tail2, 1 + c2 + c3 + m4)),
                Err(e) => parse_tempo_after_count(rs, count) == Err::<
                    (Seq<TempoEventView>, int),
                    DecodeError,
                >(e),
            },
        },
{
    match parse_varint(rs.skip(1 + c2)) {
        Err(e) => {},
        Ok((count2, c3)) => {
            lemma_parse_varint_consumed(rs.skip(1 + c2));
            vstd::seq_lib::lemma_seq_skip_of_skip(rs, 1 + c2, c3);
        },
    }
}

} // verus!

