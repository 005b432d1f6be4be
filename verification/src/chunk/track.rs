//! Track chunk data enums and structs
//!
//! A track's byte payload is a flat sequence of (variable-length delta-time,
//! event) pairs.  The delta-time codec here — MIDI's variable-length quantity
//! (VLQ) — carries its full specification: `vlq_scan` says what decoding a
//! byte sequence yields, `vlq_encode` which bytes a value emits, and
//! `lemma_vlq_round_trip` proves that decoding an encoding gives the value
//! back.

use crate::cursor::ByteCursor;
use crate::writer::MidiWriteable;
use vstd::prelude::*;

pub mod event;
pub mod meta;
pub mod sysex;

use event::{status_encode, status_scan, status_wf, MidiStatus, UnsupportedStatusCode};
use meta::{meta_encode, meta_scan, meta_wf, MetaEvent, MetaEventView};
use sysex::{sysex_encode, sysex_scan, sysex_wf, SysexEvent, SysexView};

verus! {

/// Error types from parsing a track
#[derive(Debug, Clone, Copy, PartialEq, Eq, Structural)]
pub enum TrackError {
    /// End of input exactly at a delta-time boundary; ends the track loop
    EOF,
    /// End of input while in the middle of parsing an event
    OutOfSpace,
    /// Invalid chunk format
    InvalidFormat,
    /// MIDI Channel Event status code is invalid
    UnsupportedStatusCode(UnsupportedStatusCode),
    /// Meta Event is in an invalid format
    InvalidMetaEventData,
    /// Invalid start tag for sysex message
    InvalidSysExMessage,
    /// Missing ending to exclusive message
    MissingEndOfExclusive,
    /// The payload of a textual meta event is not valid UTF-8
    UtfParseError,
}

/// One step of the VLQ accumulator: shift in the low 7 bits of the next byte,
/// keeping a 32-bit accumulator (higher bits fall off).
pub open spec fn vlq_step(acc: u32, b: u8) -> u32 {
    (((acc as int) * 128 + (b as int) % 128) % 0x100000000) as u32
}

/// Scanning a variable-length quantity from the front of `s`, starting from
/// accumulator `acc`: consumes bytes through the first one whose high bit is
/// clear, or all of `s` if no such byte occurs.  Returns the accumulated
/// value and the number of bytes consumed.
pub open spec fn vlq_scan(s: Seq<u8>, acc: u32) -> (u32, nat)
    decreases s.len(),
{
    if s.len() == 0 {
        (acc, 0)
    } else {
        let acc2 = vlq_step(acc, s[0]);
        if s[0] < 128 {
            (acc2, 1)
        } else {
            let inner = vlq_scan(s.skip(1), acc2);
            (inner.0, (inner.1 + 1) as nat)
        }
    }
}

/// The leading groups of a VLQ encoding: all 7-bit groups of `y`, each with
/// the continuation bit set.  Empty exactly when `y` is zero.
pub open spec fn vlq_body(y: nat) -> Seq<u8>
    decreases y,
{
    if y == 0 {
        Seq::empty()
    } else {
        vlq_body(y / 128) + seq![(y % 128 + 128) as u8]
    }
}

/// The minimal VLQ encoding of `x`: leading groups with the continuation bit
/// set, then the low 7 bits with the continuation bit clear.  Zero encodes as
/// the single byte `0x00`.
pub open spec fn vlq_encode(x: nat) -> Seq<u8> {
    vlq_body(x / 128) + seq![(x % 128) as u8]
}

/// 128 raised to the power `k`.
pub open spec fn pow128(k: nat) -> nat
    decreases k,
{
    if k == 0 {
        1
    } else {
        128 * pow128((k - 1) as nat)
    }
}

/// Scanning the continuation-bit groups of `y` followed by `rest` multiplies
/// the accumulator by 128 for each group and adds `y`, then goes on with
/// `rest` — provided the accumulator never overflows 32 bits.
proof fn lemma_vlq_body_scan(y: nat, acc: u32, rest: Seq<u8>)
    requires
        (acc as nat) * pow128(vlq_body(y).len()) + y < 0x100000000,
    ensures
        ({
            let full = vlq_scan(rest, ((acc as nat) * pow128(vlq_body(y).len()) + y) as u32);
            vlq_scan(vlq_body(y) + rest, acc) == (full.0, (full.1 + vlq_body(y).len()) as nat)
        }),
    decreases y,
{
    if y == 0 {
        assert(vlq_body(0nat) + rest =~= rest);
        assert(pow128(0nat) == 1);
        assert((acc as nat) * 1 == acc as nat);
    } else {
        let d = (y % 128 + 128) as u8;
        let tail = seq![d] + rest;
        assert(vlq_body(y) + rest =~= vlq_body(y / 128) + tail);
        let blen = vlq_body(y / 128).len();
        assert(vlq_body(y).len() == blen + 1);
        assert(pow128((blen + 1) as nat) == 128 * pow128(blen));
        assert((acc as nat) * pow128(vlq_body(y).len()) + y == (acc as nat) * (128 * pow128(blen))
            + y);
        assert((acc as nat) * (128 * pow128(blen)) + y >= (acc as nat) * pow128(blen) + y / 128)
            by (nonlinear_arith);
        lemma_vlq_body_scan(y / 128, acc, tail);
        let a1 = ((acc as nat) * pow128(blen) + y / 128) as u32;
        // The byte `d` has its high bit set, so the scan takes one more step.
        assert(d >= 128);
        assert((d as int) % 128 == (y % 128) as int);
        let a2 = vlq_step(a1, d);
        assert((a1 as int) * 128 + (y % 128) as int == (acc as nat) * (128 * pow128(blen)) + y)
            by (nonlinear_arith)
            requires
                a1 as nat == (acc as nat) * pow128(blen) + y / 128;
        assert((a1 as int) * 128 + ((y % 128) as int) < 0x100000000);
        assert(a2 as nat == (acc as nat) * pow128(vlq_body(y).len()) + y);
        assert(tail[0] == d);
        assert(tail.skip(1) =~= rest);
        assert(vlq_scan(tail, a1) == {
            let inner = vlq_scan(rest, a2);
            (inner.0, (inner.1 + 1) as nat)
        });
    }
}

/// VLQ round trip: scanning the minimal encoding of any value below `2^32`,
/// followed by anything, yields the value back and consumes exactly the
/// encoding.
pub proof fn lemma_vlq_round_trip_nat(x: nat, rest: Seq<u8>)
    requires
        x < 0x100000000,
    ensures
        vlq_scan(vlq_encode(x) + rest, 0) == (x as u32, vlq_encode(x).len()),
        vlq_encode(x).len() >= 1,
{
    let tail = seq![(x % 128) as u8] + rest;
    assert(vlq_encode(x) + rest =~= vlq_body(x / 128) + tail);
    assert((0 as nat) * pow128(vlq_body(x / 128).len()) + x / 128 == x / 128) by (nonlinear_arith);
    lemma_vlq_body_scan(x / 128, 0, tail);
    let a1 = (x / 128) as u32;
    let d = (x % 128) as u8;
    assert(d < 128);
    assert((a1 as int) * 128 + (d as int) % 128 == x);
    assert(vlq_step(a1, d) == x as u32);
    assert(vlq_scan(tail, a1) == (x as u32, 1nat));
}

/// VLQ round trip for `u32` values: `vlq_scan(vlq_encode(x) + rest, 0)`
/// recovers `x` and consumes exactly the encoding.
pub proof fn lemma_vlq_round_trip(x: u32, rest: Seq<u8>)
    ensures
        vlq_scan(vlq_encode(x as nat) + rest, 0) == (x, vlq_encode(x as nat).len()),
        vlq_encode(x as nat).len() >= 1,
{
    lemma_vlq_round_trip_nat(x as nat, rest);
}

/// The continuation-bit groups of `y`, as a vector.
fn vlq_body_emit(y: u64) -> (r: Vec<u8>)
    ensures
        r@ == vlq_body(y as nat),
    decreases y,
{
    if y == 0 {
        let r: Vec<u8> = Vec::new();
        proof {
            assert(r@ =~= vlq_body(0nat));
        }
        r
    } else {
        let mut r = vlq_body_emit(y / 128);
        r.push((y % 128 + 128) as u8);
        proof {
            assert(r@ =~= vlq_body(y as nat));
        }
        r
    }
}

/// The minimal VLQ encoding of `value`.
pub(crate) fn vlq_emit(value: u64) -> (r: Vec<u8>)
    ensures
        r@ == vlq_encode(value as nat),
{
    let mut r = vlq_body_emit(value / 128);
    r.push((value % 128) as u8);
    proof {
        assert(r@ =~= vlq_encode(value as nat));
    }
    r
}

/// Reads one VLQ from the cursor: `None` exactly when the cursor is already
/// exhausted; otherwise the scanned value, with the scanned bytes consumed.
pub(crate) fn vlq_read(cursor: &mut ByteCursor) -> (r: Option<u32>)
    ensures
        match r {
            None => old(cursor).remaining().len() == 0 && final(cursor).remaining() == old(
                cursor,
            ).remaining(),
            Some(v) => old(cursor).remaining().len() > 0 && {
                let scan = vlq_scan(old(cursor).remaining(), 0);
                v == scan.0 && final(cursor).remaining() == old(cursor).remaining().skip(
                    scan.1 as int,
                )
            },
        },
{
    let ghost rem = cursor.remaining();
    let mut acc: u32 = 0;
    let ghost consumed: nat = 0nat;
    let mut first = true;
    loop
        invariant
            rem == old(cursor).remaining(),
            consumed <= rem.len(),
            cursor.remaining() == rem.skip(consumed as int),
            first <==> consumed == 0,
            ({
                let scan0 = vlq_scan(rem, 0);
                let scan_now = vlq_scan(cursor.remaining(), acc);
                scan0.0 == scan_now.0 && scan0.1 == consumed + scan_now.1
            }),
        decreases cursor.remaining().len(),
    {
        let ghost loop_rem = cursor.remaining();
        match cursor.take_one() {
            None => {
                if first {
                    return None;
                } else {
                    return Some(acc);
                }
            },
            Some(b) => {
                let acc2: u32 = (((acc as u64) * 128 + (b % 128) as u64) % 0x100000000) as u32;
                proof {
                    assert(acc2 == vlq_step(acc, b));
                    assert(cursor.remaining() =~= rem.skip((consumed + 1) as int));
                }
                acc = acc2;
                proof {
                    consumed = consumed + 1;
                }
                first = false;
                if b < 0x80 {
                    return Some(acc);
                }
            },
        }
    }
}

/// The scan consumes at least one byte of a non-empty sequence, and never
/// more than the whole sequence.
pub proof fn lemma_vlq_scan_len(s: Seq<u8>, acc: u32)
    ensures
        vlq_scan(s, acc).1 <= s.len(),
        s.len() > 0 ==> vlq_scan(s, acc).1 >= 1,
    decreases s.len(),
{
    if s.len() > 0 && s[0] >= 128 {
        lemma_vlq_scan_len(s.skip(1), vlq_step(acc, s[0]));
    }
}

/// Any event that may occur
#[derive(Debug, Clone, PartialEq, Eq)]
pub enum Event {
    /// A midi channel voice event
    MidiEvent(MidiStatus),
    /// A system exclusive event
    SysexEvent(SysexEvent),
    /// Specifies non-MIDI information useful to this format or to sequencers
    MetaEvent(MetaEvent),
}

/// The mathematical content of an event.
#[verifier::ext_equal]
pub enum EventView {
    /// A midi channel voice event
    MidiEvent(MidiStatus),
    /// A system exclusive event
    SysexEvent(SysexView),
    /// A meta event
    MetaEvent(MetaEventView),
}

impl View for Event {
    type V = EventView;

    open spec fn view(&self) -> EventView {
        match self {
            Event::MidiEvent(m) => EventView::MidiEvent(*m),
            Event::SysexEvent(s) => EventView::SysexEvent(s@),
            Event::MetaEvent(m) => EventView::MetaEvent(m@),
        }
    }
}

/// Decoding one event from the front of `s`: the first byte routes to the
/// channel, sysex or meta codec.
pub open spec fn event_scan(s: Seq<u8>) -> Result<(EventView, nat), TrackError> {
    if s.len() == 0 {
        Err(TrackError::OutOfSpace)
    } else if 0x80 <= s[0] && s[0] <= 0xEF {
        match status_scan(s) {
            Ok((m, n)) => Ok((EventView::MidiEvent(m), n)),
            Err(e) => Err(e),
        }
    } else if 0xF0 <= s[0] && s[0] < 0xFF {
        match sysex_scan(s) {
            Ok((v, n)) => Ok((EventView::SysexEvent(v), n)),
            Err(e) => Err(e),
        }
    } else if s[0] == 0xFF {
        match meta_scan(s) {
            Ok((v, n)) => Ok((EventView::MetaEvent(v), n)),
            Err(e) => Err(e),
        }
    } else {
        Err(TrackError::InvalidFormat)
    }
}

/// The wire bytes of an event.
pub open spec fn event_encode(v: EventView) -> Seq<u8> {
    match v {
        EventView::MidiEvent(m) => status_encode(m),
        EventView::SysexEvent(s) => sysex_encode(s),
        EventView::MetaEvent(m) => meta_encode(m),
    }
}

/// An event that re-encodes to the exact bytes it was decoded from.
pub open spec fn event_wf(v: EventView) -> bool {
    match v {
        EventView::MidiEvent(m) => status_wf(m),
        EventView::SysexEvent(s) => sysex_wf(s),
        EventView::MetaEvent(m) => meta_wf(m),
    }
}

impl Event {
    /// Decodes one event by peeking the first byte and routing to the codec
    /// it selects.
    pub fn try_from(cursor: &mut ByteCursor) -> (r: Result<Event, TrackError>)
        ensures
            ({
                let scan = event_scan(old(cursor).remaining());
                match scan {
                    Ok((v, n)) => match r {
                        Ok(ev) => ev@ == v && final(cursor).remaining() == old(
                            cursor,
                        ).remaining().skip(n as int),
                        Err(_) => false,
                    },
                    Err(e) => r == Err::<Event, TrackError>(e),
                }
            }),
    {
        let prefix = match cursor.peek() {
            Some(b) => b,
            None => {
                return Err(TrackError::OutOfSpace);
            },
        };
        if 0x80 <= prefix && prefix <= 0xEF {
            match MidiStatus::try_from(cursor) {
                Ok(m) => Ok(Event::MidiEvent(m)),
                Err(e) => Err(e),
            }
        } else if 0xF0 <= prefix && prefix < 0xFF {
            match SysexEvent::try_from(cursor) {
                Ok(s) => Ok(Event::SysexEvent(s)),
                Err(e) => Err(e),
            }
        } else if prefix == 0xFF {
            match MetaEvent::try_from(cursor) {
                Ok(m) => Ok(Event::MetaEvent(m)),
                Err(e) => Err(e),
            }
        } else {
            Err(TrackError::InvalidFormat)
        }
    }
}

impl MidiWriteable for Event {
    open spec fn midi_bytes(self) -> Seq<u8> {
        event_encode(self@)
    }

    fn to_midi_bytes(self) -> (r: Vec<u8>) {
        match self {
            Self::MidiEvent(ev) => ev.to_midi_bytes(),
            Self::SysexEvent(ev) => ev.to_midi_bytes(),
            Self::MetaEvent(ev) => ev.to_midi_bytes(),
        }
    }
}

/// A MIDI Event with a DeltaTime and an attached Event
#[derive(Debug, Clone, PartialEq, Eq)]
pub struct MTrkEvent {
    /// Delta time is a variable-length representation of how much time to
    /// wait in ticks before the event follows.
    pub delta_time: u32,
    /// The event that occurs after the delta time is waited for
    pub event: Event,
}

/// The mathematical content of a timed event.
#[verifier::ext_equal]
pub struct MTrkEventView {
    /// Ticks to wait before the event fires
    pub delta_time: u32,
    /// The event itself
    pub event: EventView,
}

impl View for MTrkEvent {
    type V = MTrkEventView;

    open spec fn view(&self) -> MTrkEventView {
        MTrkEventView { delta_time: self.delta_time, event: self.event@ }
    }
}

/// Decoding one timed event from the front of `s`: a VLQ delta-time, then an
/// event.  An empty `s` is the end-of-track condition, reported as `EOF`.
pub open spec fn mtrk_scan(s: Seq<u8>) -> Result<(MTrkEventView, nat), TrackError> {
    if s.len() == 0 {
        Err(TrackError::EOF)
    } else {
        let scan = vlq_scan(s, 0);
        match event_scan(s.skip(scan.1 as int)) {
            Ok((ev, m)) => Ok(
                (MTrkEventView { delta_time: scan.0, event: ev }, (scan.1 + m) as nat),
            ),
            Err(e) => Err(e),
        }
    }
}

/// The wire bytes of a timed event: VLQ delta-time, then the event's bytes.
pub open spec fn mtrk_encode(v: MTrkEventView) -> Seq<u8> {
    vlq_encode(v.delta_time as nat) + event_encode(v.event)
}

impl MTrkEvent {
    /// Gets the delta time as a variable length quantity from the cursor:
    /// `None` exactly when the cursor is already exhausted.
    pub fn try_get_delta_time(iter: &mut ByteCursor) -> (r: Option<u32>)
        ensures
            match r {
                None => old(iter).remaining().len() == 0 && final(iter).remaining() == old(
                    iter,
                ).remaining(),
                Some(v) => old(iter).remaining().len() > 0 && {
                    let scan = vlq_scan(old(iter).remaining(), 0);
                    v == scan.0 && final(iter).remaining() == old(iter).remaining().skip(
                        scan.1 as int,
                    )
                },
            },
    {
        vlq_read(iter)
    }

    /// Goes backwards from a length to its variable length byte encoding.
    pub fn to_midi_vlq(value: u32) -> (r: Vec<u8>)
        ensures
            r@ == vlq_encode(value as nat),
    {
        vlq_emit(value as u64)
    }

    /// Returns true if the most significant bit of a byte is 1
    pub fn msb_is_one(byte: u8) -> (r: bool)
        ensures
            r == (byte >= 128),
    {
        proof {
            assert((byte >> 7 == 1) == (byte >= 128)) by (bit_vector);
        }
        byte >> 7 == 1
    }

    /// Decodes one timed event: a delta-time, then the event it schedules.
    pub fn try_from(cursor: &mut ByteCursor) -> (r: Result<MTrkEvent, TrackError>)
        ensures
            ({
                let scan = mtrk_scan(old(cursor).remaining());
                match scan {
                    Ok((v, n)) => match r {
                        Ok(ev) => ev@ == v && final(cursor).remaining() == old(
                            cursor,
                        ).remaining().skip(n as int),
                        Err(_) => false,
                    },
                    Err(e) => r == Err::<MTrkEvent, TrackError>(e),
                }
            }),
    {
        let ghost rem = cursor.remaining();
        let delta_time = match Self::try_get_delta_time(cursor) {
            Some(dt) => dt,
            None => {
                return Err(TrackError::EOF);
            },
        };
        proof {
            lemma_vlq_scan_len(rem, 0);
        }
        match Event::try_from(cursor) {
            Ok(event) => {
                proof {
                    let k = vlq_scan(rem, 0).1;
                    let escan = event_scan(rem.skip(k as int));
                    lemma_event_scan_len(rem.skip(k as int));
                    let m = escan.unwrap().1;
                    assert(cursor.remaining() =~= rem.skip((k + m) as int));
                    assert(MTrkEventView { delta_time, event: event@ } =~= mtrk_scan(
                        rem,
                    ).unwrap().0);
                }
                Ok(MTrkEvent { delta_time, event })
            },
            Err(e) => Err(e),
        }
    }
}

impl MidiWriteable for MTrkEvent {
    open spec fn midi_bytes(self) -> Seq<u8> {
        mtrk_encode(self@)
    }

    fn to_midi_bytes(self) -> (r: Vec<u8>) {
        let mut bytes = MTrkEvent::to_midi_vlq(self.delta_time);
        let mut event_bytes = self.event.to_midi_bytes();
        bytes.append(&mut event_bytes);
        proof {
            assert(bytes@ =~= mtrk_encode(self@));
        }
        bytes
    }
}

/// An event's decoding consumes at least one byte and at most the whole
/// input.
pub proof fn lemma_event_scan_len(s: Seq<u8>)
    ensures
        match event_scan(s) {
            Ok((_, n)) => 1 <= n <= s.len(),
            Err(_) => true,
        },
{
    if s.len() > 0 && 0xF0 <= s[0] && s[0] < 0xFF {
        if s[0] == 0xF0 {
            match sysex::id_scan(s.skip(1)) {
                Ok((idb, n)) => {
                    sysex::lemma_scan_until_f7_len(s.skip(1 + n as int));
                },
                Err(_) => {},
            }
        }
    } else if s.len() > 0 && s[0] == 0xFF && s.len() > 1 && s.skip(2).len() > 0 {
        lemma_vlq_scan_len(s.skip(2), 0);
    }
}

/// Decoding a track payload: timed events in sequence until the input is
/// exhausted exactly at a delta-time boundary.
pub open spec fn track_scan(s: Seq<u8>) -> Result<Seq<MTrkEventView>, TrackError>
    decreases s.len(),
{
    if s.len() == 0 {
        Ok(Seq::empty())
    } else {
        match mtrk_scan(s) {
            Err(e) => Err(e),
            Ok((v, n)) => {
                let step = if 1 <= n <= s.len() {
                    n as int
                } else {
                    s.len() as int
                };
                match track_scan(s.skip(step)) {
                    Err(e) => Err(e),
                    Ok(tail) => Ok(seq![v] + tail),
                }
            },
        }
    }
}

/// The wire bytes of a sequence of timed events.
pub open spec fn track_encode(vs: Seq<MTrkEventView>) -> Seq<u8>
    decreases vs.len(),
{
    if vs.len() == 0 {
        Seq::empty()
    } else {
        mtrk_encode(vs[0]) + track_encode(vs.skip(1))
    }
}

/// A track chunk, containing zero or more MTrk events
#[derive(Debug, Clone, PartialEq, Eq)]
pub struct TrackChunk {
    /// All associated track events to this chunk
    pub mtrk_events: Vec<MTrkEvent>,
}

/// The views of a sequence of timed events.
pub open spec fn events_view(s: Seq<MTrkEvent>) -> Seq<MTrkEventView> {
    s.map_values(|e: MTrkEvent| e@)
}

impl View for TrackChunk {
    type V = Seq<MTrkEventView>;

    open spec fn view(&self) -> Seq<MTrkEventView> {
        events_view(self.mtrk_events@)
    }
}

impl TrackChunk {
    /// Decodes a whole track payload, looping until the input is exhausted
    /// at a delta-time boundary; any codec error is propagated.
    #[verifier::rlimit(60)]
    pub fn try_from(value: Vec<u8>) -> (r: Result<TrackChunk, TrackError>)
        ensures
            match track_scan(value@) {
                Ok(views) => match r {
                    Ok(tc) => tc@ == views,
                    Err(_) => false,
                },
                Err(e) => r == Err::<TrackChunk, TrackError>(e),
            },
    {
        let ghost all = value@;
        let mut cursor = ByteCursor::new(value);
        let mut mtrk_events: Vec<MTrkEvent> = Vec::new();
        loop
            invariant_except_break
                ({
                    let views = events_view(mtrk_events@);
                    match track_scan(cursor.remaining()) {
                        Ok(tail) => track_scan(all) == Ok::<Seq<MTrkEventView>, TrackError>(
                            views + tail,
                        ),
                        Err(e) => track_scan(all) == Err::<Seq<MTrkEventView>, TrackError>(e),
                    }
                }),
                all == value@,
            ensures
                track_scan(all) == Ok::<Seq<MTrkEventView>, TrackError>(
                    events_view(mtrk_events@),
                ),
            decreases cursor.remaining().len(),
        {
            let ghost loop_rem = cursor.remaining();
            match MTrkEvent::try_from(&mut cursor) {
                Ok(new_track) => {
                    proof {
                        lemma_vlq_scan_len(loop_rem, 0);
                        lemma_event_scan_len(loop_rem.skip(vlq_scan(loop_rem, 0).1 as int));
                        let views0 = events_view(mtrk_events@);
                        let (v, n) = mtrk_scan(loop_rem).unwrap();
                        assert(1 <= n <= loop_rem.len());
                        assert(cursor.remaining() == loop_rem.skip(n as int));
                        assert(track_scan(loop_rem) == (match track_scan(loop_rem.skip(n as int)) {
                            Err(e) => Err::<Seq<MTrkEventView>, TrackError>(e),
                            Ok(tail) => Ok::<Seq<MTrkEventView>, TrackError>(seq![v] + tail),
                        }));
                        if track_scan(cursor.remaining()) is Ok {
                            let tail = track_scan(cursor.remaining()).unwrap();
                            assert((views0 + seq![v]) + tail =~= views0 + (seq![v] + tail));
                        }
                    }
                    let ghost views0 = events_view(mtrk_events@);
                    mtrk_events.push(new_track);
                    proof {
                        assert(events_view(mtrk_events@) =~= views0 + seq![
                            new_track@,
                        ]);
                    }
                },
                Err(e) => {
                    if matches!(e, TrackError::EOF) {
                        proof {
                            assert(loop_rem.len() == 0);
                            assert(track_scan(loop_rem) == Ok::<
                                Seq<MTrkEventView>,
                                TrackError,
                            >(Seq::empty()));
                            assert(events_view(mtrk_events@) + Seq::<
                                MTrkEventView,
                            >::empty() =~= events_view(mtrk_events@));
                        }
                        break ;
                    } else {
                        proof {
                            assert(loop_rem.len() > 0);
                            assert(track_scan(loop_rem) == Err::<Seq<MTrkEventView>, TrackError>(
                                e,
                            ));
                        }
                        return Err(e);
                    }
                },
            }
        }
        Ok(TrackChunk { mtrk_events })
    }
}

/// The bytes of the first `i` events of a track.
pub open spec fn track_encode_prefix(vs: Seq<MTrkEventView>, i: int) -> Seq<u8>
    decreases i,
{
    if i <= 0 {
        Seq::empty()
    } else {
        track_encode_prefix(vs, i - 1) + mtrk_encode(vs[i - 1])
    }
}

/// The track encoding splits at any point into an encoded prefix and the
/// encoding of the remaining events.
proof fn lemma_track_encode_split(vs: Seq<MTrkEventView>, i: int)
    requires
        0 <= i <= vs.len(),
    ensures
        track_encode(vs) == track_encode_prefix(vs, i) + track_encode(vs.skip(i)),
    decreases i,
{
    if i == 0 {
        assert(vs.skip(0) =~= vs);
        assert(track_encode_prefix(vs, 0) + track_encode(vs) =~= track_encode(vs));
    } else {
        lemma_track_encode_split(vs, i - 1);
        let tail = vs.skip(i - 1);
        assert(tail.len() > 0);
        assert(tail[0] == vs[i - 1]);
        assert(tail.skip(1) =~= vs.skip(i));
        assert(track_encode(tail) == mtrk_encode(vs[i - 1]) + track_encode(vs.skip(i)));
        assert(track_encode_prefix(vs, i - 1) + (mtrk_encode(vs[i - 1]) + track_encode(
            vs.skip(i),
        )) =~= (track_encode_prefix(vs, i - 1) + mtrk_encode(vs[i - 1])) + track_encode(
            vs.skip(i),
        ));
    }
}

impl MidiWriteable for TrackChunk {
    open spec fn midi_bytes(self) -> Seq<u8> {
        track_encode(self@)
    }

    fn to_midi_bytes(self) -> (r: Vec<u8>) {
        let ghost views = self@;
        let mut rest = self.mtrk_events;
        let mut out: Vec<u8> = Vec::new();
        proof {
            assert(events_view(rest@) =~= views.skip(0));
        }
        while rest.len() > 0
            invariant
                rest@.len() <= views.len(),
                events_view(rest@) == views.skip(
                    (views.len() - rest@.len()) as int,
                ),
                out@ == track_encode_prefix(views, (views.len() - rest@.len()) as int),
            decreases rest.len(),
        {
            let ghost k = (views.len() - rest@.len()) as int;
            let ev = rest.remove(0);
            proof {
                assert(views.skip(k)[0] == views[k]);
                assert(ev@ == views[k]);
                assert(events_view(rest@) =~= views.skip(k).skip(1));
                assert(views.skip(k).skip(1) =~= views.skip(k + 1));
            }
            let mut evb = ev.to_midi_bytes();
            out.append(&mut evb);
            proof {
                assert(out@ =~= track_encode_prefix(views, k + 1));
            }
        }
        proof {
            lemma_track_encode_split(views, views.len() as int);
            assert(views.skip(views.len() as int) =~= Seq::<MTrkEventView>::empty());
            assert(out@ =~= track_encode(views));
        }
        out
    }
}

/// Event round trip: decoding the encoding of a well-formed event gives the
/// event back and consumes exactly its bytes.
pub proof fn lemma_event_round_trip(v: EventView, rest: Seq<u8>)
    requires
        event_wf(v),
    ensures
        ({
            let scanned = event_scan(event_encode(v) + rest);
            match scanned {
                Ok((v2, n)) => v2 =~= v && n == event_encode(v).len(),
                Err(_) => false,
            }
        }),
{
    let s = event_encode(v) + rest;
    match v {
        EventView::MidiEvent(m) => {
            event::lemma_status_round_trip(m, rest);
            assert(s[0] == (event::status_kind(m) * 16 + event::status_channel(m) % 16) as u8);
            assert(0x80 <= s[0] && s[0] <= 0xEF);
        },
        EventView::SysexEvent(sx) => {
            sysex::lemma_sysex_round_trip(sx, rest);
            assert(s[0] == 0xF0);
            match event_scan(s) {
                Ok((v2, n)) => {
                    assert(v2 =~= v);
                },
                Err(_) => {
                    assert(false);
                },
            }
        },
        EventView::MetaEvent(m) => {
            meta::lemma_meta_round_trip(m, rest);
            assert(s[0] == 0xFF);
            match event_scan(s) {
                Ok((v2, n)) => {
                    assert(v2 =~= v);
                },
                Err(_) => {
                    assert(false);
                },
            }
        },
    }
}

/// A whole track of well-formed events round trips: decoding the
/// concatenated encodings yields the same event sequence.
pub proof fn lemma_track_round_trip(vs: Seq<MTrkEventView>)
    requires
        forall|i: int| 0 <= i < vs.len() ==> event_wf(#[trigger] vs[i].event),
    ensures
        track_scan(track_encode(vs)) == Ok::<Seq<MTrkEventView>, TrackError>(vs),
    decreases vs.len(),
{
    if vs.len() == 0 {
        assert(track_encode(vs).len() == 0);
        assert(track_scan(track_encode(vs)) == Ok::<Seq<MTrkEventView>, TrackError>(
            Seq::empty(),
        ));
        assert(Seq::<MTrkEventView>::empty() =~= vs);
    } else {
        let v = vs[0];
        let tail_bytes = track_encode(vs.skip(1));
        let s = track_encode(vs);
        assert(s =~= mtrk_encode(v) + tail_bytes);
        let erest = event_encode(v.event) + tail_bytes;
        assert(s =~= vlq_encode(v.delta_time as nat) + erest);
        lemma_vlq_round_trip(v.delta_time, erest);
        lemma_event_round_trip(v.event, tail_bytes);
        assert(s.len() > 0) by {
            lemma_vlq_round_trip(v.delta_time, erest);
        }
        let scan = vlq_scan(s, 0);
        assert(scan.0 == v.delta_time);
        assert(s.skip(scan.1 as int) =~= erest);
        let n = mtrk_scan(s).unwrap().1;
        assert(mtrk_scan(s).unwrap().0 =~= v);
        assert(n == vlq_encode(v.delta_time as nat).len() + event_encode(v.event).len());
        assert(1 <= n <= s.len());
        assert(s.skip(n as int) =~= tail_bytes);
        lemma_track_round_trip(vs.skip(1));
        assert(seq![mtrk_scan(s).unwrap().0] + vs.skip(1) =~= vs);
    }
}

} // verus!
