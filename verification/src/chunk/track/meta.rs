//! Meta Event Structs and Parsing
//!
//! A meta event is `0xFF`, a tag byte, a VLQ-encoded payload length, and the
//! payload.  `meta_scan` specifies decoding, `meta_encode` the emitted
//! bytes, and `lemma_meta_round_trip` proves, for every tag, that decoding
//! an encoding gives the event back.

use super::{vlq_emit, vlq_encode, vlq_read, vlq_scan, TrackError};
use crate::cursor::{capped_len, ByteCursor};
use crate::writer::{be16_bytes, i8_byte, MidiWriteable};
use vstd::arithmetic::power2::{lemma2_to64, lemma_pow2_strictly_increases, pow2};
use vstd::prelude::*;
use vstd::string::StrSliceExecFns;
use vstd::utf8::{decode_utf8, encode_utf8, valid_utf8};

verus! {

/// A meta level event
#[derive(Debug, Clone, PartialEq, Eq)]
pub enum MetaEvent {
    /// Sequence Number, tag 0x00
    SequenceNumber(u16),
    /// Text metadata, tag 0x01
    Text(String),
    /// Copyright, tag 0x02
    Copyright(String),
    /// Track name, tag 0x03
    TrackName(String),
    /// Instrument name, tag 0x04
    InstrumentName(String),
    /// Lyric, tag 0x05
    Lyric(String),
    /// Marker, tag 0x06
    Marker(String),
    /// Cue Point, tag 0x07
    CuePoint(Vec<u8>),
    /// Midi Channel Prefix, tag 0x20
    MidiChannelPrefix(u8),
    /// End of Track Identifier, tag 0x2F
    EndOfTrack,
    /// Tempo, tag 0x51
    Tempo(u32),
    /// Smpte Offset, tag 0x54
    SmpteOffset(SmpteOffset),
    /// Time signature, tag 0x58
    TimeSignature(TimeSignature),
    /// Key Signature, tag 0x59
    KeySignature(KeySignature),
    /// Sequencer Specific, tag 0x7F
    SequencerSpecific(Vec<u8>),
    /// An unknown meta event, kept with its tag and raw payload
    UnknownRaw(u8, Vec<u8>),
}

/// A key signature
#[derive(Debug, Clone, Copy, PartialEq, Eq, Structural)]
pub struct KeySignature {
    /// Sharps and flats
    pub sharps_flats: i8,
    /// True if in major, false if in minor
    pub major_minor: bool,
}

/// An SMPTE Offset
#[derive(Debug, Clone, Copy, PartialEq, Eq, Structural)]
pub struct SmpteOffset {
    /// Hours of offset
    pub hours: u8,
    /// Minutes of offset
    pub minutes: u8,
    /// Seconds of offset
    pub seconds: u8,
    /// Frames of offset
    pub frames: u8,
    /// Subframes of offset
    pub subframes: u8,
}

/// A Time Signature
#[derive(Debug, Clone, Copy, PartialEq, Eq, Structural)]
pub struct TimeSignature {
    /// The time signature's numerator
    pub numerator: u8,
    /// The time signature's denominator, expanded from its stored
    /// power-of-two exponent
    pub denominator: u32,
    /// Clocks per tick
    pub clocks_per_tick: u8,
    /// Thirty second notes per quarter
    pub thirty_second_notes_per_quarter: u8,
}

/// The mathematical content of a meta event: text as character sequences,
/// raw payloads as byte sequences.
#[verifier::ext_equal]
pub enum MetaEventView {
    /// Sequence Number, tag 0x00
    SequenceNumber(u16),
    /// Text metadata, tag 0x01
    Text(Seq<char>),
    /// Copyright, tag 0x02
    Copyright(Seq<char>),
    /// Track name, tag 0x03
    TrackName(Seq<char>),
    /// Instrument name, tag 0x04
    InstrumentName(Seq<char>),
    /// Lyric, tag 0x05
    Lyric(Seq<char>),
    /// Marker, tag 0x06
    Marker(Seq<char>),
    /// Cue Point, tag 0x07
    CuePoint(Seq<u8>),
    /// Midi Channel Prefix, tag 0x20
    MidiChannelPrefix(u8),
    /// End of Track Identifier, tag 0x2F
    EndOfTrack,
    /// Tempo, tag 0x51
    Tempo(u32),
    /// Smpte Offset, tag 0x54
    SmpteOffset(SmpteOffset),
    /// Time signature, tag 0x58
    TimeSignature(TimeSignature),
    /// Key Signature, tag 0x59
    KeySignature(KeySignature),
    /// Sequencer Specific, tag 0x7F
    SequencerSpecific(Seq<u8>),
    /// An unknown meta event, kept with its tag and raw payload
    UnknownRaw(u8, Seq<u8>),
}

impl View for MetaEvent {
    type V = MetaEventView;

    open spec fn view(&self) -> MetaEventView {
        match self {
            MetaEvent::SequenceNumber(n) => MetaEventView::SequenceNumber(*n),
            MetaEvent::Text(s) => MetaEventView::Text(s@),
            MetaEvent::Copyright(s) => MetaEventView::Copyright(s@),
            MetaEvent::TrackName(s) => MetaEventView::TrackName(s@),
            MetaEvent::InstrumentName(s) => MetaEventView::InstrumentName(s@),
            MetaEvent::Lyric(s) => MetaEventView::Lyric(s@),
            MetaEvent::Marker(s) => MetaEventView::Marker(s@),
            MetaEvent::CuePoint(b) => MetaEventView::CuePoint(b@),
            MetaEvent::MidiChannelPrefix(c) => MetaEventView::MidiChannelPrefix(*c),
            MetaEvent::EndOfTrack => MetaEventView::EndOfTrack,
            MetaEvent::Tempo(t) => MetaEventView::Tempo(*t),
            MetaEvent::SmpteOffset(o) => MetaEventView::SmpteOffset(*o),
            MetaEvent::TimeSignature(t) => MetaEventView::TimeSignature(*t),
            MetaEvent::KeySignature(k) => MetaEventView::KeySignature(*k),
            MetaEvent::SequencerSpecific(b) => MetaEventView::SequencerSpecific(b@),
            MetaEvent::UnknownRaw(t, b) => MetaEventView::UnknownRaw(*t, b@),
        }
    }
}

/// The tag byte of a meta event.
pub open spec fn meta_tag(v: MetaEventView) -> u8 {
    match v {
        MetaEventView::SequenceNumber(_) => 0x00,
        MetaEventView::Text(_) => 0x01,
        MetaEventView::Copyright(_) => 0x02,
        MetaEventView::TrackName(_) => 0x03,
        MetaEventView::InstrumentName(_) => 0x04,
        MetaEventView::Lyric(_) => 0x05,
        MetaEventView::Marker(_) => 0x06,
        MetaEventView::CuePoint(_) => 0x07,
        MetaEventView::MidiChannelPrefix(_) => 0x20,
        MetaEventView::EndOfTrack => 0x2F,
        MetaEventView::Tempo(_) => 0x51,
        MetaEventView::SmpteOffset(_) => 0x54,
        MetaEventView::TimeSignature(_) => 0x58,
        MetaEventView::KeySignature(_) => 0x59,
        MetaEventView::SequencerSpecific(_) => 0x7F,
        MetaEventView::UnknownRaw(tag, _) => tag,
    }
}

/// Whether a tag byte is one of the recognized meta event tags.
pub open spec fn known_meta_tag(t: u8) -> bool {
    t == 0x00 || t == 0x01 || t == 0x02 || t == 0x03 || t == 0x04 || t == 0x05 || t == 0x06 || t
        == 0x07 || t == 0x20 || t == 0x2F || t == 0x51 || t == 0x54 || t == 0x58 || t == 0x59 || t
        == 0x7F
}

/// The exponent of the largest power of two that is at most `n` (0 for
/// `n <= 1`): the form in which a time signature denominator is stored.
pub open spec fn log2floor(n: nat) -> nat
    decreases n,
{
    if n <= 1 {
        0
    } else {
        1 + log2floor(n / 2)
    }
}

/// The value of an 8-bit two's-complement byte.
pub open spec fn byte_i8(b: u8) -> i8 {
    if b < 128 {
        b as i8
    } else {
        (b - 256) as i8
    }
}

/// The payload bytes of a key signature: sharps/flats count, major flag.
pub open spec fn key_signature_bytes(k: KeySignature) -> Seq<u8> {
    seq![
        i8_byte(k.sharps_flats),
        if k.major_minor {
            1u8
        } else {
            0u8
        },
    ]
}

/// The payload bytes of an SMPTE offset.
pub open spec fn smpte_offset_bytes(o: SmpteOffset) -> Seq<u8> {
    seq![o.hours, o.minutes, o.seconds, o.frames, o.subframes]
}

/// The payload bytes of a time signature; the denominator is stored as its
/// power-of-two exponent.
pub open spec fn time_signature_bytes(t: TimeSignature) -> Seq<u8> {
    seq![
        t.numerator,
        log2floor(t.denominator as nat) as u8,
        t.clocks_per_tick,
        t.thirty_second_notes_per_quarter,
    ]
}

/// The payload bytes of a tempo event: 24-bit big-endian
/// microseconds-per-quarter-note.
pub open spec fn tempo_bytes(t: u32) -> Seq<u8> {
    seq![((t / 0x10000) % 0x100) as u8, ((t / 0x100) % 0x100) as u8, (t % 0x100) as u8]
}

/// The payload bytes of a meta event, without the `0xFF`, tag and length.
pub open spec fn meta_payload(v: MetaEventView) -> Seq<u8> {
    match v {
        MetaEventView::SequenceNumber(n) => be16_bytes(n),
        MetaEventView::Text(s) => encode_utf8(s),
        MetaEventView::Copyright(s) => encode_utf8(s),
        MetaEventView::TrackName(s) => encode_utf8(s),
        MetaEventView::InstrumentName(s) => encode_utf8(s),
        MetaEventView::Lyric(s) => encode_utf8(s),
        MetaEventView::Marker(s) => encode_utf8(s),
        MetaEventView::CuePoint(b) => b,
        MetaEventView::MidiChannelPrefix(c) => seq![c],
        MetaEventView::EndOfTrack => Seq::empty(),
        MetaEventView::Tempo(t) => tempo_bytes(t),
        MetaEventView::SmpteOffset(o) => smpte_offset_bytes(o),
        MetaEventView::TimeSignature(t) => time_signature_bytes(t),
        MetaEventView::KeySignature(k) => key_signature_bytes(k),
        MetaEventView::SequencerSpecific(b) => b,
        MetaEventView::UnknownRaw(_, b) => b,
    }
}

/// The wire bytes of a meta event: `0xFF`, tag, VLQ length, payload.
pub open spec fn meta_encode(v: MetaEventView) -> Seq<u8> {
    seq![0xFFu8, meta_tag(v)] + vlq_encode(meta_payload(v).len()) + meta_payload(v)
}

/// Parsing a payload under a given tag.
pub open spec fn meta_tag_parse(tag: u8, data: Seq<u8>) -> Result<MetaEventView, TrackError> {
    if tag == 0x00 {
        if data.len() != 2 {
            Err(TrackError::InvalidMetaEventData)
        } else {
            Ok(MetaEventView::SequenceNumber(((data[0] as int) * 0x100 + data[1] as int) as u16))
        }
    } else if tag == 0x01 || tag == 0x02 || tag == 0x03 || tag == 0x04 || tag == 0x05 || tag
        == 0x06 {
        if valid_utf8(data) {
            let s = decode_utf8(data);
            if tag == 0x01 {
                Ok(MetaEventView::Text(s))
            } else if tag == 0x02 {
                Ok(MetaEventView::Copyright(s))
            } else if tag == 0x03 {
                Ok(MetaEventView::TrackName(s))
            } else if tag == 0x04 {
                Ok(MetaEventView::InstrumentName(s))
            } else if tag == 0x05 {
                Ok(MetaEventView::Lyric(s))
            } else {
                Ok(MetaEventView::Marker(s))
            }
        } else {
            Err(TrackError::UtfParseError)
        }
    } else if tag == 0x07 {
        Ok(MetaEventView::CuePoint(data))
    } else if tag == 0x20 {
        if data.len() != 1 {
            Err(TrackError::InvalidMetaEventData)
        } else {
            Ok(MetaEventView::MidiChannelPrefix(data[0]))
        }
    } else if tag == 0x2F {
        Ok(MetaEventView::EndOfTrack)
    } else if tag == 0x51 {
        if data.len() != 3 {
            Err(TrackError::InvalidMetaEventData)
        } else {
            Ok(
                MetaEventView::Tempo(
                    ((data[0] as int) * 0x10000 + (data[1] as int) * 0x100 + data[2] as int) as u32,
                ),
            )
        }
    } else if tag == 0x54 {
        if data.len() != 5 {
            Err(TrackError::InvalidMetaEventData)
        } else {
            Ok(
                MetaEventView::SmpteOffset(
                    SmpteOffset {
                        hours: data[0],
                        minutes: data[1],
                        seconds: data[2],
                        frames: data[3],
                        subframes: data[4],
                    },
                ),
            )
        }
    } else if tag == 0x58 {
        if data.len() != 4 {
            Err(TrackError::InvalidMetaEventData)
        } else if data[1] >= 32 {
            Err(TrackError::InvalidMetaEventData)
        } else {
            Ok(
                MetaEventView::TimeSignature(
                    TimeSignature {
                        numerator: data[0],
                        denominator: pow2(data[1] as nat) as u32,
                        clocks_per_tick: data[2],
                        thirty_second_notes_per_quarter: data[3],
                    },
                ),
            )
        }
    } else if tag == 0x59 {
        if data.len() != 2 {
            Err(TrackError::InvalidMetaEventData)
        } else {
            Ok(
                MetaEventView::KeySignature(
                    KeySignature { sharps_flats: byte_i8(data[0]), major_minor: data[1] != 0 },
                ),
            )
        }
    } else if tag == 0x7F {
        Ok(MetaEventView::SequencerSpecific(data))
    } else {
        Ok(MetaEventView::UnknownRaw(tag, data))
    }
}

/// Decoding a meta event from the front of `s`: the event and how many bytes
/// it consumed, or the error the bytes force.  The payload is truncated to
/// the available bytes when the stated length overshoots them.
pub open spec fn meta_scan(s: Seq<u8>) -> Result<(MetaEventView, nat), TrackError> {
    if s.len() == 0 {
        Err(TrackError::OutOfSpace)
    } else if s[0] != 0xFF {
        Err(TrackError::InvalidMetaEventData)
    } else if s.len() == 1 {
        Err(TrackError::OutOfSpace)
    } else {
        let tag = s[1];
        let rest = s.skip(2);
        if rest.len() == 0 {
            Err(TrackError::OutOfSpace)
        } else {
            let scan = vlq_scan(rest, 0);
            let avail = rest.skip(scan.1 as int);
            let data = avail.take(capped_len(scan.0 as int, avail.len() as int));
            match meta_tag_parse(tag, data) {
                Ok(v) => Ok((v, (2 + scan.1 + data.len()) as nat)),
                Err(e) => Err(e),
            }
        }
    }
}

/// A meta event that re-encodes to the exact bytes it was decoded from: the
/// payload fits a 32-bit length, a tempo fits 24 bits, a time signature
/// denominator is the power of two its exponent stores, and an unknown tag
/// is none of the recognized ones.
pub open spec fn meta_wf(v: MetaEventView) -> bool {
    meta_payload(v).len() < 0x100000000 && match v {
        MetaEventView::Tempo(t) => t < 0x1000000,
        MetaEventView::TimeSignature(t) => t.denominator as nat == pow2(
            log2floor(t.denominator as nat),
        ),
        MetaEventView::UnknownRaw(tag, _) => !known_meta_tag(tag),
        _ => true,
    }
}

/// Relies on `String::from_utf8`: `Ok` exactly on valid UTF-8 input, and the
/// returned string's UTF-8 bytes are that input.
#[verifier::external_body]
fn vec_to_string(v: Vec<u8>) -> (r: Option<String>)
    ensures
        match r {
            Some(s) => valid_utf8(v@) && encode_utf8(s@) == v@,
            None => !valid_utf8(v@),
        },
{
    match String::from_utf8(v) {
        Ok(s) => Some(s),
        Err(_) => None,
    }
}

/// `2^e` for an exponent below 32.
fn pow2_u32(e: u8) -> (r: u32)
    requires
        e < 32,
    ensures
        r as nat == pow2(e as nat),
{
    proof {
        lemma2_to64();
    }
    let mut r: u32 = 1;
    let mut i: u8 = 0;
    while i < e
        invariant
            i <= e,
            e < 32,
            r as nat == pow2(i as nat),
        decreases e - i,
    {
        proof {
            lemma2_to64();
            if (i as nat) < 31 {
                lemma_pow2_strictly_increases(i as nat, 31);
            }
            assert(pow2(31) == 0x80000000);
            assert(pow2((i + 1) as nat) == 2 * pow2(i as nat)) by {
                vstd::arithmetic::power2::lemma_pow2_unfold((i + 1) as nat);
            }
        }
        r = r * 2;
        i = i + 1;
    }
    r
}

/// The exponent of the largest power of two at most `d`.
fn log2_u32(d: u32) -> (r: u8)
    ensures
        r as nat == log2floor(d as nat),
        r < 32,
{
    proof {
        lemma2_to64();
    }
    let mut x: u32 = d;
    let mut e: u8 = 0;
    while x > 1
        invariant
            log2floor(d as nat) == e as nat + log2floor(x as nat),
            x >= 1 ==> pow2(e as nat) * x as nat <= d as nat,
            x == d || x < d,
            d > 0 ==> x >= 1,
            e < 32,
        decreases x,
    {
        proof {
            lemma2_to64();
            assert(pow2((e + 1) as nat) == 2 * pow2(e as nat)) by {
                vstd::arithmetic::power2::lemma_pow2_unfold((e + 1) as nat);
            }
            assert(pow2((e + 1) as nat) * ((x / 2) as nat) <= pow2(e as nat) * (x as nat))
                by (nonlinear_arith)
                requires
                    pow2((e + 1) as nat) == 2 * pow2(e as nat),
                    x >= 1;
            // The exponent stays below 32: 2^e * x <= d < 2^32 and x >= 2.
            assert(pow2(e as nat) * 2 <= pow2(e as nat) * (x as nat)) by (nonlinear_arith)
                requires
                    x >= 2;
            if e as nat + 1 >= 32 {
                assert(e as nat == 31);
                lemma_pow2_strictly_increases(31, 32);
                assert(pow2(32) == 0x100000000);
                assert(false);
            }
        }
        x = x / 2;
        e = e + 1;
    }
    e
}

impl MetaEvent {
    /// Returns the specific event's tag
    pub fn get_tag(&self) -> (r: u8)
        ensures
            r == meta_tag(self@),
    {
        match self {
            Self::SequenceNumber(_) => 0x00,
            Self::Text(_) => 0x01,
            Self::Copyright(_) => 0x02,
            Self::TrackName(_) => 0x03,
            Self::InstrumentName(_) => 0x04,
            Self::Lyric(_) => 0x05,
            Self::Marker(_) => 0x06,
            Self::CuePoint(_) => 0x07,
            Self::MidiChannelPrefix(_) => 0x20,
            Self::EndOfTrack => 0x2F,
            Self::Tempo(_) => 0x51,
            Self::SmpteOffset(_) => 0x54,
            Self::TimeSignature(_) => 0x58,
            Self::KeySignature(_) => 0x59,
            Self::SequencerSpecific(_) => 0x7F,
            Self::UnknownRaw(tag, _) => *tag,
        }
    }

    /// Decodes one meta event from the cursor: `0xFF`, tag, VLQ payload
    /// length, then up to that many payload bytes.
    pub fn try_from(cursor: &mut ByteCursor) -> (r: Result<MetaEvent, TrackError>)
        ensures
            ({
                let scan = meta_scan(old(cursor).remaining());
                match scan {
                    Ok((v, n)) => match r {
                        Ok(ev) => ev@ == v && final(cursor).remaining() == old(
                            cursor,
                        ).remaining().skip(n as int),
                        Err(_) => false,
                    },
                    Err(e) => r == Err::<MetaEvent, TrackError>(e),
                }
            }),
    {
        let ghost rem = cursor.remaining();
        let prefix = match cursor.take_one() {
            Some(b) => b,
            None => {
                return Err(TrackError::OutOfSpace);
            },
        };
        if prefix != 0xFF {
            return Err(TrackError::InvalidMetaEventData);
        }
        let event_tag = match cursor.take_one() {
            Some(b) => b,
            None => {
                return Err(TrackError::OutOfSpace);
            },
        };
        proof {
            assert(rem[1] == rem.skip(1)[0]);
            assert(rem.skip(1).skip(1) =~= rem.skip(2));
        }
        let ghost rest = rem.skip(2);
        let length = match vlq_read(cursor) {
            Some(l) => l,
            None => {
                return Err(TrackError::OutOfSpace);
            },
        };
        let ghost lscan = vlq_scan(rest, 0);
        let ghost avail = rest.skip(lscan.1 as int);
        let data = cursor.take_n(length as usize);
        proof {
            super::lemma_vlq_scan_len(rest, 0);
            assert(data@ == avail.take(capped_len(lscan.0 as int, avail.len() as int)));
            assert(cursor.remaining() =~= rem.skip((2 + lscan.1 + data@.len()) as int));
        }
        let ghost consumed = (2 + lscan.1 + data@.len()) as nat;

        if event_tag == 0x00 {
            if data.len() != 2 {
                return Err(TrackError::InvalidMetaEventData);
            }
            let value: u16 = (data[0] as u16) * 0x100 + (data[1] as u16);
            Ok(MetaEvent::SequenceNumber(value))
        } else if event_tag == 0x01 || event_tag == 0x02 || event_tag == 0x03 || event_tag == 0x04
            || event_tag == 0x05 || event_tag == 0x06 {
            let ghost data0 = data@;
            let s = match vec_to_string(data) {
                Some(s) => s,
                None => {
                    return Err(TrackError::UtfParseError);
                },
            };
            proof {
                vstd::utf8::encode_utf8_decode_utf8(s@);
                assert(s@ == decode_utf8(data0));
            }
            if event_tag == 0x01 {
                Ok(MetaEvent::Text(s))
            } else if event_tag == 0x02 {
                Ok(MetaEvent::Copyright(s))
            } else if event_tag == 0x03 {
                Ok(MetaEvent::TrackName(s))
            } else if event_tag == 0x04 {
                Ok(MetaEvent::InstrumentName(s))
            } else if event_tag == 0x05 {
                Ok(MetaEvent::Lyric(s))
            } else {
                Ok(MetaEvent::Marker(s))
            }
        } else if event_tag == 0x07 {
            Ok(MetaEvent::CuePoint(data))
        } else if event_tag == 0x20 {
            if data.len() != 1 {
                return Err(TrackError::InvalidMetaEventData);
            }
            Ok(MetaEvent::MidiChannelPrefix(data[0]))
        } else if event_tag == 0x2F {
            Ok(MetaEvent::EndOfTrack)
        } else if event_tag == 0x51 {
            if data.len() != 3 {
                return Err(TrackError::InvalidMetaEventData);
            }
            let value: u32 = (data[0] as u32) * 0x10000 + (data[1] as u32) * 0x100 + (
            data[2] as u32);
            Ok(MetaEvent::Tempo(value))
        } else if event_tag == 0x54 {
            if data.len() != 5 {
                return Err(TrackError::InvalidMetaEventData);
            }
            Ok(
                MetaEvent::SmpteOffset(
                    SmpteOffset {
                        hours: data[0],
                        minutes: data[1],
                        seconds: data[2],
                        frames: data[3],
                        subframes: data[4],
                    },
                ),
            )
        } else if event_tag == 0x58 {
            if data.len() != 4 {
                return Err(TrackError::InvalidMetaEventData);
            }
            if data[1] >= 32 {
                return Err(TrackError::InvalidMetaEventData);
            }
            let denominator = pow2_u32(data[1]);
            Ok(
                MetaEvent::TimeSignature(
                    TimeSignature {
                        numerator: data[0],
                        denominator,
                        clocks_per_tick: data[2],
                        thirty_second_notes_per_quarter: data[3],
                    },
                ),
            )
        } else if event_tag == 0x59 {
            if data.len() != 2 {
                return Err(TrackError::InvalidMetaEventData);
            }
            let b = data[0];
            let sharps_flats: i8 = if b < 128 {
                b as i8
            } else {
                (b as i16 - 0x100) as i8
            };
            let major_minor = data[1] != 0;
            Ok(MetaEvent::KeySignature(KeySignature { sharps_flats, major_minor }))
        } else if event_tag == 0x7F {
            Ok(MetaEvent::SequencerSpecific(data))
        } else {
            Ok(MetaEvent::UnknownRaw(event_tag, data))
        }
    }
}

impl MidiWriteable for KeySignature {
    open spec fn midi_bytes(self) -> Seq<u8> {
        key_signature_bytes(self)
    }

    fn to_midi_bytes(self) -> (r: Vec<u8>) {
        let mut bytes = self.sharps_flats.to_midi_bytes();
        let major_minor_bit: u8 = if self.major_minor {
            1
        } else {
            0
        };
        bytes.push(major_minor_bit);
        proof {
            assert(bytes@ =~= key_signature_bytes(self));
        }
        bytes
    }
}

impl MidiWriteable for SmpteOffset {
    open spec fn midi_bytes(self) -> Seq<u8> {
        smpte_offset_bytes(self)
    }

    fn to_midi_bytes(self) -> (r: Vec<u8>) {
        let r = vec![self.hours, self.minutes, self.seconds, self.frames, self.subframes];
        proof {
            assert(r@ =~= smpte_offset_bytes(self));
        }
        r
    }
}

impl MidiWriteable for TimeSignature {
    open spec fn midi_bytes(self) -> Seq<u8> {
        time_signature_bytes(self)
    }

    fn to_midi_bytes(self) -> (r: Vec<u8>) {
        let exponent = log2_u32(self.denominator);
        let r = vec![
            self.numerator,
            exponent,
            self.clocks_per_tick,
            self.thirty_second_notes_per_quarter,
        ];
        proof {
            assert(r@ =~= time_signature_bytes(self));
        }
        r
    }
}

impl MidiWriteable for MetaEvent {
    open spec fn midi_bytes(self) -> Seq<u8> {
        meta_encode(self@)
    }

    fn to_midi_bytes(self) -> (r: Vec<u8>) {
        let tag_byte = self.get_tag();
        let mut bytes = vec![0xFFu8, tag_byte];

        let mut payload_bytes: Vec<u8> = match self {
            Self::SequenceNumber(val) => val.to_midi_bytes(),
            Self::Text(val) => val.to_midi_bytes(),
            Self::Copyright(val) => val.to_midi_bytes(),
            Self::TrackName(val) => val.to_midi_bytes(),
            Self::InstrumentName(val) => val.to_midi_bytes(),
            Self::Lyric(val) => val.to_midi_bytes(),
            Self::Marker(val) => val.to_midi_bytes(),
            Self::CuePoint(val) => val,
            Self::MidiChannelPrefix(val) => {
                let r = vec![val];
                r
            },
            Self::EndOfTrack => Vec::new(),
            Self::Tempo(val) => {
                let r = vec![
                    ((val / 0x10000) % 0x100) as u8,
                    ((val / 0x100) % 0x100) as u8,
                    (val % 0x100) as u8,
                ];
                r
            },
            Self::SmpteOffset(val) => val.to_midi_bytes(),
            Self::TimeSignature(val) => val.to_midi_bytes(),
            Self::KeySignature(val) => val.to_midi_bytes(),
            Self::SequencerSpecific(val) => val,
            Self::UnknownRaw(_, val) => val,
        };
        proof {
            assert(payload_bytes@ == meta_payload(self@));
        }
        let mut len_vlq = vlq_emit(payload_bytes.len() as u64);
        bytes.append(&mut len_vlq);
        bytes.append(&mut payload_bytes);
        proof {
            assert(bytes@ =~= meta_encode(self@));
        }
        bytes
    }
}

/// `pow2(log2floor(n))` is at most `n` for positive `n`.
proof fn lemma_log2floor_le(n: nat)
    requires
        n >= 1,
    ensures
        pow2(log2floor(n)) <= n,
    decreases n,
{
    if n <= 1 {
        lemma2_to64();
    } else {
        lemma_log2floor_le(n / 2);
        assert(pow2(log2floor(n)) == 2 * pow2(log2floor(n / 2))) by {
            vstd::arithmetic::power2::lemma_pow2_unfold(log2floor(n));
        }
    }
}

/// Meta event round trip, for every tag: decoding the encoding of a
/// well-formed event, followed by anything, gives the event back and
/// consumes exactly its bytes.  In particular an unknown tag's raw payload
/// is preserved losslessly.
pub proof fn lemma_meta_round_trip(v: MetaEventView, rest: Seq<u8>)
    requires
        meta_wf(v),
    ensures
        meta_scan(meta_encode(v) + rest) == Ok::<(MetaEventView, nat), TrackError>(
            (v, meta_encode(v).len()),
        ),
{
    let payload = meta_payload(v);
    let tag = meta_tag(v);
    let lenc = vlq_encode(payload.len());
    let s = meta_encode(v) + rest;
    super::lemma_vlq_round_trip_nat(payload.len(), payload + rest);
    assert(s[0] == 0xFF);
    assert(s[1] == tag);
    assert(s.len() >= 2 + lenc.len());
    let srest = s.skip(2);
    assert(srest =~= lenc + (payload + rest));
    assert(srest.len() > 0);
    let scan = vlq_scan(srest, 0);
    assert(scan == (payload.len() as u32, lenc.len()));
    let avail = srest.skip(lenc.len() as int);
    assert(avail =~= payload + rest);
    assert(capped_len(payload.len() as int, avail.len() as int) == payload.len());
    let data = avail.take(payload.len() as int);
    assert(data =~= payload);
    assert((2 + scan.1 + data.len()) as nat == meta_encode(v).len());
    // The payload parses back to the event, tag by tag.
    match v {
        MetaEventView::SequenceNumber(n) => {
            assert(payload.len() == 2);
            assert(((payload[0] as int) * 0x100 + payload[1] as int) as u16 == n);
        },
        MetaEventView::Text(txt) => {
            vstd::utf8::encode_utf8_valid_utf8(txt);
            vstd::utf8::encode_utf8_decode_utf8(txt);
        },
        MetaEventView::Copyright(txt) => {
            vstd::utf8::encode_utf8_valid_utf8(txt);
            vstd::utf8::encode_utf8_decode_utf8(txt);
        },
        MetaEventView::TrackName(txt) => {
            vstd::utf8::encode_utf8_valid_utf8(txt);
            vstd::utf8::encode_utf8_decode_utf8(txt);
        },
        MetaEventView::InstrumentName(txt) => {
            vstd::utf8::encode_utf8_valid_utf8(txt);
            vstd::utf8::encode_utf8_decode_utf8(txt);
        },
        MetaEventView::Lyric(txt) => {
            vstd::utf8::encode_utf8_valid_utf8(txt);
            vstd::utf8::encode_utf8_decode_utf8(txt);
        },
        MetaEventView::Marker(txt) => {
            vstd::utf8::encode_utf8_valid_utf8(txt);
            vstd::utf8::encode_utf8_decode_utf8(txt);
        },
        MetaEventView::CuePoint(_) => {},
        MetaEventView::MidiChannelPrefix(_) => {},
        MetaEventView::EndOfTrack => {},
        MetaEventView::Tempo(t) => {
            assert(payload.len() == 3);
            assert(((payload[0] as int) * 0x10000 + (payload[1] as int) * 0x100
                + payload[2] as int) as u32 == t);
        },
        MetaEventView::SmpteOffset(_) => {},
        MetaEventView::TimeSignature(t) => {
            assert(payload.len() == 4);
            if t.denominator >= 1 {
                lemma_log2floor_le(t.denominator as nat);
                if log2floor(t.denominator as nat) > 32 {
                    lemma_pow2_strictly_increases(32, log2floor(t.denominator as nat));
                    lemma2_to64();
                    assert(false);
                } else if log2floor(t.denominator as nat) == 32 {
                    lemma2_to64();
                    assert(false);
                }
            } else {
                assert(t.denominator as nat != pow2(log2floor(t.denominator as nat))) by {
                    vstd::arithmetic::power2::lemma_pow2_pos(log2floor(t.denominator as nat));
                }
            }
            assert(payload[1] == log2floor(t.denominator as nat) as u8);
            assert(payload[1] < 32);
            assert(pow2(payload[1] as nat) as u32 == t.denominator);
        },
        MetaEventView::KeySignature(k) => {
            assert(payload.len() == 2);
            assert(byte_i8(i8_byte(k.sharps_flats)) == k.sharps_flats);
            if k.major_minor {
                assert(payload[1] == 1);
            } else {
                assert(payload[1] == 0);
            }
        },
        MetaEventView::SequencerSpecific(_) => {},
        MetaEventView::UnknownRaw(t, _) => {
            assert(!known_meta_tag(t));
        },
    }
    match meta_tag_parse(tag, data) {
        Ok(v2) => {
            assert(v2 =~= v);
        },
        Err(_) => {
            assert(false);
        },
    }
}

} // verus!
