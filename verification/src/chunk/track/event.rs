//! MIDI channel voice messages: status byte parsing and serialization
//!
//! A channel event is a status byte `(kind << 4) | channel` followed by one
//! or two data bytes, depending on the kind.  `status_scan` specifies
//! decoding, `status_encode` the emitted bytes, and
//! `lemma_status_round_trip` proves that decoding an encoding gives the
//! message back.

use super::TrackError;
use crate::cursor::ByteCursor;
use crate::writer::MidiWriteable;
use vstd::prelude::*;

verus! {

/// A MIDI Message Status
#[derive(Debug, Clone, Copy, PartialEq, Eq, Structural)]
pub enum MidiStatus {
    /// Turn Off event, sent when a note is released
    NoteOff(u8, NoteMeta),
    /// Turn On event, sent when a note is depressed
    NoteOn(u8, NoteMeta),
    /// Polyphonic Key Pressure, sent by pressing down a key after it "bottoms out"
    PolyphonicKeyPressure(u8, NoteMeta),
    /// Control change, sent when a controller value (pedal, lever, ...) changes
    ControlChange(u8, ControlChange),
    /// Program change, sent when the patch number changes
    ProgramChange(u8, u8),
    /// Channel Pressure, sent by pressing down on a key after it "bottoms out"
    ChannelPressure(u8, u8),
    /// Pitch Wheel Change, a fourteen bit value sent as two 7-bit bytes
    PitchWheelChange(u8, u16),
}

/// Error type for an unsupported status code
#[derive(Debug, Clone, Copy, PartialEq, Eq, Structural)]
pub struct UnsupportedStatusCode;

/// Metadata for a note's relative info: key and velocity
#[derive(Debug, Clone, Copy, PartialEq, Eq, Structural)]
pub struct NoteMeta {
    /// Note key
    pub key: u8,
    /// Note velocity
    pub velocity: u8,
}

/// Metadata for changing a controller
#[derive(Debug, Clone, Copy, PartialEq, Eq, Structural)]
pub struct ControlChange {
    /// Controller number
    pub controller_number: u8,
    /// New value
    pub new_value: u8,
}

/// The upper nibble of a message's status byte.
pub open spec fn status_kind(s: MidiStatus) -> u8 {
    match s {
        MidiStatus::NoteOff(_, _) => 0x8,
        MidiStatus::NoteOn(_, _) => 0x9,
        MidiStatus::PolyphonicKeyPressure(_, _) => 0xA,
        MidiStatus::ControlChange(_, _) => 0xB,
        MidiStatus::ProgramChange(_, _) => 0xC,
        MidiStatus::ChannelPressure(_, _) => 0xD,
        MidiStatus::PitchWheelChange(_, _) => 0xE,
    }
}

/// The channel a message addresses.
pub open spec fn status_channel(s: MidiStatus) -> u8 {
    match s {
        MidiStatus::NoteOff(c, _) => c,
        MidiStatus::NoteOn(c, _) => c,
        MidiStatus::PolyphonicKeyPressure(c, _) => c,
        MidiStatus::ControlChange(c, _) => c,
        MidiStatus::ProgramChange(c, _) => c,
        MidiStatus::ChannelPressure(c, _) => c,
        MidiStatus::PitchWheelChange(c, _) => c,
    }
}

/// The data bytes that follow a message's status byte.
pub open spec fn status_data_bytes(s: MidiStatus) -> Seq<u8> {
    match s {
        MidiStatus::NoteOff(_, m) => seq![m.key, m.velocity],
        MidiStatus::NoteOn(_, m) => seq![m.key, m.velocity],
        MidiStatus::PolyphonicKeyPressure(_, m) => seq![m.key, m.velocity],
        MidiStatus::ControlChange(_, c) => seq![c.controller_number, c.new_value],
        MidiStatus::ProgramChange(_, p) => seq![p],
        MidiStatus::ChannelPressure(_, p) => seq![p],
        MidiStatus::PitchWheelChange(_, v) => seq![(v % 128) as u8, ((v / 128) % 128) as u8],
    }
}

/// The wire bytes of a channel message: status byte, then data bytes.
pub open spec fn status_encode(s: MidiStatus) -> Seq<u8> {
    seq![(status_kind(s) * 16 + status_channel(s) % 16) as u8] + status_data_bytes(s)
}

/// A channel message that re-encodes to the exact bytes it was decoded from:
/// the channel fits its nibble and a pitch wheel value fits 14 bits.
pub open spec fn status_wf(s: MidiStatus) -> bool {
    status_channel(s) < 16 && match s {
        MidiStatus::PitchWheelChange(_, v) => v < 0x4000,
        _ => true,
    }
}

/// Decoding a channel message from the front of `s`: the result and how many
/// bytes it consumed, or the error the bytes force.
pub open spec fn status_scan(s: Seq<u8>) -> Result<(MidiStatus, nat), TrackError> {
    if s.len() == 0 {
        Err(TrackError::OutOfSpace)
    } else {
        let channel = s[0] % 16;
        let kind = s[0] / 16;
        if kind == 0x8 {
            if s.len() < 3 {
                Err(TrackError::OutOfSpace)
            } else {
                Ok((MidiStatus::NoteOff(channel, NoteMeta { key: s[1], velocity: s[2] }), 3))
            }
        } else if kind == 0x9 {
            if s.len() < 3 {
                Err(TrackError::OutOfSpace)
            } else {
                Ok((MidiStatus::NoteOn(channel, NoteMeta { key: s[1], velocity: s[2] }), 3))
            }
        } else if kind == 0xA {
            if s.len() < 3 {
                Err(TrackError::OutOfSpace)
            } else {
                Ok(
                    (
                        MidiStatus::PolyphonicKeyPressure(
                            channel,
                            NoteMeta { key: s[1], velocity: s[2] },
                        ),
                        3,
                    ),
                )
            }
        } else if kind == 0xB {
            if s.len() < 3 {
                Err(TrackError::OutOfSpace)
            } else {
                Ok(
                    (
                        MidiStatus::ControlChange(
                            channel,
                            ControlChange { controller_number: s[1], new_value: s[2] },
                        ),
                        3,
                    ),
                )
            }
        } else if kind == 0xC {
            if s.len() < 2 {
                Err(TrackError::OutOfSpace)
            } else {
                Ok((MidiStatus::ProgramChange(channel, s[1]), 2))
            }
        } else if kind == 0xD {
            if s.len() < 2 {
                Err(TrackError::OutOfSpace)
            } else {
                Ok((MidiStatus::ChannelPressure(channel, s[1]), 2))
            }
        } else if kind == 0xE {
            if s.len() < 3 {
                Err(TrackError::OutOfSpace)
            } else {
                Ok(
                    (
                        MidiStatus::PitchWheelChange(
                            channel,
                            ((s[2] % 128) as u16 * 128 + (s[1] % 128) as u16) as u16,
                        ),
                        3,
                    ),
                )
            }
        } else {
            Err(TrackError::UnsupportedStatusCode(UnsupportedStatusCode))
        }
    }
}

impl MidiStatus {
    /// Decodes one channel message from the cursor, consuming the status
    /// byte and the data bytes the status calls for.
    pub fn try_from(cursor: &mut ByteCursor) -> (r: Result<MidiStatus, TrackError>)
        ensures
            ({
                let scan = status_scan(old(cursor).remaining());
                match scan {
                    Ok((ev, n)) => r == Ok::<MidiStatus, TrackError>(ev)
                        && final(cursor).remaining() == old(cursor).remaining().skip(n as int),
                    Err(e) => r == Err::<MidiStatus, TrackError>(e),
                }
            }),
    {
        let ghost rem = cursor.remaining();
        let status = match cursor.take_one() {
            Some(b) => b,
            None => {
                return Err(TrackError::OutOfSpace);
            },
        };
        let channel = status % 16;
        let kind = status / 16;

        if kind == 0x8 || kind == 0x9 || kind == 0xA || kind == 0xB {
            let reads = cursor.take_n(2);
            if reads.len() != 2 {
                return Err(TrackError::OutOfSpace);
            }
            proof {
                assert(rem[1] == rem.skip(1)[0]);
                assert(rem[2] == rem.skip(1)[1]);
                assert(rem.skip(1).skip(2) =~= rem.skip(3));
            }
            let a = reads[0];
            let b = reads[1];
            if kind == 0x8 {
                Ok(MidiStatus::NoteOff(channel, NoteMeta { key: a, velocity: b }))
            } else if kind == 0x9 {
                Ok(MidiStatus::NoteOn(channel, NoteMeta { key: a, velocity: b }))
            } else if kind == 0xA {
                Ok(MidiStatus::PolyphonicKeyPressure(channel, NoteMeta { key: a, velocity: b }))
            } else {
                Ok(
                    MidiStatus::ControlChange(
                        channel,
                        ControlChange { controller_number: a, new_value: b },
                    ),
                )
            }
        } else if kind == 0xC || kind == 0xD {
            let reads = cursor.take_n(1);
            if reads.len() != 1 {
                return Err(TrackError::OutOfSpace);
            }
            proof {
                assert(rem[1] == rem.skip(1)[0]);
                assert(rem.skip(1).skip(1) =~= rem.skip(2));
            }
            let a = reads[0];
            if kind == 0xC {
                Ok(MidiStatus::ProgramChange(channel, a))
            } else {
                Ok(MidiStatus::ChannelPressure(channel, a))
            }
        } else if kind == 0xE {
            let reads = cursor.take_n(2);
            if reads.len() != 2 {
                return Err(TrackError::OutOfSpace);
            }
            proof {
                assert(rem[1] == rem.skip(1)[0]);
                assert(rem[2] == rem.skip(1)[1]);
                assert(rem.skip(1).skip(2) =~= rem.skip(3));
            }
            let low = reads[0] % 128;
            let high = reads[1] % 128;
            let value: u16 = (high as u16) * 128 + (low as u16);
            Ok(MidiStatus::PitchWheelChange(channel, value))
        } else {
            Err(TrackError::UnsupportedStatusCode(UnsupportedStatusCode))
        }
    }
}

impl MidiWriteable for MidiStatus {
    open spec fn midi_bytes(self) -> Seq<u8> {
        status_encode(self)
    }

    fn to_midi_bytes(self) -> (r: Vec<u8>) {
        let kind: u8 = match self {
            MidiStatus::NoteOff(_, _) => 0x8,
            MidiStatus::NoteOn(_, _) => 0x9,
            MidiStatus::PolyphonicKeyPressure(_, _) => 0xA,
            MidiStatus::ControlChange(_, _) => 0xB,
            MidiStatus::ProgramChange(_, _) => 0xC,
            MidiStatus::ChannelPressure(_, _) => 0xD,
            MidiStatus::PitchWheelChange(_, _) => 0xE,
        };
        let channel: u8 = match self {
            MidiStatus::NoteOff(c, _) => c,
            MidiStatus::NoteOn(c, _) => c,
            MidiStatus::PolyphonicKeyPressure(c, _) => c,
            MidiStatus::ControlChange(c, _) => c,
            MidiStatus::ProgramChange(c, _) => c,
            MidiStatus::ChannelPressure(c, _) => c,
            MidiStatus::PitchWheelChange(c, _) => c,
        };
        let status_byte: u8 = kind * 16 + channel % 16;
        let mut r = vec![status_byte];
        match self {
            MidiStatus::NoteOff(_, m) => {
                r.push(m.key);
                r.push(m.velocity);
            },
            MidiStatus::NoteOn(_, m) => {
                r.push(m.key);
                r.push(m.velocity);
            },
            MidiStatus::PolyphonicKeyPressure(_, m) => {
                r.push(m.key);
                r.push(m.velocity);
            },
            MidiStatus::ControlChange(_, c) => {
                r.push(c.controller_number);
                r.push(c.new_value);
            },
            MidiStatus::ProgramChange(_, p) => {
                r.push(p);
            },
            MidiStatus::ChannelPressure(_, p) => {
                r.push(p);
            },
            MidiStatus::PitchWheelChange(_, v) => {
                r.push((v % 128) as u8);
                r.push(((v / 128) % 128) as u8);
            },
        }
        proof {
            assert(r@ =~= status_encode(self));
        }
        r
    }
}

/// Channel message round trip: decoding the encoding of a well-formed
/// message gives the message back and consumes exactly its bytes.
pub proof fn lemma_status_round_trip(s: MidiStatus, rest: Seq<u8>)
    requires
        status_wf(s),
    ensures
        status_scan(status_encode(s) + rest) == Ok::<(MidiStatus, nat), TrackError>(
            (s, status_encode(s).len()),
        ),
{
    let enc = status_encode(s) + rest;
    assert(enc[0] == (status_kind(s) * 16 + status_channel(s) % 16) as u8);
    assert(enc[0] / 16 == status_kind(s));
    assert(enc[0] % 16 == status_channel(s));
    match s {
        MidiStatus::PitchWheelChange(_, v) => {
            assert(enc[1] == (v % 128) as u8);
            assert(enc[2] == ((v / 128) % 128) as u8);
            assert((v / 128) % 128 == v / 128);
            assert(((enc[2] % 128) as u16 * 128 + (enc[1] % 128) as u16) as u16 == v);
        },
        _ => {},
    }
}

} // verus!
