//! Header Chunk Enum and Struct Definitions
//!
//! The header payload is three big-endian 16-bit fields: format, track
//! count, and division.  `header_parse` specifies parsing the fields,
//! `header_bytes` the emitted 6-byte payload.

use crate::writer::{be16_bytes, i8_byte, MidiWriteable};
use vstd::prelude::*;

verus! {

/// Header chunk data, including format, ntrks and division as 3 16 bit unsigned integers
#[derive(Debug, Clone, Copy, PartialEq, Eq, Structural)]
pub struct HeaderChunk {
    /// The MIDI format
    pub format: Format,
    /// Number of tracks
    pub ntrks: u16,
    /// Time signature/division
    pub division: Division,
}

/// The overall organization of the MIDI file. Only three values are valid,
/// making most of the 16 bits irrelevant
#[derive(Debug, Clone, Copy, PartialEq, Eq, Structural)]
pub enum Format {
    /// The file contains a single multi-channel track
    Zero,
    /// The file contains one or more simultaneous tracks (or MIDI outputs) of a sequence
    One,
    /// The file contains one or more sequentially independent single-track patterns
    Two,
}

/// Error struct representing an invalid format specifier
#[derive(Debug, Clone, Copy, PartialEq, Eq, Structural)]
pub struct InvalidFormat;

/// The meaning of the delta-times in the MIDI sequence,
#[derive(Debug, Clone, Copy, PartialEq, Eq, Structural)]
pub enum Division {
    /// When bit 15 is a 0, bits 14-0 represent ticks per quarter note
    Metrical(u16),
    /// When bit 15 is 1, bits 14-8 represent the negative SMPTE format,
    /// and bits 7-0 represent ticks per frame
    TimeCodeBased(SmpteTicks),
}

/// Division defined by time-code-based time
#[derive(Debug, Clone, Copy, PartialEq, Eq, Structural)]
pub struct SmpteTicks {
    /// 7 bits of negative timecode
    pub smpte: i8,
    /// 8 bits of ticks per frame
    pub tpf: u8,
}

/// The wire code of a format.
pub open spec fn format_code(f: Format) -> u16 {
    match f {
        Format::Zero => 0,
        Format::One => 1,
        Format::Two => 2,
    }
}

/// Parsing a format field: only 0, 1 and 2 are valid.
pub open spec fn format_parse(value: u16) -> Result<Format, InvalidFormat> {
    if value == 0 {
        Ok(Format::Zero)
    } else if value == 1 {
        Ok(Format::One)
    } else if value == 2 {
        Ok(Format::Two)
    } else {
        Err(InvalidFormat)
    }
}

/// Parsing a division field: bit 15 clear is metrical ticks per quarter
/// note; bit 15 set is the SMPTE form, whose rate byte is sign-extended
/// from its negative-format bit.
pub open spec fn division_of(value: u16) -> Division {
    if value < 0x8000 {
        Division::Metrical(value)
    } else {
        let rem = value % 0x8000;
        let tpf = (rem % 0x100) as u8;
        let raw = rem / 0x100;
        let smpte: i8 = if raw % 16 >= 8 {
            (raw - 128) as i8
        } else {
            raw as i8
        };
        Division::TimeCodeBased(SmpteTicks { smpte, tpf })
    }
}

/// Parsing the three header fields.
pub open spec fn header_parse(format: u16, ntrks: u16, division: u16) -> Result<
    HeaderChunk,
    InvalidFormat,
> {
    match format_parse(format) {
        Ok(f) => Ok(HeaderChunk { format: f, ntrks, division: division_of(division) }),
        Err(e) => Err(e),
    }
}

/// The two bytes a division encodes to.
pub open spec fn division_bytes(d: Division) -> Seq<u8> {
    match d {
        Division::Metrical(m) => be16_bytes(m),
        Division::TimeCodeBased(s) => seq![
            if i8_byte(s.smpte) < 128 {
                (i8_byte(s.smpte) + 128) as u8
            } else {
                i8_byte(s.smpte)
            },
            s.tpf,
        ],
    }
}

/// The 6-byte header payload: format, track count, division.
pub open spec fn header_bytes(h: HeaderChunk) -> Seq<u8> {
    seq![0u8, format_code(h.format) as u8] + be16_bytes(h.ntrks) + division_bytes(h.division)
}

impl Format {
    /// Parses a format field; values other than 0, 1 and 2 are invalid.
    pub fn try_from(value: u16) -> (r: Result<Format, InvalidFormat>)
        ensures
            r == format_parse(value),
    {
        match value {
            0 => Ok(Format::Zero),
            1 => Ok(Format::One),
            2 => Ok(Format::Two),
            _ => Err(InvalidFormat),
        }
    }
}

impl MidiWriteable for Format {
    open spec fn midi_bytes(self) -> Seq<u8> {
        seq![0u8, format_code(self) as u8]
    }

    fn to_midi_bytes(self) -> (r: Vec<u8>) {
        let code: u8 = match self {
            Format::Zero => 0,
            Format::One => 1,
            Format::Two => 2,
        };
        let r = vec![0u8, code];
        proof {
            assert(r@ =~= self.midi_bytes());
        }
        r
    }
}

impl Division {
    /// Parses a division field.
    pub fn from(value: u16) -> (r: Division)
        ensures
            r == division_of(value),
    {
        if value < 0x8000 {
            Division::Metrical(value)
        } else {
            let rem = value % 0x8000;
            let tpf = (rem % 0x100) as u8;
            let raw = rem / 0x100;
            let smpte: i8 = if raw % 16 >= 8 {
                (raw as i16 - 128) as i8
            } else {
                raw as i8
            };
            Division::TimeCodeBased(SmpteTicks { smpte, tpf })
        }
    }
}

impl MidiWriteable for SmpteTicks {
    open spec fn midi_bytes(self) -> Seq<u8> {
        division_bytes(Division::TimeCodeBased(self))
    }

    fn to_midi_bytes(self) -> (r: Vec<u8>) {
        let b: u8 = if self.smpte >= 0 {
            self.smpte as u8
        } else {
            (self.smpte as i16 + 0x100) as u8
        };
        let high: u8 = if b < 128 {
            b + 128
        } else {
            b
        };
        let r = vec![high, self.tpf];
        proof {
            assert(r@ =~= self.midi_bytes());
        }
        r
    }
}

impl MidiWriteable for Division {
    open spec fn midi_bytes(self) -> Seq<u8> {
        division_bytes(self)
    }

    fn to_midi_bytes(self) -> (r: Vec<u8>) {
        match self {
            Self::Metrical(metrical) => metrical.to_midi_bytes(),
            Self::TimeCodeBased(smpte) => smpte.to_midi_bytes(),
        }
    }
}

impl HeaderChunk {
    /// Parses the three header fields: format, track count, division.
    pub fn try_from(value: (u16, u16, u16)) -> (r: Result<HeaderChunk, InvalidFormat>)
        ensures
            r == header_parse(value.0, value.1, value.2),
    {
        let (format, ntrks, division) = value;
        match Format::try_from(format) {
            Ok(f) => Ok(HeaderChunk { format: f, ntrks, division: Division::from(division) }),
            Err(e) => Err(e),
        }
    }
}

impl MidiWriteable for HeaderChunk {
    open spec fn midi_bytes(self) -> Seq<u8> {
        header_bytes(self)
    }

    fn to_midi_bytes(self) -> (r: Vec<u8>) {
        let mut bytes = self.format.to_midi_bytes();
        let mut ntrks = self.ntrks.to_midi_bytes();
        let mut division = self.division.to_midi_bytes();
        bytes.append(&mut ntrks);
        bytes.append(&mut division);
        proof {
            assert(bytes@ =~= header_bytes(self));
        }
        bytes
    }
}

/// Header round trip: re-parsing the three fields read back from a header's
/// 6 encoded bytes gives the header back.
pub proof fn lemma_header_round_trip(h: HeaderChunk)
    requires
        division_wf(h.division),
    ensures
        ({
            let b = header_bytes(h);
            header_parse(
                ((b[0] as int) * 0x100 + b[1] as int) as u16,
                ((b[2] as int) * 0x100 + b[3] as int) as u16,
                ((b[4] as int) * 0x100 + b[5] as int) as u16,
            ) == Ok::<HeaderChunk, InvalidFormat>(h)
        }),
{
    let b = header_bytes(h);
    assert(((b[0] as int) * 0x100 + b[1] as int) as u16 == format_code(h.format));
    assert(((b[2] as int) * 0x100 + b[3] as int) as u16 == h.ntrks);
    let d = ((b[4] as int) * 0x100 + b[5] as int) as u16;
    match h.division {
        Division::Metrical(m) => {
            assert(d == m);
        },
        Division::TimeCodeBased(s) => {
            assert(d >= 0x8000);
            assert(division_of(d) == Division::TimeCodeBased(s));
        },
    }
}

/// A division that re-encodes to the exact bytes it was decoded from: a
/// metrical division fits 15 bits, and an SMPTE rate byte carries the
/// negative-format bit its sign extension came from.
pub open spec fn division_wf(d: Division) -> bool {
    match d {
        Division::Metrical(m) => m < 0x8000,
        Division::TimeCodeBased(s) => (i8_byte(s.smpte) % 16 >= 8) == (i8_byte(s.smpte) >= 128),
    }
}

} // verus!
