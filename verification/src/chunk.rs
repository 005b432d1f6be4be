//! Chunk Definitions for parsed types and type headers
//!
//! A top-level chunk is routed by its 4-character type identifier: `MThd`
//! parses as a header, `MTrk` as a track, and anything else is refused.
//! `parsed_chunk_scan` specifies the routing and parsing of a (frame,
//! payload) pair.

use crate::writer::{be32_bytes, char_byte, MidiWriteable};
use crate::Chunk;
use vstd::prelude::*;

pub mod chunk_types;
pub mod header;
pub mod track;

use chunk_types::{header_type_chars, track_type_chars, HEADER_CHUNK, TRACK_DATA_CHUNK};
use header::{division_wf, header_bytes, header_parse, HeaderChunk, InvalidFormat};
use track::{event_wf, track_encode, track_scan, MTrkEventView, TrackChunk, TrackError};

verus! {

/// Represents a parsed MIDI Chunk with its associated data.
/// A parsed chunk is classified based on its type, such as header or track.
#[derive(Debug, Clone, PartialEq, Eq)]
pub enum ParsedChunk {
    /// A header chunk
    Header(HeaderChunk),
    /// A track chunk
    Track(TrackChunk),
}

/// The mathematical content of a parsed chunk.
#[verifier::ext_equal]
pub enum ParsedChunkView {
    /// A header chunk
    Header(HeaderChunk),
    /// A track chunk, as its event sequence
    Track(Seq<MTrkEventView>),
}

impl View for ParsedChunk {
    type V = ParsedChunkView;

    open spec fn view(&self) -> ParsedChunkView {
        match self {
            ParsedChunk::Header(h) => ParsedChunkView::Header(*h),
            ParsedChunk::Track(t) => ParsedChunkView::Track(t@),
        }
    }
}

/// Error type for attempting to parse from a raw chunk to a parsed one
#[derive(Debug, Clone, Copy, PartialEq, Eq, Structural)]
pub enum ChunkParseError {
    /// Invalid format in parsing a header
    InvalidFormat(InvalidFormat),
    /// Type tag is not registered
    UnknownType,
    /// Error parsing track
    TrackParseError(TrackError),
}

impl From<InvalidFormat> for ChunkParseError {
    fn from(f: InvalidFormat) -> (r: Self) {
        Self::InvalidFormat(f)
    }
}

impl vstd::std_specs::convert::FromSpecImpl<InvalidFormat> for ChunkParseError {
    open spec fn obeys_from_spec() -> bool {
        true
    }

    open spec fn from_spec(f: InvalidFormat) -> Self {
        ChunkParseError::InvalidFormat(f)
    }
}

impl From<TrackError> for ChunkParseError {
    fn from(f: TrackError) -> (r: Self) {
        Self::TrackParseError(f)
    }
}

impl vstd::std_specs::convert::FromSpecImpl<TrackError> for ChunkParseError {
    open spec fn obeys_from_spec() -> bool {
        true
    }

    open spec fn from_spec(f: TrackError) -> Self {
        ChunkParseError::TrackParseError(f)
    }
}

/// The value of two big-endian bytes.
pub open spec fn be16_val(a: u8, b: u8) -> u16 {
    ((a as int) * 0x100 + b as int) as u16
}

/// Parsing a (frame, payload) pair into a typed chunk: `MThd` frames carry a
/// 6-byte header payload; `MTrk` frames carry a track payload; any other
/// type identifier is unknown.
pub open spec fn parsed_chunk_scan(type_chars: Seq<char>, length: u32, data: Seq<u8>) -> Result<
    ParsedChunkView,
    ChunkParseError,
> {
    if type_chars == header_type_chars() {
        if length == 6 && data.len() == 6 {
            match header_parse(
                be16_val(data[0], data[1]),
                be16_val(data[2], data[3]),
                be16_val(data[4], data[5]),
            ) {
                Ok(h) => Ok(ParsedChunkView::Header(h)),
                Err(_) => Err(ChunkParseError::InvalidFormat(InvalidFormat)),
            }
        } else {
            Err(ChunkParseError::InvalidFormat(InvalidFormat))
        }
    } else if type_chars == track_type_chars() {
        match track_scan(data) {
            Ok(vs) => Ok(ParsedChunkView::Track(vs)),
            Err(e) => Err(ChunkParseError::TrackParseError(e)),
        }
    } else {
        Err(ChunkParseError::UnknownType)
    }
}

/// The payload bytes a parsed chunk re-encodes to.
pub open spec fn parsed_chunk_payload(v: ParsedChunkView) -> Seq<u8> {
    match v {
        ParsedChunkView::Header(h) => header_bytes(h),
        ParsedChunkView::Track(vs) => track_encode(vs),
    }
}

/// The type identifier a parsed chunk re-encodes under.
pub open spec fn parsed_chunk_type(v: ParsedChunkView) -> Seq<char> {
    match v {
        ParsedChunkView::Header(_) => header_type_chars(),
        ParsedChunkView::Track(_) => track_type_chars(),
    }
}

/// The frame length a parsed chunk re-encodes with: its payload length,
/// reduced to 32 bits.
pub open spec fn parsed_chunk_length(v: ParsedChunkView) -> u32 {
    (parsed_chunk_payload(v).len() % 0x100000000) as u32
}

/// The full wire bytes of a parsed chunk: frame, then payload.
pub open spec fn parsed_chunk_bytes(v: ParsedChunkView) -> Seq<u8> {
    seq![
        char_byte(parsed_chunk_type(v)[0]),
        char_byte(parsed_chunk_type(v)[1]),
        char_byte(parsed_chunk_type(v)[2]),
        char_byte(parsed_chunk_type(v)[3]),
    ] + be32_bytes(parsed_chunk_length(v)) + parsed_chunk_payload(v)
}

impl ParsedChunk {
    /// Parses a raw (frame, payload) pair, routing on the type identifier.
    pub fn try_from(value: (Chunk, Vec<u8>)) -> (r: Result<ParsedChunk, ChunkParseError>)
        ensures
            ({
                let scan = parsed_chunk_scan(value.0.chunk_type@, value.0.length, value.1@);
                match scan {
                    Ok(v) => match r {
                        Ok(p) => p@ == v,
                        Err(_) => false,
                    },
                    Err(e) => r == Err::<ParsedChunk, ChunkParseError>(e),
                }
            }),
    {
        let (chunk, data) = value;
        let t = chunk.chunk_type;
        proof {
            assert(t@.len() == 4);
            assert(header_type_chars().len() == 4);
            assert(track_type_chars().len() == 4);
        }
        let is_header = t[0] == 'M' && t[1] == 'T' && t[2] == 'h' && t[3] == 'd';
        let is_track = t[0] == 'M' && t[1] == 'T' && t[2] == 'r' && t[3] == 'k';
        if is_header {
            proof {
                assert(t@ =~= header_type_chars());
            }
            if chunk.len() == 6 && data.len() == 6 {
                let format = (data[0] as u16) * 0x100 + (data[1] as u16);
                let ntrk = (data[2] as u16) * 0x100 + (data[3] as u16);
                let division = (data[4] as u16) * 0x100 + (data[5] as u16);
                match HeaderChunk::try_from((format, ntrk, division)) {
                    Ok(parsed) => Ok(ParsedChunk::Header(parsed)),
                    Err(_) => Err(ChunkParseError::InvalidFormat(InvalidFormat)),
                }
            } else {
                Err(ChunkParseError::InvalidFormat(InvalidFormat))
            }
        } else if is_track {
            proof {
                assert(t@ =~= track_type_chars());
                assert(t@ != header_type_chars());
            }
            match TrackChunk::try_from(data) {
                Ok(parsed) => Ok(ParsedChunk::Track(parsed)),
                Err(e) => Err(ChunkParseError::TrackParseError(e)),
            }
        } else {
            proof {
                if t@ == header_type_chars() {
                    assert(t[0] == 'M' && t[1] == 'T' && t[2] == 'h' && t[3] == 'd');
                }
                if t@ == track_type_chars() {
                    assert(t[0] == 'M' && t[1] == 'T' && t[2] == 'r' && t[3] == 'k');
                }
            }
            Err(ChunkParseError::UnknownType)
        }
    }

    /// Re-frames a parsed chunk as a raw (frame, payload) pair; a track
    /// payload's length is reduced to the frame's 32 bits.
    pub fn into_chunk_pair(self) -> (r: (Chunk, Vec<u8>))
        ensures
            r.0.chunk_type@ == parsed_chunk_type(self@),
            r.0.length == parsed_chunk_length(self@),
            r.1@ == parsed_chunk_payload(self@),
    {
        match self {
            ParsedChunk::Header(h) => {
                let bytes = h.to_midi_bytes();
                proof {
                    match h.division {
                        header::Division::Metrical(_) => {},
                        header::Division::TimeCodeBased(_) => {},
                    }
                    assert(bytes@.len() == 6);
                }
                let chunk = Chunk { chunk_type: HEADER_CHUNK, length: bytes.len() as u32 };
                proof {
                    assert(HEADER_CHUNK@ =~= header_type_chars());
                }
                (chunk, bytes)
            },
            ParsedChunk::Track(t) => {
                let bytes = t.to_midi_bytes();
                let length = ((bytes.len() as u64) % 0x100000000) as u32;
                let chunk = Chunk { chunk_type: TRACK_DATA_CHUNK, length };
                proof {
                    assert(TRACK_DATA_CHUNK@ =~= track_type_chars());
                    assert(length as nat == bytes@.len() % 0x100000000);
                }
                (chunk, bytes)
            },
        }
    }
}

/// A parsed chunk that re-encodes to the exact bytes it was decoded from:
/// its division re-encodes faithfully, its events are well formed, and a
/// track payload fits the frame's 32-bit length.
pub open spec fn parsed_chunk_wf(v: ParsedChunkView) -> bool {
    match v {
        ParsedChunkView::Header(h) => division_wf(h.division),
        ParsedChunkView::Track(vs) => (forall|i: int|
            0 <= i < vs.len() ==> event_wf(#[trigger] vs[i].event)) && track_encode(vs).len()
            < 0x100000000,
    }
}

/// Chunk round trip: routing and parsing the re-encoded frame and payload
/// of a well-formed parsed chunk gives the chunk back.
pub proof fn lemma_parsed_chunk_round_trip(v: ParsedChunkView)
    requires
        parsed_chunk_wf(v),
    ensures
        parsed_chunk_length(v) == parsed_chunk_payload(v).len(),
        parsed_chunk_scan(parsed_chunk_type(v), parsed_chunk_length(v), parsed_chunk_payload(v))
            == Ok::<ParsedChunkView, ChunkParseError>(v),
{
    match v {
        ParsedChunkView::Header(h) => {
            match h.division {
                header::Division::Metrical(_) => {},
                header::Division::TimeCodeBased(_) => {},
            }
            let data = header_bytes(h);
            assert(data.len() == 6);
            header::lemma_header_round_trip(h);
            assert(be16_val(data[0], data[1]) == ((data[0] as int) * 0x100 + data[1] as int) as u16);
        },
        ParsedChunkView::Track(vs) => {
            track::lemma_track_round_trip(vs);
            assert(track_type_chars()[2] != header_type_chars()[2]);
            assert(parsed_chunk_type(v) != header_type_chars());
        },
    }
}

impl MidiWriteable for ParsedChunk {
    open spec fn midi_bytes(self) -> Seq<u8> {
        parsed_chunk_bytes(self@)
    }

    fn to_midi_bytes(self) -> (r: Vec<u8>) {
        let ghost v = self@;
        let pair = self.into_chunk_pair();
        let r = pair.to_midi_bytes();
        proof {
            assert(pair.0.chunk_type[0] == parsed_chunk_type(v)[0]);
            assert(pair.0.chunk_type[1] == parsed_chunk_type(v)[1]);
            assert(pair.0.chunk_type[2] == parsed_chunk_type(v)[2]);
            assert(pair.0.chunk_type[3] == parsed_chunk_type(v)[3]);
            assert(r@ =~= parsed_chunk_bytes(v));
        }
        r
    }
}

} // verus!
