//! Chunk type constants

use vstd::prelude::*;

verus! {

/// MIDI header chunk type, the ASCII characters `MThd`
pub const HEADER_CHUNK: [char; 4] = ['M', 'T', 'h', 'd'];

/// MIDI track data chunk type, the ASCII characters `MTrk`
pub const TRACK_DATA_CHUNK: [char; 4] = ['M', 'T', 'r', 'k'];

/// The header chunk type as a character sequence.
pub open spec fn header_type_chars() -> Seq<char> {
    seq!['M', 'T', 'h', 'd']
}

/// The track data chunk type as a character sequence.
pub open spec fn track_type_chars() -> Seq<char> {
    seq!['M', 'T', 'r', 'k']
}

} // verus!
