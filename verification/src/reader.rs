//! MIDI stream reading traits over in-memory byte sources
//!
//! `MidiStream` yields (chunk frame, payload) pairs off the front of a byte
//! sequence; `chunk_frame_ok` and the trait's contract specify exactly which
//! bytes each pair carries.  The crate's `ByteCursor` implements all of it;
//! other byte sources can implement `MidiReadable` to produce a cursor.

use crate::cursor::ByteCursor;
use crate::Chunk;
use vstd::prelude::*;

verus! {

/// The character whose code point is the given byte: how a chunk type byte
/// is read as ASCII.
pub open spec fn byte_char(b: u8) -> char {
    b as char
}

/// The value of four big-endian bytes.
pub open spec fn be32_val(a: u8, b: u8, c: u8, d: u8) -> u32 {
    ((a as int) * 0x1000000 + (b as int) * 0x10000 + (c as int) * 0x100 + d as int) as u32
}

/// Whether `s` starts with a complete chunk: an 8-byte frame and as many
/// payload bytes as the frame's length field states.
pub open spec fn chunk_frame_ok(s: Seq<u8>) -> bool {
    s.len() >= 8 && s.len() >= 8 + be32_val(s[4], s[5], s[6], s[7])
}

/// Trait that allows a certain number of elements to be yielded at once
/// while advancing the source
pub trait Yieldable<T> {
    /// Gets up to a certain number of elements while advancing the source
    fn get(&mut self, n: usize) -> Vec<T>;
}

impl Yieldable<u8> for ByteCursor {
    fn get(&mut self, n: usize) -> (r: Vec<u8>)
        ensures
            r@.len() == crate::cursor::capped_len(n as int, old(self).remaining().len() as int),
            r@ == old(self).remaining().take(r@.len() as int),
            final(self).remaining() == old(self).remaining().skip(r@.len() as int),
    {
        self.take_n(n)
    }
}

/// Trait for reading sequential chunks from a MIDI stream
pub trait MidiStream: Sized {
    /// The bytes the stream has not yielded yet.
    spec fn stream_rem(&self) -> Seq<u8>;

    /// Reads the next chunk frame and the data associated with it; `None`
    /// when there isn't enough data left for a full frame or its payload.
    fn read_chunk_data_pair(&mut self) -> (r: Option<(Chunk, Vec<u8>)>)
        ensures
            match r {
                Some(pair) => {
                    let s = old(self).stream_rem();
                    &&& chunk_frame_ok(s)
                    &&& pair.0.chunk_type@ == seq![
                        byte_char(s[0]),
                        byte_char(s[1]),
                        byte_char(s[2]),
                        byte_char(s[3]),
                    ]
                    &&& pair.0.length == be32_val(s[4], s[5], s[6], s[7])
                    &&& pair.1@ == s.subrange(8, 8 + pair.0.length as int)
                    &&& final(self).stream_rem() == s.skip(8 + pair.0.length as int)
                },
                None => !chunk_frame_ok(old(self).stream_rem()),
            },
    ;
}

impl MidiStream for ByteCursor {
    open spec fn stream_rem(&self) -> Seq<u8> {
        self.remaining()
    }

    fn read_chunk_data_pair(&mut self) -> (r: Option<(Chunk, Vec<u8>)>) {
        let ghost s = self.remaining();
        let packet = self.take_n(8);
        if packet.len() != 8 {
            return None;
        }
        let chunk = Chunk {
            chunk_type: [
                packet[0] as char,
                packet[1] as char,
                packet[2] as char,
                packet[3] as char,
            ],
            length: (packet[4] as u32) * 0x1000000 + (packet[5] as u32) * 0x10000 + (
            packet[6] as u32) * 0x100 + (packet[7] as u32),
        };
        proof {
            assert(chunk.chunk_type@ =~= seq![
                byte_char(s[0]),
                byte_char(s[1]),
                byte_char(s[2]),
                byte_char(s[3]),
            ]);
        }
        let data = self.take_n(chunk.len());
        if data.len() != chunk.len() {
            return None;
        }
        proof {
            assert(data@ =~= s.subrange(8, 8 + chunk.length as int));
            assert(self.remaining() =~= s.skip(8 + chunk.length as int));
        }
        Some((chunk, data))
    }
}

/// Trait that allows different in-memory sources to be opened as a MIDI
/// byte cursor
pub trait MidiReadable {
    /// Creates a byte cursor from the source, or `None` when the source
    /// cannot be read
    fn get_midi_bytes(self) -> Option<ByteCursor>;
}

/// Wrapper struct to allow passing owned bytes to the MidiReadable trait
pub struct MidiData(pub Vec<u8>);

impl MidiReadable for MidiData {
    fn get_midi_bytes(self) -> (r: Option<ByteCursor>)
        ensures
            match r {
                Some(c) => c.remaining() == self.0@,
                None => false,
            },
    {
        Some(ByteCursor::new(self.0))
    }
}

} // verus!
