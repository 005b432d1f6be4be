//! The `MidiWriteable` trait turns this crate's data types back into raw MIDI
//! bytes: the mirror image of the decoders, with the produced bytes pinned
//! down by the `midi_bytes` specification of each implementation.

use crate::Chunk;
use vstd::prelude::*;
use vstd::string::StrSliceExecFns;
use vstd::utf8::encode_utf8;

verus! {

/// The big-endian bytes of a 16-bit unsigned integer.
pub open spec fn be16_bytes(v: u16) -> Seq<u8> {
    seq![(v / 0x100) as u8, (v % 0x100) as u8]
}

/// The big-endian bytes of a 32-bit unsigned integer.
pub open spec fn be32_bytes(v: u32) -> Seq<u8> {
    seq![
        (v / 0x1000000) as u8,
        ((v / 0x10000) % 0x100) as u8,
        ((v / 0x100) % 0x100) as u8,
        (v % 0x100) as u8,
    ]
}

/// The big-endian bytes of a 64-bit unsigned integer.
pub open spec fn be64_bytes(v: u64) -> Seq<u8> {
    be32_bytes((v / 0x100000000) as u32) + be32_bytes((v % 0x100000000) as u32)
}

/// The single two's-complement byte of an 8-bit signed integer.
pub open spec fn i8_byte(v: i8) -> u8 {
    ((v as int) % 0x100) as u8
}

/// The low byte of a character's code point; chunk type identifiers are
/// 4 ASCII characters, for which this is the identity on their code points.
pub open spec fn char_byte(c: char) -> u8 {
    ((c as u32) % 0x100) as u8
}

/// The 8 bytes of a chunk frame: 4 type identifier bytes, then the length.
pub open spec fn chunk_frame_bytes(c: Chunk) -> Seq<u8> {
    seq![
        char_byte(c.chunk_type[0]),
        char_byte(c.chunk_type[1]),
        char_byte(c.chunk_type[2]),
        char_byte(c.chunk_type[3]),
    ] + be32_bytes(c.length)
}

/// A trait for types that can be encoded as MIDI-format bytes.
///
/// `midi_bytes` states exactly which bytes an implementation produces, and
/// `to_midi_bytes` is proved to produce them.
pub trait MidiWriteable: Sized {
    /// The exact byte sequence this value encodes to.
    spec fn midi_bytes(self) -> Seq<u8>;

    /// Converts the data to a MIDI format byte sequence
    fn to_midi_bytes(self) -> (r: Vec<u8>)
        ensures
            r@ == self.midi_bytes(),
    ;
}

impl MidiWriteable for u8 {
    open spec fn midi_bytes(self) -> Seq<u8> {
        seq![self]
    }

    fn to_midi_bytes(self) -> (r: Vec<u8>) {
        let r = vec![self];
        proof {
            assert(r@ =~= self.midi_bytes());
        }
        r
    }
}

impl MidiWriteable for i8 {
    open spec fn midi_bytes(self) -> Seq<u8> {
        seq![i8_byte(self)]
    }

    fn to_midi_bytes(self) -> (r: Vec<u8>) {
        let b: u8 = if self >= 0 {
            self as u8
        } else {
            (self as i16 + 0x100) as u8
        };
        let r = vec![b];
        proof {
            assert(r@ =~= self.midi_bytes());
        }
        r
    }
}

impl MidiWriteable for u16 {
    open spec fn midi_bytes(self) -> Seq<u8> {
        be16_bytes(self)
    }

    fn to_midi_bytes(self) -> (r: Vec<u8>) {
        let r = vec![(self / 0x100) as u8, (self % 0x100) as u8];
        proof {
            assert(r@ =~= self.midi_bytes());
        }
        r
    }
}

impl MidiWriteable for u32 {
    open spec fn midi_bytes(self) -> Seq<u8> {
        be32_bytes(self)
    }

    fn to_midi_bytes(self) -> (r: Vec<u8>) {
        let r = vec![
            (self / 0x1000000) as u8,
            ((self / 0x10000) % 0x100) as u8,
            ((self / 0x100) % 0x100) as u8,
            (self % 0x100) as u8,
        ];
        proof {
            assert(r@ =~= self.midi_bytes());
        }
        r
    }
}

impl MidiWriteable for u64 {
    open spec fn midi_bytes(self) -> Seq<u8> {
        be64_bytes(self)
    }

    fn to_midi_bytes(self) -> (r: Vec<u8>) {
        let high = (self / 0x100000000) as u32;
        let low = (self % 0x100000000) as u32;
        let mut r = high.to_midi_bytes();
        let mut lowb = low.to_midi_bytes();
        r.append(&mut lowb);
        proof {
            assert(r@ =~= self.midi_bytes());
        }
        r
    }
}

impl MidiWriteable for String {
    open spec fn midi_bytes(self) -> Seq<u8> {
        encode_utf8(self@)
    }

    fn to_midi_bytes(self) -> (r: Vec<u8>) {
        self.as_str().as_bytes_vec()
    }
}

impl MidiWriteable for Chunk {
    open spec fn midi_bytes(self) -> Seq<u8> {
        chunk_frame_bytes(self)
    }

    fn to_midi_bytes(self) -> (r: Vec<u8>) {
        let mut r: Vec<u8> = Vec::new();
        let mut i: usize = 0;
        while i < 4
            invariant
                i <= 4,
                r@.len() == i,
                forall|j: int| 0 <= j < i ==> r@[j] == char_byte(self.chunk_type[j]),
            decreases 4 - i,
        {
            let c = self.chunk_type[i];
            let u = c as u32;
            r.push((u % 0x100) as u8);
            i = i + 1;
        }
        let mut len_bytes = self.length.to_midi_bytes();
        r.append(&mut len_bytes);
        proof {
            assert(r@ =~= self.midi_bytes());
        }
        r
    }
}

impl MidiWriteable for (Chunk, Vec<u8>) {
    open spec fn midi_bytes(self) -> Seq<u8> {
        chunk_frame_bytes(self.0) + self.1@
    }

    fn to_midi_bytes(self) -> (r: Vec<u8>) {
        let (chunk, data) = self;
        let ghost data0 = data@;
        let mut r = chunk.to_midi_bytes();
        let mut data = data;
        r.append(&mut data);
        proof {
            assert(r@ =~= chunk_frame_bytes(chunk) + data0);
        }
        r
    }
}

} // verus!
