//! System Exclusive Messages
//!
//! A sysex message is framed by `0xF0` ... `0xF7`, with a 1-byte or escaped
//! 3-byte manufacturer ID between the start byte and the payload.
//! `sysex_scan` specifies decoding, `sysex_encode` the emitted bytes, and
//! `lemma_sysex_round_trip` proves the round trip for well-formed messages.

use super::TrackError;
use crate::cursor::ByteCursor;
use crate::writer::MidiWriteable;
use vstd::prelude::*;

verus! {

/// A midi system exclusive event message
#[derive(Debug, Clone, PartialEq, Eq)]
pub struct SysexEvent {
    /// The manufacture ID of the System Exclusive message
    pub manufacture_id: ManufactureId,
    /// Data payload to be parsed on a per-system basis
    pub payload: Vec<u8>,
}

/// A manufacturer's ID. Can be either a 1 byte variant or 3 bytes
#[derive(Debug, Clone, Copy, PartialEq, Eq)]
pub enum ManufactureId {
    /// One byte ID
    OneByte(u8),
    /// Three byte ID, signaled by a leading zero byte
    ThreeByte([u8; 3]),
}

/// The mathematical content of a sysex message: its ID bytes and payload.
#[verifier::ext_equal]
pub struct SysexView {
    /// The 1 or 3 bytes of the manufacturer ID
    pub id_bytes: Seq<u8>,
    /// The payload bytes, without the terminating `0xF7`
    pub payload: Seq<u8>,
}

/// The wire bytes of a manufacturer ID.
pub open spec fn id_bytes(m: ManufactureId) -> Seq<u8> {
    match m {
        ManufactureId::OneByte(b) => seq![b],
        ManufactureId::ThreeByte(a) => seq![a[0], a[1], a[2]],
    }
}

impl View for SysexEvent {
    type V = SysexView;

    open spec fn view(&self) -> SysexView {
        SysexView { id_bytes: id_bytes(self.manufacture_id), payload: self.payload@ }
    }
}

/// Decoding a manufacturer ID from the front of `s`: its wire bytes and how
/// many bytes were consumed, or the error the bytes force.
pub open spec fn id_scan(s: Seq<u8>) -> Result<(Seq<u8>, nat), TrackError> {
    if s.len() == 0 {
        Err(TrackError::OutOfSpace)
    } else if s[0] == 0 {
        if s.len() < 3 {
            Err(TrackError::OutOfSpace)
        } else {
            Ok((seq![s[0], s[1], s[2]], 3))
        }
    } else {
        Ok((seq![s[0]], 1))
    }
}

/// Scanning a payload up to and including the terminating `0xF7`: the
/// payload bytes before the terminator and the consumed count, or `None`
/// when the input ends before any terminator.
pub open spec fn scan_until_f7(s: Seq<u8>) -> Option<(Seq<u8>, nat)>
    decreases s.len(),
{
    if s.len() == 0 {
        None
    } else if s[0] == 0xF7 {
        Some((Seq::empty(), 1))
    } else {
        match scan_until_f7(s.skip(1)) {
            None => None,
            Some((p, n)) => Some((seq![s[0]] + p, (n + 1) as nat)),
        }
    }
}

/// Decoding a sysex message from the front of `s`.
pub open spec fn sysex_scan(s: Seq<u8>) -> Result<(SysexView, nat), TrackError> {
    if s.len() == 0 {
        Err(TrackError::OutOfSpace)
    } else if s[0] != 0xF0 {
        Err(TrackError::InvalidSysExMessage)
    } else {
        match id_scan(s.skip(1)) {
            Err(e) => Err(e),
            Ok((idb, n)) => match scan_until_f7(s.skip(1 + n as int)) {
                None => Err(TrackError::MissingEndOfExclusive),
                Some((p, m)) => Ok(
                    (SysexView { id_bytes: idb, payload: p }, (1 + n + m) as nat),
                ),
            },
        }
    }
}

/// The wire bytes of a sysex message.
pub open spec fn sysex_encode(v: SysexView) -> Seq<u8> {
    seq![0xF0u8] + v.id_bytes + v.payload + seq![0xF7u8]
}

/// A sysex message that re-encodes to the exact bytes it was decoded from:
/// a one-byte ID is not the three-byte escape `0x00`, a three-byte ID starts
/// with it, and the payload holds no terminator byte.
pub open spec fn sysex_wf(v: SysexView) -> bool {
    &&& (v.id_bytes.len() == 1 || v.id_bytes.len() == 3)
    &&& (v.id_bytes.len() == 1 ==> v.id_bytes[0] != 0)
    &&& (v.id_bytes.len() == 3 ==> v.id_bytes[0] == 0)
    &&& forall|i: int| 0 <= i < v.payload.len() ==> v.payload[i] != 0xF7
}

impl ManufactureId {
    /// Decodes a manufacturer ID: one byte, or three when the first is zero.
    pub fn try_from(cursor: &mut ByteCursor) -> (r: Result<ManufactureId, TrackError>)
        ensures
            ({
                let scan = id_scan(old(cursor).remaining());
                match scan {
                    Ok((idb, n)) => match r {
                        Ok(m) => id_bytes(m) == idb && final(cursor).remaining() == old(
                            cursor,
                        ).remaining().skip(n as int),
                        Err(_) => false,
                    },
                    Err(e) => r == Err::<ManufactureId, TrackError>(e),
                }
            }),
    {
        let ghost rem = cursor.remaining();
        let first_byte = match cursor.take_one() {
            Some(b) => b,
            None => {
                return Err(TrackError::OutOfSpace);
            },
        };
        if first_byte == 0x00 {
            let second_byte = match cursor.take_one() {
                Some(b) => b,
                None => {
                    return Err(TrackError::OutOfSpace);
                },
            };
            let third_byte = match cursor.take_one() {
                Some(b) => b,
                None => {
                    return Err(TrackError::OutOfSpace);
                },
            };
            proof {
                assert(rem[1] == rem.skip(1)[0]);
                assert(rem[2] == rem.skip(1).skip(1)[0]);
                assert(rem.skip(1).skip(1).skip(1) =~= rem.skip(3));
                assert(id_bytes(ManufactureId::ThreeByte([rem[0], rem[1], rem[2]])) =~= seq![
                    rem[0],
                    rem[1],
                    rem[2],
                ]);
            }
            Ok(ManufactureId::ThreeByte([first_byte, second_byte, third_byte]))
        } else {
            proof {
                assert(id_bytes(ManufactureId::OneByte(rem[0])) =~= seq![rem[0]]);
            }
            Ok(ManufactureId::OneByte(first_byte))
        }
    }
}

impl SysexEvent {
    /// Decodes a sysex message: `0xF0`, manufacturer ID, payload bytes up to
    /// the terminating `0xF7`.
    pub fn try_from(cursor: &mut ByteCursor) -> (r: Result<SysexEvent, TrackError>)
        ensures
            ({
                let scan = sysex_scan(old(cursor).remaining());
                match scan {
                    Ok((v, n)) => match r {
                        Ok(ev) => ev@ == v && final(cursor).remaining() == old(
                            cursor,
                        ).remaining().skip(n as int),
                        Err(_) => false,
                    },
                    Err(e) => r == Err::<SysexEvent, TrackError>(e),
                }
            }),
    {
        let ghost rem = cursor.remaining();
        let prefix = match cursor.take_one() {
            Some(b) => b,
            None => {
                return Err(TrackError::OutOfSpace);
            },
        };
        if prefix != 0xF0 {
            return Err(TrackError::InvalidSysExMessage);
        }
        let manufacture_id = match ManufactureId::try_from(cursor) {
            Ok(m) => m,
            Err(e) => {
                return Err(e);
            },
        };
        let ghost id_len = id_scan(rem.skip(1)).unwrap().1;
        let ghost after_id = rem.skip(1 + id_len as int);
        proof {
            assert(cursor.remaining() =~= after_id);
        }
        let mut payload: Vec<u8> = Vec::new();
        loop
            invariant_except_break
                ({
                    let scan0 = scan_until_f7(after_id);
                    match scan_until_f7(cursor.remaining()) {
                        None => scan0 is None,
                        Some((p, m)) => scan0 == Some::<(Seq<u8>, nat)>(
                            (payload@ + p, (payload@.len() + m) as nat),
                        ),
                    }
                }),
                cursor.remaining() == after_id.skip(payload@.len() as int),
                payload@.len() <= after_id.len(),
                rem == old(cursor).remaining(),
                rem.len() > 0 && rem[0] == 0xF0,
                id_scan(rem.skip(1)) is Ok,
                id_len == id_scan(rem.skip(1)).unwrap().1,
                after_id == rem.skip(1 + id_len as int),
            ensures
                scan_until_f7(after_id) == Some::<(Seq<u8>, nat)>(
                    (payload@, (payload@.len() + 1) as nat),
                ),
                cursor.remaining() == after_id.skip((payload@.len() + 1) as int),
                payload@.len() + 1 <= after_id.len(),
            decreases cursor.remaining().len(),
        {
            let ghost loop_rem = cursor.remaining();
            let byte = match cursor.take_one() {
                Some(b) => b,
                None => {
                    proof {
                        assert(scan_until_f7(loop_rem) is None);
                        assert(scan_until_f7(after_id) is None);
                        assert(rem[0] == 0xF0);
                        assert(id_scan(rem.skip(1)) is Ok);
                        assert(id_scan(rem.skip(1)).unwrap().1 == id_len);
                        assert(sysex_scan(rem) == Err::<(SysexView, nat), TrackError>(
                            TrackError::MissingEndOfExclusive,
                        ));
                    }
                    return Err(TrackError::MissingEndOfExclusive);
                },
            };
            if byte == 0xF7 {
                proof {
                    assert(payload@ + Seq::<u8>::empty() =~= payload@);
                    assert(cursor.remaining() =~= after_id.skip((payload@.len() + 1) as int));
                }
                break ;
            } else {
                let ghost pay0 = payload@;
                payload.push(byte);
                proof {
                    if scan_until_f7(loop_rem.skip(1)) is Some {
                        let (p2, m2) = scan_until_f7(loop_rem.skip(1)).unwrap();
                        assert(pay0 + (seq![loop_rem[0]] + p2) =~= payload@ + p2);
                    }
                    assert(cursor.remaining() =~= after_id.skip(payload@.len() as int));
                }
            }
        }
        let ghost scan0 = scan_until_f7(after_id).unwrap();
        proof {
            assert(scan0.1 == payload@.len() + 1);
            assert(cursor.remaining() == after_id.skip(scan0.1 as int));
            assert(id_len == 1 || id_len == 3);
            assert(1 + id_len as int <= rem.len());
            assert(scan0.1 as int <= after_id.len());
            assert(after_id.skip(scan0.1 as int) =~= rem.skip((1 + id_len + scan0.1) as int));
            assert(cursor.remaining() =~= rem.skip((1 + id_len + scan0.1) as int));
            let v = sysex_scan(rem).unwrap().0;
            assert(SysexView { id_bytes: id_bytes(manufacture_id), payload: payload@ } =~= v);
        }
        Ok(SysexEvent { manufacture_id, payload })
    }
}

impl MidiWriteable for ManufactureId {
    open spec fn midi_bytes(self) -> Seq<u8> {
        id_bytes(self)
    }

    fn to_midi_bytes(self) -> (r: Vec<u8>) {
        match self {
            ManufactureId::OneByte(byte) => {
                let r = vec![byte];
                proof {
                    assert(r@ =~= id_bytes(self));
                }
                r
            },
            ManufactureId::ThreeByte(bytes) => {
                let r = vec![bytes[0], bytes[1], bytes[2]];
                proof {
                    assert(r@ =~= id_bytes(self));
                }
                r
            },
        }
    }
}

impl MidiWriteable for SysexEvent {
    open spec fn midi_bytes(self) -> Seq<u8> {
        sysex_encode(self@)
    }

    fn to_midi_bytes(self) -> (r: Vec<u8>) {
        let mut r = vec![0xF0u8];
        let mut idb = self.manufacture_id.to_midi_bytes();
        r.append(&mut idb);
        let mut payload = self.payload;
        r.append(&mut payload);
        r.push(0xF7);
        proof {
            assert(r@ =~= sysex_encode(self@));
        }
        r
    }
}

/// A successful payload scan consumes at least the terminator and at most
/// the whole input, and keeps every byte before the terminator.
pub proof fn lemma_scan_until_f7_len(s: Seq<u8>)
    ensures
        match scan_until_f7(s) {
            Some((p, m)) => 1 <= m <= s.len() && p.len() == m - 1,
            None => true,
        },
    decreases s.len(),
{
    if s.len() > 0 && s[0] != 0xF7 {
        lemma_scan_until_f7_len(s.skip(1));
    }
}

/// Payload scanning finds exactly the terminator that encoding appended,
/// when the payload itself holds no terminator byte.
proof fn lemma_scan_payload(p: Seq<u8>, rest: Seq<u8>)
    requires
        forall|i: int| 0 <= i < p.len() ==> p[i] != 0xF7,
    ensures
        scan_until_f7(p + seq![0xF7u8] + rest) == Some::<(Seq<u8>, nat)>((p, (p.len() + 1) as nat)),
    decreases p.len(),
{
    let s = p + seq![0xF7u8] + rest;
    if p.len() == 0 {
        assert(s[0] == 0xF7);
        assert(Seq::<u8>::empty() =~= p);
    } else {
        assert(s[0] == p[0]);
        assert(s[0] != 0xF7);
        lemma_scan_payload(p.skip(1), rest);
        assert(s.skip(1) =~= p.skip(1) + seq![0xF7u8] + rest);
        assert(seq![p[0]] + p.skip(1) =~= p);
    }
}

/// Sysex round trip: decoding the encoding of a well-formed message gives
/// the message back and consumes exactly its bytes.
pub proof fn lemma_sysex_round_trip(v: SysexView, rest: Seq<u8>)
    requires
        sysex_wf(v),
    ensures
        ({
            let scanned = sysex_scan(sysex_encode(v) + rest);
            match scanned {
                Ok((v2, n)) => v2.id_bytes == v.id_bytes && v2.payload == v.payload && n
                    == sysex_encode(v).len(),
                Err(_) => false,
            }
        }),
{
    let s = sysex_encode(v) + rest;
    assert(s[0] == 0xF0);
    let after0 = s.skip(1);
    assert(after0 =~= v.id_bytes + (v.payload + seq![0xF7u8] + rest));
    if v.id_bytes.len() == 1 {
        assert(after0[0] == v.id_bytes[0]);
        assert(after0[0] != 0);
        let got = id_scan(after0).unwrap();
        assert(got.0 =~= v.id_bytes);
        assert(s.skip(2) =~= v.payload + seq![0xF7u8] + rest);
        lemma_scan_payload(v.payload, rest);
    } else {
        assert(after0[0] == v.id_bytes[0]);
        assert(after0[0] == 0);
        assert(after0.len() >= 3);
        assert(after0[1] == v.id_bytes[1]);
        assert(after0[2] == v.id_bytes[2]);
        let got = id_scan(after0).unwrap();
        assert(got.0 =~= v.id_bytes);
        assert(s.skip(4) =~= v.payload + seq![0xF7u8] + rest);
        lemma_scan_payload(v.payload, rest);
    }
}

} // verus!
