//! A minimal MIDI file codec: chunks, header metadata and per-track event
//! sequences, decoded from raw bytes and re-encoded byte-exactly.
//!
//! MIDI files are structured as a series of chunks.  Each chunk carries a
//! 4-character ASCII type identifier and a 32-bit length of the data that
//! follows.  [`RawMidi`] parses a whole stream of chunks, and [`Midi`] is
//! the sanitized form: exactly one leading header chunk, then only track
//! chunks.  Every decoder states in its contract exactly which value a byte
//! sequence yields, and the codec round trips are proved as lemmas in the
//! event modules.

pub mod chunk;
pub mod cursor;
pub mod reader;
pub mod writer;

use chunk::header::HeaderChunk;
use chunk::track::{MTrkEventView, TrackChunk};
use chunk::{
    lemma_parsed_chunk_round_trip, parsed_chunk_bytes, parsed_chunk_length, parsed_chunk_payload,
    parsed_chunk_scan, parsed_chunk_type, parsed_chunk_wf, ChunkParseError, ParsedChunk,
    ParsedChunkView,
};
use reader::{be32_val, byte_char, chunk_frame_ok, MidiStream};
use vstd::prelude::*;
use writer::MidiWriteable;

verus! {

/// A raw MIDI chunk frame: a 4-character ASCII type identifier and the
/// 32-bit length of the payload that follows it.
#[derive(Debug, Clone, Copy, PartialEq, Eq)]
pub struct Chunk {
    /// 4 character ASCII chunk type
    pub chunk_type: [char; 4],
    /// Length of the data that follows
    pub length: u32,
}

impl Chunk {
    /// Gets the length of the chunk as a usize
    pub fn len(&self) -> (r: usize)
        ensures
            r == self.length as usize,
    {
        self.length as usize
    }

    /// Returns if the chunk has no attributed data
    pub fn is_empty(&self) -> (r: bool)
        ensures
            r == (self.length == 0),
    {
        self.length == 0
    }

    /// Splits a packed 64-bit value into a chunk frame: the high 32 bits
    /// hold the 4 type characters, the low 32 bits the length.
    pub fn from(value: u64) -> (r: Chunk)
        ensures
            ({
                let high = (value / 0x100000000) as u32;
                &&& r.chunk_type@ == seq![
                    byte_char((high / 0x1000000) as u8),
                    byte_char(((high / 0x10000) % 0x100) as u8),
                    byte_char(((high / 0x100) % 0x100) as u8),
                    byte_char((high % 0x100) as u8),
                ]
                &&& r.length == (value % 0x100000000) as u32
            }),
    {
        let high = (value / 0x100000000) as u32;
        let low = (value % 0x100000000) as u32;

        let a = (high / 0x1000000) as u8 as char;
        let b = ((high / 0x10000) % 0x100) as u8 as char;
        let c = ((high / 0x100) % 0x100) as u8 as char;
        let d = (high % 0x100) as u8 as char;

        let r = Chunk { chunk_type: [a, b, c, d], length: low };
        proof {
            assert(r.chunk_type@ =~= seq![
                byte_char((high / 0x1000000) as u8),
                byte_char(((high / 0x10000) % 0x100) as u8),
                byte_char(((high / 0x100) % 0x100) as u8),
                byte_char((high % 0x100) as u8),
            ]);
        }
        r
    }
}

/// The views of a sequence of parsed chunks.
pub open spec fn chunks_view(s: Seq<ParsedChunk>) -> Seq<ParsedChunkView> {
    s.map_values(|c: ParsedChunk| c@)
}

/// The views of a sequence of track chunks.
pub open spec fn tracks_view(s: Seq<TrackChunk>) -> Seq<Seq<MTrkEventView>> {
    s.map_values(|t: TrackChunk| t@)
}

/// Decoding a whole stream of chunks: (frame, payload) pairs are read and
/// parsed until too few bytes remain for a complete chunk; a chunk that
/// fails to parse fails the whole stream.
pub open spec fn raw_midi_scan(s: Seq<u8>) -> Result<Seq<ParsedChunkView>, ChunkParseError>
    decreases s.len(),
{
    if !chunk_frame_ok(s) {
        Ok(Seq::empty())
    } else {
        let tc = seq![byte_char(s[0]), byte_char(s[1]), byte_char(s[2]), byte_char(s[3])];
        let len = be32_val(s[4], s[5], s[6], s[7]);
        let data = s.subrange(8, 8 + len as int);
        match parsed_chunk_scan(tc, len, data) {
            Err(e) => Err(e),
            Ok(p) => match raw_midi_scan(s.skip(8 + len as int)) {
                Err(e) => Err(e),
                Ok(tail) => Ok(seq![p] + tail),
            },
        }
    }
}

/// An entire MIDI file as a raw sequence of parsed chunks
#[derive(Debug, Clone, PartialEq)]
pub struct RawMidi {
    /// All raw chunks as ParsedChunks
    pub chunks: Vec<ParsedChunk>,
}

impl View for RawMidi {
    type V = Seq<ParsedChunkView>;

    open spec fn view(&self) -> Seq<ParsedChunkView> {
        chunks_view(self.chunks@)
    }
}

/// A wrapper to allow conversion constructors for `MidiStream` implementors
pub struct StreamWrapper<STREAM: MidiStream>(pub STREAM);

impl RawMidi {
    /// Constructs a new MIDI instance from a stream of MIDI bytes
    pub fn try_from_midi_stream<STREAM: MidiStream>(stream: STREAM) -> (r: Result<
        Self,
        ChunkParseError,
    >)
        ensures
            match raw_midi_scan(stream.stream_rem()) {
                Ok(views) => match r {
                    Ok(rm) => rm@ == views,
                    Err(_) => false,
                },
                Err(e) => r == Err::<RawMidi, ChunkParseError>(e),
            },
    {
        Self::try_from(StreamWrapper(stream))
    }

    /// Reads chunks off a stream until too few bytes remain for a complete
    /// chunk; any chunk that fails to parse fails the whole stream.
    #[verifier::rlimit(100)]
    pub fn try_from<STREAM: MidiStream>(value: StreamWrapper<STREAM>) -> (r: Result<
        Self,
        ChunkParseError,
    >)
        ensures
            match raw_midi_scan(value.0.stream_rem()) {
                Ok(views) => match r {
                    Ok(rm) => rm@ == views,
                    Err(_) => false,
                },
                Err(e) => r == Err::<RawMidi, ChunkParseError>(e),
            },
    {
        let mut data = value.0;
        let ghost all = data.stream_rem();
        let mut chunks: Vec<ParsedChunk> = Vec::new();
        loop
            invariant_except_break
                ({
                    match raw_midi_scan(data.stream_rem()) {
                        Ok(tail) => raw_midi_scan(all) == Ok::<
                            Seq<ParsedChunkView>,
                            ChunkParseError,
                        >(chunks_view(chunks@) + tail),
                        Err(e) => raw_midi_scan(all) == Err::<
                            Seq<ParsedChunkView>,
                            ChunkParseError,
                        >(e),
                    }
                }),
                all == value.0.stream_rem(),
            ensures
                raw_midi_scan(all) == Ok::<Seq<ParsedChunkView>, ChunkParseError>(
                    chunks_view(chunks@),
                ),
            decreases data.stream_rem().len(),
        {
            let ghost loop_rem = data.stream_rem();
            match data.read_chunk_data_pair() {
                None => {
                    proof {
                        assert(raw_midi_scan(loop_rem) == Ok::<
                            Seq<ParsedChunkView>,
                            ChunkParseError,
                        >(Seq::empty()));
                        assert(chunks_view(chunks@) + Seq::<ParsedChunkView>::empty()
                            =~= chunks_view(chunks@));
                    }
                    break ;
                },
                Some(pair) => {
                    let ghost len = pair.0.length;
                    match ParsedChunk::try_from(pair) {
                        Ok(parsed) => {
                            proof {
                                let tc = seq![
                                    byte_char(loop_rem[0]),
                                    byte_char(loop_rem[1]),
                                    byte_char(loop_rem[2]),
                                    byte_char(loop_rem[3]),
                                ];
                                let scan = parsed_chunk_scan(
                                    tc,
                                    len,
                                    loop_rem.subrange(8, 8 + len as int),
                                );
                                assert(scan is Ok && parsed@ == scan.unwrap());
                                let views0 = chunks_view(chunks@);
                                if raw_midi_scan(data.stream_rem()) is Ok {
                                    let tail = raw_midi_scan(data.stream_rem()).unwrap();
                                    assert((views0 + seq![parsed@]) + tail =~= views0 + (seq![
                                        parsed@,
                                    ] + tail));
                                }
                            }
                            let ghost views0 = chunks_view(chunks@);
                            chunks.push(parsed);
                            proof {
                                assert(chunks_view(chunks@) =~= views0 + seq![parsed@]);
                            }
                        },
                        Err(e) => {
                            proof {
                                assert(raw_midi_scan(loop_rem) == Err::<
                                    Seq<ParsedChunkView>,
                                    ChunkParseError,
                                >(e));
                            }
                            return Err(e);
                        },
                    }
                },
            }
        }
        Ok(RawMidi { chunks })
    }

    /// Attempts to upgrade a `RawMidi` stream into a sanitized `Midi`
    /// struct. This means there must be a single starting header and only
    /// track chunks afterwards
    pub fn check_into_midi(self) -> (r: Result<Midi, MidiSanitizerError>)
        ensures
            match sanitize(self@) {
                Ok(m) => match r {
                    Ok(midi) => midi@ == m,
                    Err(_) => false,
                },
                Err(e) => r == Err::<Midi, MidiSanitizerError>(e),
            },
    {
        Midi::try_from(self)
    }
}

/// The bytes a sequence of parsed chunks re-encodes to.
pub open spec fn raw_midi_bytes(vs: Seq<ParsedChunkView>) -> Seq<u8>
    decreases vs.len(),
{
    if vs.len() == 0 {
        Seq::empty()
    } else {
        parsed_chunk_bytes(vs[0]) + raw_midi_bytes(vs.skip(1))
    }
}

/// The bytes of the first `i` chunks of a sequence.
pub open spec fn raw_midi_bytes_prefix(vs: Seq<ParsedChunkView>, i: int) -> Seq<u8>
    decreases i,
{
    if i <= 0 {
        Seq::empty()
    } else {
        raw_midi_bytes_prefix(vs, i - 1) + parsed_chunk_bytes(vs[i - 1])
    }
}

/// The chunk-sequence encoding splits at any point into an encoded prefix
/// and the encoding of the remaining chunks.
proof fn lemma_raw_midi_bytes_split(vs: Seq<ParsedChunkView>, i: int)
    requires
        0 <= i <= vs.len(),
    ensures
        raw_midi_bytes(vs) == raw_midi_bytes_prefix(vs, i) + raw_midi_bytes(vs.skip(i)),
    decreases i,
{
    if i == 0 {
        assert(vs.skip(0) =~= vs);
        assert(raw_midi_bytes_prefix(vs, 0) + raw_midi_bytes(vs) =~= raw_midi_bytes(vs));
    } else {
        lemma_raw_midi_bytes_split(vs, i - 1);
        let tail = vs.skip(i - 1);
        assert(tail[0] == vs[i - 1]);
        assert(tail.skip(1) =~= vs.skip(i));
        assert(raw_midi_bytes_prefix(vs, i - 1) + (parsed_chunk_bytes(vs[i - 1]) + raw_midi_bytes(
            vs.skip(i),
        )) =~= (raw_midi_bytes_prefix(vs, i - 1) + parsed_chunk_bytes(vs[i - 1])) + raw_midi_bytes(
            vs.skip(i),
        ));
    }
}

impl MidiWriteable for RawMidi {
    open spec fn midi_bytes(self) -> Seq<u8> {
        raw_midi_bytes(self@)
    }

    fn to_midi_bytes(self) -> (r: Vec<u8>) {
        let ghost views = self@;
        let mut rest = self.chunks;
        let mut res: Vec<u8> = Vec::new();
        proof {
            assert(chunks_view(rest@) =~= views.skip(0));
        }
        while rest.len() > 0
            invariant
                rest@.len() <= views.len(),
                chunks_view(rest@) == views.skip((views.len() - rest@.len()) as int),
                res@ == raw_midi_bytes_prefix(views, (views.len() - rest@.len()) as int),
            decreases rest.len(),
        {
            let ghost k = (views.len() - rest@.len()) as int;
            let chunk = rest.remove(0);
            proof {
                assert(views.skip(k)[0] == views[k]);
                assert(chunk@ == views[k]);
                assert(chunks_view(rest@) =~= views.skip(k).skip(1));
                assert(views.skip(k).skip(1) =~= views.skip(k + 1));
            }
            let mut cb = chunk.to_midi_bytes();
            res.append(&mut cb);
            proof {
                assert(res@ =~= raw_midi_bytes_prefix(views, k + 1));
            }
        }
        proof {
            lemma_raw_midi_bytes_split(views, views.len() as int);
            assert(views.skip(views.len() as int) =~= Seq::<ParsedChunkView>::empty());
            assert(res@ =~= raw_midi_bytes(views));
        }
        res
    }
}

/// A chunk sequence whose every chunk re-encodes to the exact bytes it was
/// decoded from.
pub open spec fn raw_midi_wf(vs: Seq<ParsedChunkView>) -> bool {
    forall|i: int| 0 <= i < vs.len() ==> parsed_chunk_wf(#[trigger] vs[i])
}

/// Reading four big-endian bytes back gives the 32-bit value they encode.
proof fn lemma_be32_round(v: u32)
    ensures
        ({
            let b = writer::be32_bytes(v);
            be32_val(b[0], b[1], b[2], b[3]) == v
        }),
{
}

/// A chunk's encoded bytes, followed by anything, carry a complete frame
/// whose fields read back as the chunk's type, length and payload.
proof fn lemma_chunk_frame_fields(v0: ParsedChunkView, rest: Seq<u8>)
    requires
        parsed_chunk_wf(v0),
    ensures
        ({
            let s = parsed_chunk_bytes(v0) + rest;
            let len = parsed_chunk_length(v0);
            &&& s.len() == 8 + parsed_chunk_payload(v0).len() + rest.len()
            &&& chunk_frame_ok(s)
            &&& be32_val(s[4], s[5], s[6], s[7]) == len
            &&& seq![byte_char(s[0]), byte_char(s[1]), byte_char(s[2]), byte_char(s[3])]
                == parsed_chunk_type(v0)
            &&& s.subrange(8, 8 + len as int) == parsed_chunk_payload(v0)
            &&& s.skip(8 + len as int) == rest
        }),
{
    let s = parsed_chunk_bytes(v0) + rest;
    let len = parsed_chunk_length(v0);
    let payload = parsed_chunk_payload(v0);
    lemma_parsed_chunk_round_trip(v0);
    lemma_be32_round(len);
    assert(s[4] == writer::be32_bytes(len)[0]);
    assert(s[5] == writer::be32_bytes(len)[1]);
    assert(s[6] == writer::be32_bytes(len)[2]);
    assert(s[7] == writer::be32_bytes(len)[3]);
    // The type characters survive the byte cast: both chunk types are
    // plain ASCII.
    assert(byte_char(writer::char_byte('M')) == 'M');
    assert(byte_char(writer::char_byte('T')) == 'T');
    assert(byte_char(writer::char_byte('h')) == 'h');
    assert(byte_char(writer::char_byte('d')) == 'd');
    assert(byte_char(writer::char_byte('r')) == 'r');
    assert(byte_char(writer::char_byte('k')) == 'k');
    match v0 {
        ParsedChunkView::Header(_) => {},
        ParsedChunkView::Track(_) => {},
    }
    assert(seq![byte_char(s[0]), byte_char(s[1]), byte_char(s[2]), byte_char(s[3])]
        =~= parsed_chunk_type(v0));
    assert(s.subrange(8, 8 + len as int) =~= payload);
    assert(s.skip(8 + len as int) =~= rest);
}

/// Whole-file round trip: decoding the re-encoded bytes of a well-formed
/// chunk sequence gives the sequence back.
#[verifier::rlimit(60)]
pub proof fn lemma_raw_midi_round_trip(vs: Seq<ParsedChunkView>)
    requires
        raw_midi_wf(vs),
    ensures
        raw_midi_scan(raw_midi_bytes(vs)) == Ok::<Seq<ParsedChunkView>, ChunkParseError>(vs),
    decreases vs.len(),
{
    if vs.len() == 0 {
        assert(raw_midi_bytes(vs).len() == 0);
        assert(Seq::<ParsedChunkView>::empty() =~= vs);
    } else {
        let v0 = vs[0];
        let len = parsed_chunk_length(v0);
        let tail_bytes = raw_midi_bytes(vs.skip(1));
        let s = raw_midi_bytes(vs);
        assert(s =~= parsed_chunk_bytes(v0) + tail_bytes);
        lemma_chunk_frame_fields(v0, tail_bytes);
        lemma_parsed_chunk_round_trip(v0);
        assert(raw_midi_wf(vs.skip(1))) by {
            assert(forall|i: int|
                0 <= i < vs.skip(1).len() ==> vs.skip(1)[i] == vs[i + 1]
                    && parsed_chunk_wf(#[trigger] vs.skip(1)[i]));
        }
        lemma_raw_midi_round_trip(vs.skip(1));
        assert(seq![v0] + vs.skip(1) =~= vs);
    }
}

/// A MIDI File "cleaned" by enforcing a single header chunk and an
/// arbitrary amount of Track chunks
#[derive(Debug, Clone, PartialEq)]
pub struct Midi {
    /// The header chunk
    pub header: HeaderChunk,
    /// All subsequent track chunks
    pub tracks: Vec<TrackChunk>,
}

/// The mathematical content of a sanitized MIDI file.
#[verifier::ext_equal]
pub struct MidiView {
    /// The header chunk
    pub header: HeaderChunk,
    /// The event sequences of the track chunks, in order
    pub tracks: Seq<Seq<MTrkEventView>>,
}

impl View for Midi {
    type V = MidiView;

    open spec fn view(&self) -> MidiView {
        MidiView { header: self.header, tracks: tracks_view(self.tracks@) }
    }
}

/// An error that may occur when verifying that a Raw Midi struct is
/// sanitized into a clean MIDI format
#[derive(Debug, Clone, Copy, PartialEq, Eq, Structural)]
pub enum MidiSanitizerError {
    /// Sequence doesn't start with a header
    NoStartHeader,
    /// Too many headers
    TooManyHeaders,
    /// No chunks at all
    NoChunks,
}

/// Collecting the chunks after the header: all must be tracks, and a second
/// header fails the file.
pub open spec fn collect_tracks(chunks: Seq<ParsedChunkView>) -> Result<
    Seq<Seq<MTrkEventView>>,
    MidiSanitizerError,
>
    decreases chunks.len(),
{
    if chunks.len() == 0 {
        Ok(Seq::empty())
    } else {
        match chunks[0] {
            ParsedChunkView::Track(t) => match collect_tracks(chunks.skip(1)) {
                Ok(ts) => Ok(seq![t] + ts),
                Err(e) => Err(e),
            },
            ParsedChunkView::Header(_) => Err(MidiSanitizerError::TooManyHeaders),
        }
    }
}

/// Sanitizing a chunk sequence: it must be non-empty, start with a header,
/// and continue with tracks only.
pub open spec fn sanitize(chunks: Seq<ParsedChunkView>) -> Result<MidiView, MidiSanitizerError> {
    if chunks.len() == 0 {
        Err(MidiSanitizerError::NoChunks)
    } else {
        match chunks[0] {
            ParsedChunkView::Header(h) => match collect_tracks(chunks.skip(1)) {
                Ok(ts) => Ok(MidiView { header: h, tracks: ts }),
                Err(e) => Err(e),
            },
            ParsedChunkView::Track(_) => Err(MidiSanitizerError::NoStartHeader),
        }
    }
}

impl Midi {
    /// Sanitizes a raw chunk sequence: one leading header, then only track
    /// chunks.
    pub fn try_from(value: RawMidi) -> (r: Result<Midi, MidiSanitizerError>)
        ensures
            match sanitize(value@) {
                Ok(m) => match r {
                    Ok(midi) => midi@ == m,
                    Err(_) => false,
                },
                Err(e) => r == Err::<Midi, MidiSanitizerError>(e),
            },
    {
        let ghost all = value@;
        let mut chunks = value.chunks;
        if chunks.len() == 0 {
            return Err(MidiSanitizerError::NoChunks);
        }
        let first = chunks.remove(0);
        let header = match first {
            ParsedChunk::Header(header) => header,
            ParsedChunk::Track(_) => {
                return Err(MidiSanitizerError::NoStartHeader);
            },
        };
        let ghost rest0 = all.skip(1);
        proof {
            assert(chunks_view(chunks@) =~= rest0);
        }
        let mut tracks: Vec<TrackChunk> = Vec::new();
        loop
            invariant_except_break
                ({
                    match collect_tracks(chunks_view(chunks@)) {
                        Ok(ts) => collect_tracks(rest0) == Ok::<
                            Seq<Seq<MTrkEventView>>,
                            MidiSanitizerError,
                        >(tracks_view(tracks@) + ts),
                        Err(e) => collect_tracks(rest0) == Err::<
                            Seq<Seq<MTrkEventView>>,
                            MidiSanitizerError,
                        >(e),
                    }
                }),
                all == value@,
                all.len() > 0,
                all[0] == ParsedChunkView::Header(header),
                rest0 == all.skip(1),
            ensures
                collect_tracks(rest0) == Ok::<Seq<Seq<MTrkEventView>>, MidiSanitizerError>(
                    tracks_view(tracks@),
                ),
            decreases chunks.len(),
        {
            if chunks.len() == 0 {
                proof {
                    assert(chunks_view(chunks@) =~= Seq::<ParsedChunkView>::empty());
                    assert(tracks_view(tracks@) + Seq::<Seq<MTrkEventView>>::empty() =~= tracks_view(
                        tracks@,
                    ));
                }
                break ;
            }
            let ghost loop_chunks = chunks_view(chunks@);
            let next = chunks.remove(0);
            proof {
                assert(next@ == loop_chunks[0]);
                assert(chunks_view(chunks@) =~= loop_chunks.skip(1));
            }
            match next {
                ParsedChunk::Track(track) => {
                    proof {
                        let ts0 = tracks_view(tracks@);
                        if collect_tracks(chunks_view(chunks@)) is Ok {
                            let ts = collect_tracks(chunks_view(chunks@)).unwrap();
                            assert((ts0 + seq![track@]) + ts =~= ts0 + (seq![track@] + ts));
                        }
                    }
                    let ghost ts0 = tracks_view(tracks@);
                    tracks.push(track);
                    proof {
                        assert(tracks_view(tracks@) =~= ts0 + seq![track@]);
                    }
                },
                ParsedChunk::Header(_) => {
                    proof {
                        assert(collect_tracks(loop_chunks) == Err::<
                            Seq<Seq<MTrkEventView>>,
                            MidiSanitizerError,
                        >(MidiSanitizerError::TooManyHeaders));
                        assert(sanitize(all) == Err::<MidiView, MidiSanitizerError>(
                            MidiSanitizerError::TooManyHeaders,
                        ));
                    }
                    return Err(MidiSanitizerError::TooManyHeaders);
                },
            }
        }
        proof {
            assert(MidiView { header, tracks: tracks_view(tracks@) } =~= sanitize(all).unwrap());
        }
        Ok(Self { header, tracks })
    }
}

/// The bytes a sequence of track chunks re-encodes to, each under its own
/// chunk frame.
pub open spec fn framed_tracks_bytes(ts: Seq<Seq<MTrkEventView>>) -> Seq<u8>
    decreases ts.len(),
{
    if ts.len() == 0 {
        Seq::empty()
    } else {
        parsed_chunk_bytes(ParsedChunkView::Track(ts[0])) + framed_tracks_bytes(ts.skip(1))
    }
}

/// The bytes of the first `i` framed tracks.
pub open spec fn framed_tracks_prefix(ts: Seq<Seq<MTrkEventView>>, i: int) -> Seq<u8>
    decreases i,
{
    if i <= 0 {
        Seq::empty()
    } else {
        framed_tracks_prefix(ts, i - 1) + parsed_chunk_bytes(ParsedChunkView::Track(ts[i - 1]))
    }
}

/// The framed-track encoding splits at any point into an encoded prefix and
/// the encoding of the remaining tracks.
proof fn lemma_framed_tracks_split(ts: Seq<Seq<MTrkEventView>>, i: int)
    requires
        0 <= i <= ts.len(),
    ensures
        framed_tracks_bytes(ts) == framed_tracks_prefix(ts, i) + framed_tracks_bytes(ts.skip(i)),
    decreases i,
{
    if i == 0 {
        assert(ts.skip(0) =~= ts);
        assert(framed_tracks_prefix(ts, 0) + framed_tracks_bytes(ts) =~= framed_tracks_bytes(ts));
    } else {
        lemma_framed_tracks_split(ts, i - 1);
        let tail = ts.skip(i - 1);
        assert(tail[0] == ts[i - 1]);
        assert(tail.skip(1) =~= ts.skip(i));
        assert(framed_tracks_prefix(ts, i - 1) + (parsed_chunk_bytes(
            ParsedChunkView::Track(ts[i - 1]),
        ) + framed_tracks_bytes(ts.skip(i))) =~= (framed_tracks_prefix(ts, i - 1)
            + parsed_chunk_bytes(ParsedChunkView::Track(ts[i - 1]))) + framed_tracks_bytes(
            ts.skip(i),
        ));
    }
}

/// A sequence of track payloads, each framed as a track chunk.
pub open spec fn track_chunks(ts: Seq<Seq<MTrkEventView>>) -> Seq<ParsedChunkView> {
    ts.map_values(|t: Seq<MTrkEventView>| ParsedChunkView::Track(t))
}

/// The framed-track bytes are the chunk-sequence bytes of the framed tracks.
proof fn lemma_framed_tracks_as_chunks(ts: Seq<Seq<MTrkEventView>>)
    ensures
        framed_tracks_bytes(ts) == raw_midi_bytes(track_chunks(ts)),
    decreases ts.len(),
{
    let cs = track_chunks(ts);
    if ts.len() == 0 {
        assert(framed_tracks_bytes(ts) =~= raw_midi_bytes(cs));
    } else {
        lemma_framed_tracks_as_chunks(ts.skip(1));
        assert(cs[0] == ParsedChunkView::Track(ts[0]));
        assert(cs.skip(1) =~= track_chunks(ts.skip(1)));
        assert(framed_tracks_bytes(ts) =~= raw_midi_bytes(cs));
    }
}

/// Collecting framed tracks yields exactly the track payload sequence.
proof fn lemma_collect_track_chunks(ts: Seq<Seq<MTrkEventView>>)
    ensures
        collect_tracks(track_chunks(ts)) == Ok::<Seq<Seq<MTrkEventView>>, MidiSanitizerError>(ts),
    decreases ts.len(),
{
    let cs = track_chunks(ts);
    if ts.len() == 0 {
        assert(Seq::<Seq<MTrkEventView>>::empty() =~= ts);
    } else {
        lemma_collect_track_chunks(ts.skip(1));
        assert(cs[0] == ParsedChunkView::Track(ts[0]));
        assert(cs.skip(1) =~= track_chunks(ts.skip(1)));
        assert(seq![ts[0]] + ts.skip(1) =~= ts);
    }
}

/// A sanitized file whose every part re-encodes to the exact bytes it was
/// decoded from.
pub open spec fn midi_wf(m: MidiView) -> bool {
    &&& parsed_chunk_wf(ParsedChunkView::Header(m.header))
    &&& forall|i: int|
        0 <= i < m.tracks.len() ==> parsed_chunk_wf(ParsedChunkView::Track(#[trigger] m.tracks[i]))
}

/// End-to-end round trip: the bytes a well-formed sanitized file encodes to
/// decode back into its chunks, and sanitizing those chunks gives the file
/// back.
pub proof fn lemma_midi_round_trip(m: MidiView)
    requires
        midi_wf(m),
    ensures
        ({
            let bytes = parsed_chunk_bytes(ParsedChunkView::Header(m.header)) + framed_tracks_bytes(
                m.tracks,
            );
            let chunks = seq![ParsedChunkView::Header(m.header)] + track_chunks(m.tracks);
            &&& raw_midi_scan(bytes) == Ok::<Seq<ParsedChunkView>, ChunkParseError>(chunks)
            &&& sanitize(chunks) == Ok::<MidiView, MidiSanitizerError>(m)
        }),
{
    let chunks = seq![ParsedChunkView::Header(m.header)] + track_chunks(m.tracks);
    let bytes = parsed_chunk_bytes(ParsedChunkView::Header(m.header)) + framed_tracks_bytes(
        m.tracks,
    );
    lemma_framed_tracks_as_chunks(m.tracks);
    assert(chunks[0] == ParsedChunkView::Header(m.header));
    assert(chunks.skip(1) =~= track_chunks(m.tracks));
    assert(bytes =~= raw_midi_bytes(chunks));
    assert(raw_midi_wf(chunks)) by {
        assert(forall|i: int|
            1 <= i < chunks.len() ==> chunks[i] == track_chunks(m.tracks)[i - 1]
                && parsed_chunk_wf(#[trigger] chunks[i]));
    }
    lemma_raw_midi_round_trip(chunks);
    lemma_collect_track_chunks(m.tracks);
    assert(sanitize(chunks).unwrap() =~= m);
}

impl MidiWriteable for Midi {
    open spec fn midi_bytes(self) -> Seq<u8> {
        parsed_chunk_bytes(ParsedChunkView::Header(self.header)) + framed_tracks_bytes(
            self@.tracks,
        )
    }

    fn to_midi_bytes(self) -> (r: Vec<u8>) {
        let ghost ts = self@.tracks;
        let mut res = ParsedChunk::Header(self.header).to_midi_bytes();
        let ghost head = res@;
        let mut rest = self.tracks;
        proof {
            assert(tracks_view(rest@) =~= ts.skip(0));
        }
        while rest.len() > 0
            invariant
                rest@.len() <= ts.len(),
                tracks_view(rest@) == ts.skip((ts.len() - rest@.len()) as int),
                res@ == head + framed_tracks_prefix(ts, (ts.len() - rest@.len()) as int),
            decreases rest.len(),
        {
            let ghost k = (ts.len() - rest@.len()) as int;
            let track = rest.remove(0);
            proof {
                assert(ts.skip(k)[0] == ts[k]);
                assert(track@ == ts[k]);
                assert(tracks_view(rest@) =~= ts.skip(k).skip(1));
                assert(ts.skip(k).skip(1) =~= ts.skip(k + 1));
            }
            let wrapped = ParsedChunk::Track(track);
            let mut tb = wrapped.to_midi_bytes();
            res.append(&mut tb);
            proof {
                assert(res@ =~= head + framed_tracks_prefix(ts, k + 1));
            }
        }
        proof {
            lemma_framed_tracks_split(ts, ts.len() as int);
            assert(ts.skip(ts.len() as int) =~= Seq::<Seq<MTrkEventView>>::empty());
            assert(res@ =~= self.midi_bytes());
        }
        res
    }
}

} // verus!
