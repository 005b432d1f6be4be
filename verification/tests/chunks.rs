use miami::chunk::header::{Division, Format, HeaderChunk};
use miami::chunk::{ChunkParseError, ParsedChunk};
use miami::cursor::ByteCursor;
use miami::reader::MidiStream;
use miami::writer::MidiWriteable;
use miami::{Chunk, Midi, MidiSanitizerError, RawMidi};

#[test]
fn chunk_from_raw_u64_behaves_normally() {
    let message = 0x74657374_0000000au64;
    let expected = Chunk {
        chunk_type: ['t', 'e', 's', 't'],
        length: 10,
    };

    assert_eq!(expected, Chunk::from(message))
}

fn test_mid_header_bytes() -> Vec<u8> {
    // The first chunk of the sample file: an MThd frame with format 1,
    // a single track, metrical division 480.
    vec![
        0x4D, 0x54, 0x68, 0x64, 0x00, 0x00, 0x00, 0x06, 0x00, 0x01, 0x00, 0x01, 0x01, 0xE0,
    ]
}

#[test]
fn header_chunk_saves_as_proper_bytes() {
    let mut stream = ByteCursor::new(test_mid_header_bytes());
    let expected = stream
        .read_chunk_data_pair()
        .map(ParsedChunk::try_from)
        .unwrap()
        .unwrap();

    let unparsed: (Chunk, Vec<u8>) = expected.clone().into_chunk_pair();
    let bytes = unparsed.to_midi_bytes();

    let mut new_stream = ByteCursor::new(bytes);
    let new_header = new_stream
        .read_chunk_data_pair()
        .map(ParsedChunk::try_from)
        .unwrap()
        .unwrap();

    assert_eq!(expected, new_header)
}

#[test]
fn unknown_chunk_type_is_rejected() {
    let chunk = Chunk {
        chunk_type: ['X', 'X', 'X', 'X'],
        length: 0,
    };
    let result = ParsedChunk::try_from((chunk, vec![]));
    assert_eq!(result, Err(ChunkParseError::UnknownType));
}

#[test]
fn header_with_bad_format_value_is_rejected() {
    let chunk = Chunk {
        chunk_type: ['M', 'T', 'h', 'd'],
        length: 6,
    };
    let payload = vec![0x00, 0x05, 0x00, 0x01, 0x01, 0xE0];
    let result = ParsedChunk::try_from((chunk, payload));
    assert!(matches!(result, Err(ChunkParseError::InvalidFormat(_))));
}

#[test]
fn header_with_short_payload_is_rejected() {
    let chunk = Chunk {
        chunk_type: ['M', 'T', 'h', 'd'],
        length: 6,
    };
    let result = ParsedChunk::try_from((chunk, vec![0x00, 0x01]));
    assert!(matches!(result, Err(ChunkParseError::InvalidFormat(_))));
}

fn format1_file_bytes() -> Vec<u8> {
    let mut bytes = vec![
        0x4D, 0x54, 0x68, 0x64, 0x00, 0x00, 0x00, 0x06, // MThd, length 6
        0x00, 0x01, // format 1
        0x00, 0x0A, // 10 tracks
        0x01, 0x80, // metrical division 384
    ];
    // One empty track chunk is enough to exercise the stream loop.
    bytes.extend(vec![0x4D, 0x54, 0x72, 0x6B, 0x00, 0x00, 0x00, 0x00]);
    bytes
}

#[test]
fn full_file_header_fields_and_bytes_survive_the_round_trip() {
    let bytes = format1_file_bytes();
    let raw = RawMidi::try_from_midi_stream(ByteCursor::new(bytes.clone()))
        .expect("Parse data as a MIDI stream");
    assert_eq!(raw.chunks.len(), 2);
    let expected_header = HeaderChunk {
        format: Format::One,
        ntrks: 10,
        division: Division::Metrical(384),
    };
    assert_eq!(raw.chunks[0], ParsedChunk::Header(expected_header));

    let midi: Midi = raw
        .clone()
        .check_into_midi()
        .expect("Sanitize MIDI into formatted MIDI");
    assert_eq!(midi.header, expected_header);
    assert_eq!(midi.tracks.len(), 1);

    // Re-encoding reproduces the input byte for byte; the header payload is
    // the same 6-byte payload again.
    assert_eq!(raw.to_midi_bytes(), bytes);
    assert_eq!(
        ParsedChunk::Header(expected_header).into_chunk_pair().1,
        vec![0x00, 0x01, 0x00, 0x0A, 0x01, 0x80]
    );
    assert_eq!(midi.to_midi_bytes(), bytes);
}

#[test]
fn chunk_len_and_is_empty_follow_the_length_field() {
    let chunk = Chunk {
        chunk_type: ['M', 'T', 'r', 'k'],
        length: 10,
    };
    assert_eq!(chunk.len(), 10);
    assert!(!chunk.is_empty());
    let empty = Chunk {
        chunk_type: ['M', 'T', 'r', 'k'],
        length: 0,
    };
    assert!(empty.is_empty());
}

#[test]
fn sanitizer_rejects_streams_without_a_leading_header() {
    assert_eq!(
        RawMidi { chunks: vec![] }.check_into_midi(),
        Err(MidiSanitizerError::NoChunks)
    );

    let track_first = RawMidi {
        chunks: vec![ParsedChunk::Track(
            miami::chunk::track::TrackChunk { mtrk_events: vec![] },
        )],
    };
    assert_eq!(
        track_first.check_into_midi(),
        Err(MidiSanitizerError::NoStartHeader)
    );

    let header = HeaderChunk {
        format: Format::Zero,
        ntrks: 0,
        division: Division::Metrical(96),
    };
    let two_headers = RawMidi {
        chunks: vec![
            ParsedChunk::Header(header),
            ParsedChunk::Header(header),
        ],
    };
    assert_eq!(
        two_headers.check_into_midi(),
        Err(MidiSanitizerError::TooManyHeaders)
    );
}

#[test]
fn broken_track_chunk_fails_the_stream() {
    let mut bytes = vec![
        0x4D, 0x54, 0x68, 0x64, 0x00, 0x00, 0x00, 0x06, 0x00, 0x00, 0x00, 0x00, 0x00, 0x60,
    ];
    // A track chunk whose single event has a data-byte prefix.
    bytes.extend(vec![0x4D, 0x54, 0x72, 0x6B, 0x00, 0x00, 0x00, 0x02, 0x00, 0x50]);
    let result = RawMidi::try_from_midi_stream(ByteCursor::new(bytes));
    assert_eq!(
        result,
        Err(ChunkParseError::TrackParseError(
            miami::chunk::track::TrackError::InvalidFormat
        ))
    );
}
