use miami::chunk::track::meta::{KeySignature, MetaEvent, SmpteOffset, TimeSignature};
use miami::chunk::track::TrackError;
use miami::cursor::ByteCursor;
use miami::writer::MidiWriteable;

fn parse_meta(data: Vec<u8>) -> Result<MetaEvent, TrackError> {
    MetaEvent::try_from(&mut ByteCursor::new(data))
}

#[test]
fn test_sequence_number() {
    let data = vec![0xFF, 0x00, 0x02, 0x00, 0x01]; // Tag: 0x00, Length: 2, Value: [0x00, 0x01]
    let result = parse_meta(data).unwrap();
    assert_eq!(result, MetaEvent::SequenceNumber(1));
}

#[test]
fn test_text_event() {
    let data = vec![0xFF, 0x01, 0x05, b'H', b'e', b'l', b'l', b'o']; // Tag: 0x01, Length: 5, Value: "Hello"
    let result = parse_meta(data).unwrap();
    assert_eq!(result, MetaEvent::Text("Hello".to_string()));
}

#[test]
fn test_copyright_event() {
    let data = vec![
        0xFF, 0x02, 0x0A, b'C', b'o', b'p', b'y', b'r', b'i', b'g', b'h', b't',
    ];
    let result = parse_meta(data).unwrap();
    assert_eq!(result, MetaEvent::Copyright("Copyright".to_string()));
}

#[test]
fn test_tempo_event() {
    let data = vec![0xFF, 0x51, 0x03, 0x07, 0xA1, 0x20]; // Tag: 0x51, Length: 3, Tempo: 500,000 microseconds/quarter note
    let result = parse_meta(data).unwrap();
    assert_eq!(result, MetaEvent::Tempo(500_000));
}

#[test]
fn test_time_signature_event() {
    let data = vec![0xFF, 0x58, 0x04, 0x04, 0x02, 0x18, 0x08]; // Tag: 0x58, Length: 4
    let result = parse_meta(data).unwrap();
    assert_eq!(
        result,
        MetaEvent::TimeSignature(TimeSignature {
            numerator: 4,
            denominator: 4, // 2^2 = 4
            clocks_per_tick: 24,
            thirty_second_notes_per_quarter: 8,
        })
    );
}

#[test]
fn test_key_signature_event() {
    let data = vec![0xFF, 0x59, 0x02, 0x00, 0x00]; // Tag: 0x59, Length: 2, C Major
    let result = parse_meta(data).unwrap();
    assert_eq!(
        result,
        MetaEvent::KeySignature(KeySignature {
            sharps_flats: 0,
            major_minor: false,
        })
    );
}

#[test]
fn test_smpte_offset_event() {
    let data = vec![0xFF, 0x54, 0x05, 0x01, 0x20, 0x15, 0x10, 0x00]; // Tag: 0x54, Length: 5
    let result = parse_meta(data).unwrap();
    assert_eq!(
        result,
        MetaEvent::SmpteOffset(SmpteOffset {
            hours: 1,
            minutes: 32,
            seconds: 21,
            frames: 16,
            subframes: 0,
        })
    );
}

#[test]
fn test_end_of_track_event() {
    let data = vec![0xFF, 0x2F, 0x00]; // Tag: 0x2F, Length: 0
    let result = parse_meta(data).unwrap();
    assert_eq!(result, MetaEvent::EndOfTrack);
}

#[test]
fn test_unknown_event() {
    let data = vec![0xFF, 0x99, 0x03, 0x01, 0x02, 0x03]; // Unknown Tag: 0x99
    let result = parse_meta(data).unwrap();
    assert_eq!(result, MetaEvent::UnknownRaw(0x99, vec![0x01, 0x02, 0x03]));
}

#[test]
fn test_invalid_length() {
    let data = vec![0xFF, 0x00, 0x02, 0x02]; // Tag: 0x00, Length: 2, but only 1 byte provided
    let result = parse_meta(data);
    assert_eq!(result, Err(TrackError::InvalidMetaEventData));
}

#[test]
fn test_out_of_space() {
    let data = vec![]; // Empty data
    let result = parse_meta(data);
    assert_eq!(result, Err(TrackError::OutOfSpace));
}

#[test]
fn meta_event_backwards_parses_to_bytes() {
    let expected = MetaEvent::KeySignature(KeySignature {
        sharps_flats: 0,
        major_minor: false,
    });

    let bytes = expected.clone().to_midi_bytes();

    let result = parse_meta(bytes).unwrap();
    assert_eq!(result, expected);
}

#[test]
fn meta_test_sequence_number() {
    let data = vec![0xFF, 0x00, 0x02, 0x00, 0x01];
    let result = parse_meta(data).unwrap();
    assert_eq!(result, MetaEvent::SequenceNumber(1));
}

#[test]
fn meta_test_text_event() {
    let data = vec![0xFF, 0x01, 0x05, b'H', b'e', b'l', b'l', b'o'];
    let result = parse_meta(data).unwrap();
    assert_eq!(result, MetaEvent::Text("Hello".to_string()));
}

#[test]
fn meta_test_copyright_event() {
    let data = vec![
        0xFF, 0x02, 0x0A, b'C', b'o', b'p', b'y', b'r', b'i', b'g', b'h', b't',
    ];
    let result = parse_meta(data).unwrap();
    assert_eq!(result, MetaEvent::Copyright("Copyright".to_string()));
}

#[test]
fn meta_test_tempo_event() {
    let data = vec![0xFF, 0x51, 0x03, 0x07, 0xA1, 0x20];
    let result = parse_meta(data).unwrap();
    assert_eq!(result, MetaEvent::Tempo(500_000));
}

#[test]
fn meta_test_time_signature_event() {
    let data = vec![0xFF, 0x58, 0x04, 0x04, 0x02, 0x18, 0x08];
    let result = parse_meta(data).unwrap();
    assert_eq!(
        result,
        MetaEvent::TimeSignature(TimeSignature {
            numerator: 4,
            denominator: 4,
            clocks_per_tick: 24,
            thirty_second_notes_per_quarter: 8,
        })
    );
}

#[test]
fn meta_test_key_signature_event() {
    let data = vec![0xFF, 0x59, 0x02, 0x00, 0x00];
    let result = parse_meta(data).unwrap();
    assert_eq!(
        result,
        MetaEvent::KeySignature(KeySignature {
            sharps_flats: 0,
            major_minor: false,
        })
    );
}

#[test]
fn meta_test_smpte_offset_event() {
    let data = vec![0xFF, 0x54, 0x05, 0x01, 0x20, 0x15, 0x10, 0x00];
    let result = parse_meta(data).unwrap();
    assert_eq!(
        result,
        MetaEvent::SmpteOffset(SmpteOffset {
            hours: 1,
            minutes: 32,
            seconds: 21,
            frames: 16,
            subframes: 0,
        })
    );
}

#[test]
fn meta_test_end_of_track_event() {
    let data = vec![0xFF, 0x2F, 0x00];
    let result = parse_meta(data).unwrap();
    assert_eq!(result, MetaEvent::EndOfTrack);
}

#[test]
fn meta_test_unknown_event() {
    let data = vec![0xFF, 0x99, 0x03, 0x01, 0x02, 0x03];
    let result = parse_meta(data).unwrap();
    assert_eq!(result, MetaEvent::UnknownRaw(0x99, vec![0x01, 0x02, 0x03]));
}

#[test]
fn meta_test_invalid_length() {
    let data = vec![0xFF, 0x00, 0x02, 0x02];
    let result = parse_meta(data);
    assert_eq!(result, Err(TrackError::InvalidMetaEventData));
}

#[test]
fn meta_test_out_of_space() {
    let data = vec![];
    let result = parse_meta(data);
    assert_eq!(result, Err(TrackError::OutOfSpace));
}

#[test]
fn meta_invalid_utf8_is_rejected() {
    // Tag 0x01 with two bytes that are not valid UTF-8.
    let data = vec![0xFF, 0x01, 0x02, 0xC3, 0x28];
    let result = parse_meta(data);
    assert_eq!(result, Err(TrackError::UtfParseError));
}

#[test]
fn meta_tempo_fixture_reencodes_exactly() {
    let bytes = vec![0xFF, 0x51, 0x03, 0x07, 0xA1, 0x20];
    let event = parse_meta(bytes.clone()).unwrap();
    assert_eq!(event.clone().to_midi_bytes(), bytes);
    assert_eq!(event.get_tag(), 0x51);
}

#[test]
fn meta_time_signature_fixture_reencodes_exactly() {
    let bytes = vec![0xFF, 0x58, 0x04, 0x04, 0x02, 0x18, 0x08];
    let event = parse_meta(bytes.clone()).unwrap();
    assert_eq!(event.clone().to_midi_bytes(), bytes);
}

#[test]
fn meta_unknown_tag_preserved_losslessly() {
    let bytes = vec![0xFF, 0x99, 0x03, 0x01, 0x02, 0x03];
    let event = parse_meta(bytes.clone()).unwrap();
    assert_eq!(event, MetaEvent::UnknownRaw(0x99, vec![0x01, 0x02, 0x03]));
    assert_eq!(event.to_midi_bytes(), bytes);
}

#[test]
fn meta_every_known_tag_round_trips() {
    let events = vec![
        MetaEvent::SequenceNumber(0x1234),
        MetaEvent::Text("some text".to_string()),
        MetaEvent::Copyright("c 2024".to_string()),
        MetaEvent::TrackName("Track 1".to_string()),
        MetaEvent::InstrumentName("Piano".to_string()),
        MetaEvent::Lyric("la la".to_string()),
        MetaEvent::Marker("verse".to_string()),
        MetaEvent::CuePoint(vec![0x01, 0x02]),
        MetaEvent::MidiChannelPrefix(0x05),
        MetaEvent::EndOfTrack,
        MetaEvent::Tempo(500_000),
        MetaEvent::SmpteOffset(SmpteOffset {
            hours: 1,
            minutes: 32,
            seconds: 21,
            frames: 16,
            subframes: 0,
        }),
        MetaEvent::TimeSignature(TimeSignature {
            numerator: 6,
            denominator: 8,
            clocks_per_tick: 24,
            thirty_second_notes_per_quarter: 8,
        }),
        MetaEvent::KeySignature(KeySignature {
            sharps_flats: -3,
            major_minor: true,
        }),
        MetaEvent::SequencerSpecific(vec![0x7D, 0x01]),
        MetaEvent::UnknownRaw(0x99, vec![0x01, 0x02, 0x03]),
    ];
    for event in events {
        let bytes = event.clone().to_midi_bytes();
        let parsed = parse_meta(bytes).unwrap();
        assert_eq!(parsed, event);
    }
}
