use miami::chunk::track::event::{ControlChange, MidiStatus, NoteMeta};
use miami::chunk::track::meta::MetaEvent;
use miami::chunk::track::{Event, MTrkEvent, TrackChunk, TrackError};
use miami::cursor::ByteCursor;
use miami::writer::MidiWriteable;

#[test]
fn delta_time_parsed() {
    let mut bytes = ByteCursor::new(vec![0x81, 0x40]);
    let result = MTrkEvent::try_get_delta_time(&mut bytes);

    assert_eq!(result, Some(192))
}

#[test]
fn track_delta_time_parsed() {
    let mut bytes = ByteCursor::new(vec![0x81, 0x40]);
    let result = MTrkEvent::try_get_delta_time(&mut bytes);

    assert_eq!(result, Some(192))
}

#[test]
fn delta_time_backwards_parsed() {
    let time = 192;
    let bytes = MTrkEvent::to_midi_vlq(time);
    let expected = vec![0x81, 0x40];

    assert_eq!(bytes, expected)
}

#[test]
fn midi_event_status_parsing() {
    let status_channel = 0b10001111;
    let key = 0b01010101;
    let velocity = 0b11111111;

    let mut stream = ByteCursor::new(vec![status_channel, key, velocity]);
    let status = MidiStatus::try_from(&mut stream).expect("Parse off note signal");

    let expected = MidiStatus::NoteOff(0x0F, NoteMeta { key, velocity });

    assert_eq!(status, expected)
}

#[test]
fn vlq_zero_encodes_as_one_zero_byte() {
    assert_eq!(MTrkEvent::to_midi_vlq(0), vec![0x00]);
}

#[test]
fn vlq_round_trips_across_the_range() {
    let samples: Vec<u32> = vec![
        0,
        1,
        127,
        128,
        192,
        0x3FFF,
        0x4000,
        0x0FFFFFFF,
        0x10000000,
        u32::MAX,
    ];
    for x in samples {
        let bytes = MTrkEvent::to_midi_vlq(x);
        let mut cursor = ByteCursor::new(bytes);
        assert_eq!(MTrkEvent::try_get_delta_time(&mut cursor), Some(x));
        assert_eq!(cursor.take_one(), None);
    }
}

#[test]
fn msb_check_matches_high_bit() {
    assert!(MTrkEvent::msb_is_one(0x80));
    assert!(MTrkEvent::msb_is_one(0xFF));
    assert!(!MTrkEvent::msb_is_one(0x7F));
    assert!(!MTrkEvent::msb_is_one(0x00));
}

#[test]
fn empty_track_payload_decodes_to_no_events() {
    let track = TrackChunk::try_from(vec![]).expect("Empty payload is a complete track");
    assert!(track.mtrk_events.is_empty());
}

#[test]
fn truncated_delta_time_fails_with_out_of_space() {
    // A delta-time whose continuation bit promises more bytes than exist
    // must fail loudly, not terminate silently.
    let result = TrackChunk::try_from(vec![0x81]);
    assert_eq!(result, Err(TrackError::OutOfSpace));
}

#[test]
fn track_with_channel_and_meta_events_decodes_in_order() {
    let payload = vec![
        0x00, 0x91, 0x3C, 0x40, // delta 0, note on channel 1
        0x81, 0x40, 0x81, 0x3C, 0x00, // delta 192, note off channel 1
        0x00, 0xFF, 0x2F, 0x00, // delta 0, end of track
    ];
    let track = TrackChunk::try_from(payload.clone()).expect("Track decodes");
    assert_eq!(track.mtrk_events.len(), 3);
    assert_eq!(
        track.mtrk_events[0],
        MTrkEvent {
            delta_time: 0,
            event: Event::MidiEvent(MidiStatus::NoteOn(
                1,
                NoteMeta {
                    key: 0x3C,
                    velocity: 0x40
                }
            )),
        }
    );
    assert_eq!(track.mtrk_events[1].delta_time, 192);
    assert_eq!(
        track.mtrk_events[2].event,
        Event::MetaEvent(MetaEvent::EndOfTrack)
    );
    // Re-encoding the whole track reproduces the payload byte for byte.
    assert_eq!(track.to_midi_bytes(), payload);
}

#[test]
fn unsupported_status_nibble_is_rejected() {
    let mut stream = ByteCursor::new(vec![0x70, 0x00]);
    let status = MidiStatus::try_from(&mut stream);
    assert_eq!(
        status,
        Err(TrackError::UnsupportedStatusCode(
            miami::chunk::track::event::UnsupportedStatusCode
        ))
    );
}

#[test]
fn event_dispatcher_rejects_data_byte_prefix() {
    let result = Event::try_from(&mut ByteCursor::new(vec![0x50, 0x01]));
    assert_eq!(result, Err(TrackError::InvalidFormat));
}

#[test]
fn pitch_wheel_combines_low_byte_first() {
    let mut stream = ByteCursor::new(vec![0xE3, 0x34, 0x5D]);
    let status = MidiStatus::try_from(&mut stream).expect("Parse pitch wheel");
    let expected_value: u16 = (0x5D << 7) | 0x34;
    assert_eq!(status, MidiStatus::PitchWheelChange(3, expected_value));
    assert_eq!(status.to_midi_bytes(), vec![0xE3, 0x34, 0x5D]);
}

#[test]
fn channel_messages_reencode_exactly() {
    let cases: Vec<(MidiStatus, Vec<u8>)> = vec![
        (
            MidiStatus::NoteOff(
                15,
                NoteMeta {
                    key: 0x55,
                    velocity: 0xFF,
                },
            ),
            vec![0x8F, 0x55, 0xFF],
        ),
        (
            MidiStatus::PolyphonicKeyPressure(
                2,
                NoteMeta {
                    key: 10,
                    velocity: 20,
                },
            ),
            vec![0xA2, 10, 20],
        ),
        (
            MidiStatus::ControlChange(
                0,
                ControlChange {
                    controller_number: 7,
                    new_value: 100,
                },
            ),
            vec![0xB0, 7, 100],
        ),
        (MidiStatus::ProgramChange(4, 42), vec![0xC4, 42]),
        (MidiStatus::ChannelPressure(9, 33), vec![0xD9, 33]),
    ];
    for (status, bytes) in cases {
        assert_eq!(status.clone().to_midi_bytes(), bytes);
        let parsed = MidiStatus::try_from(&mut ByteCursor::new(bytes)).unwrap();
        assert_eq!(parsed, status);
    }
}

#[test]
fn short_channel_message_is_out_of_space() {
    let result = MidiStatus::try_from(&mut ByteCursor::new(vec![0x90, 0x3C]));
    assert_eq!(result, Err(TrackError::OutOfSpace));
}
