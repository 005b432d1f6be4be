use miami::chunk::track::sysex::{ManufactureId, SysexEvent};
use miami::chunk::track::TrackError;
use miami::cursor::ByteCursor;
use miami::writer::MidiWriteable;

#[test]
fn one_byte_manufature_id() {
    let mut wrapper = ByteCursor::new(vec![0x01, 0x02, 0xFF, 0xFF]);

    let id = ManufactureId::try_from(&mut wrapper).expect("Parse ID from bytes");
    assert_eq!(id, ManufactureId::OneByte(0x01))
}

#[test]
fn three_byte_manufature_id() {
    let mut wrapper = ByteCursor::new(vec![0x00, 0x33, 0xFF, 0xFF]);

    let id = ManufactureId::try_from(&mut wrapper).expect("Parse ID from bytes");
    assert_eq!(id, ManufactureId::ThreeByte([0x00, 0x33, 0xFF]))
}

#[test]
fn byte_parsing_ends_early_if_iterator_runs_out() {
    let mut wrapper = ByteCursor::new(vec![0x00, 0x33]);

    let id = ManufactureId::try_from(&mut wrapper);
    assert_eq!(id, Err(TrackError::OutOfSpace))
}

#[test]
fn sys_ex_message_valid_parse() {
    let mut wrapper = ByteCursor::new(vec![0xF0, 0x01, 0xFF, 0x00, 0x21, 0xF7]);

    let sysex = SysexEvent::try_from(&mut wrapper).expect("Parse sysex message from bytes");
    let expected = SysexEvent {
        manufacture_id: ManufactureId::OneByte(0x01),
        payload: vec![0xFF, 0x00, 0x21],
    };

    assert_eq!(sysex, expected)
}

#[test]
fn sys_ex_message_invalid_parse_failes() {
    let mut wrapper = ByteCursor::new(vec![0xF0, 0x01, 0xFF, 0x00, 0x21]);

    let sysex = SysexEvent::try_from(&mut wrapper);

    assert_eq!(sysex, Err(TrackError::MissingEndOfExclusive))
}

#[test]
fn sys_ex_message_converted_serializes_to_bytes_properly() {
    let mut wrapper = ByteCursor::new(vec![0xF0, 0x01, 0xFF, 0x00, 0x21, 0xF7]);

    let sysex = SysexEvent::try_from(&mut wrapper).expect("Parse sysex message from bytes");

    let expected = sysex.clone();
    let bytes = sysex.to_midi_bytes();
    let mut wrapper = ByteCursor::new(bytes);

    let sysex = SysexEvent::try_from(&mut wrapper).expect("Parse sysex message from bytes");

    assert_eq!(sysex, expected)
}

#[test]
fn sysex_wrong_start_byte_is_rejected() {
    let mut wrapper = ByteCursor::new(vec![0xF1, 0x01, 0xF7]);
    let sysex = SysexEvent::try_from(&mut wrapper);
    assert_eq!(sysex, Err(TrackError::InvalidSysExMessage))
}

#[test]
fn sysex_fixture_reencodes_exactly() {
    let bytes = vec![0xF0, 0x01, 0xFF, 0x00, 0x21, 0xF7];
    let sysex = SysexEvent::try_from(&mut ByteCursor::new(bytes.clone())).unwrap();
    assert_eq!(sysex.manufacture_id, ManufactureId::OneByte(0x01));
    assert_eq!(sysex.payload, vec![0xFF, 0x00, 0x21]);
    assert_eq!(sysex.to_midi_bytes(), bytes);
}

#[test]
fn sysex_three_byte_id_round_trips() {
    let bytes = vec![0xF0, 0x00, 0x41, 0x13, 0x05, 0xF7];
    let sysex = SysexEvent::try_from(&mut ByteCursor::new(bytes.clone())).unwrap();
    assert_eq!(sysex.manufacture_id, ManufactureId::ThreeByte([0x00, 0x41, 0x13]));
    assert_eq!(sysex.payload, vec![0x05]);
    assert_eq!(sysex.to_midi_bytes(), bytes);
}
