use miami::chunk::header::{Division, Format, HeaderChunk, SmpteTicks};
use miami::cursor::ByteCursor;
use miami::reader::{MidiReadable, MidiStream, Yieldable};
use miami::Chunk;

const HEADER_CHUNK_RAW: Chunk = Chunk {
    chunk_type: ['M', 'T', 'h', 'd'],
    length: 6,
};

fn run_mid_header_bytes() -> Vec<u8> {
    // The first chunk of the sample file: an MThd frame with format 1,
    // 10 tracks, metrical division 384.
    vec![
        0x4D, 0x54, 0x68, 0x64, 0x00, 0x00, 0x00, 0x06, 0x00, 0x01, 0x00, 0x0A, 0x01, 0x80,
    ]
}

#[test]
fn parsing_division_to_metrical_works() {
    let test: Division = Division::from(0x000au16);
    let expected = Division::Metrical(10);

    assert_eq!(test, expected)
}

#[test]
fn parsing_division_to_timecode_works() {
    let test: Division = Division::from(0x80FFu16);
    let expected = Division::TimeCodeBased(SmpteTicks { smpte: 0, tpf: 255 });

    assert_eq!(test, expected);

    let test: Division = Division::from(0xFFE8u16);
    let expected = Division::TimeCodeBased(SmpteTicks {
        smpte: -1,
        tpf: 232,
    });

    assert_eq!(test, expected);

    let test: Division = Division::from(0x8bFFu16);
    let expected = Division::TimeCodeBased(SmpteTicks {
        smpte: -117,
        tpf: 255,
    });

    assert_eq!(test, expected)
}

#[test]
fn header_parsing_division_to_metrical_works() {
    let test: Division = Division::from(0x000au16);
    let expected = Division::Metrical(10);

    assert_eq!(test, expected)
}

#[test]
fn header_parsing_division_to_timecode_works() {
    let test: Division = Division::from(0x80FFu16);
    let expected = Division::TimeCodeBased(SmpteTicks { smpte: 0, tpf: 255 });

    assert_eq!(test, expected);

    let test: Division = Division::from(0xFFE8u16);
    let expected = Division::TimeCodeBased(SmpteTicks {
        smpte: -1,
        tpf: 232,
    });

    assert_eq!(test, expected);

    let test: Division = Division::from(0x8bFFu16);
    let expected = Division::TimeCodeBased(SmpteTicks {
        smpte: -117,
        tpf: 255,
    });

    assert_eq!(test, expected)
}

#[test]
fn parsed_parsing_division_to_metrical_works() {
    let test: Division = Division::from(0x000au16);
    let expected = Division::Metrical(10);

    assert_eq!(test, expected)
}

#[test]
fn parsed_parsing_division_to_timecode_works() {
    let test: Division = Division::from(0x80FFu16);
    let expected = Division::TimeCodeBased(SmpteTicks { smpte: 0, tpf: 255 });

    assert_eq!(test, expected);

    let test: Division = Division::from(0xFFE8u16);
    let expected = Division::TimeCodeBased(SmpteTicks {
        smpte: -1,
        tpf: 232,
    });

    assert_eq!(test, expected);

    let test: Division = Division::from(0x8bFFu16);
    let expected = Division::TimeCodeBased(SmpteTicks {
        smpte: -117,
        tpf: 255,
    });

    assert_eq!(test, expected)
}

fn read_header_chunk() -> HeaderChunk {
    let mut data = miami::reader::MidiData(run_mid_header_bytes())
        .get_midi_bytes()
        .expect("Get `run.midi` file and stream bytes");

    let (header, payload) = data.read_chunk_data_pair().expect("Get chunk and data");

    let header: Chunk = header;
    assert_eq!(header, HEADER_CHUNK_RAW);

    // Now we try reading the next 6 bytes as [u16; 3]
    let mut payload = payload.iter();
    let mut packets = vec![];
    while let Some(first) = payload.next() {
        if let Some(second) = payload.next() {
            let bytes = [*first, *second];
            let packet = u16::from_be_bytes(bytes);
            packets.push(packet);
        }
    }

    assert!(packets.len() == 3);

    HeaderChunk::try_from((packets[0], packets[1], packets[2]))
        .expect("Parse header chunk from payload packets")
}

#[test]
fn header_chunk_reads_properly() {
    let header_chunk = read_header_chunk();
    let expected = HeaderChunk {
        format: Format::One,
        ntrks: 10,
        division: Division::Metrical(384),
    };

    assert_eq!(expected, header_chunk)
}

#[test]
fn header_header_chunk_reads_properly() {
    let header_chunk = read_header_chunk();
    let expected = HeaderChunk {
        format: Format::One,
        ntrks: 10,
        division: Division::Metrical(384),
    };

    assert_eq!(expected, header_chunk)
}

#[test]
fn yieldable_get_takes_up_to_n_bytes() {
    let mut cursor = ByteCursor::new(vec![1, 2, 3]);
    // A full read returns exactly n elements and advances past them.
    assert_eq!(cursor.get(2), vec![1, 2]);
    // A read past the end returns the remaining elements, never errors.
    assert_eq!(cursor.get(5), vec![3]);
    // An exhausted source yields nothing.
    assert_eq!(cursor.get(4), Vec::<u8>::new());
}

#[test]
fn header_cursor_survives_partial_reads() {
    let mut cursor = ByteCursor::new(run_mid_header_bytes());
    let first = cursor.take_n(4);
    assert_eq!(first, vec![0x4D, 0x54, 0x68, 0x64]);
    assert_eq!(cursor.take_one(), Some(0x00));
    let rest = cursor.take_n(100);
    assert_eq!(rest.len(), 9);
    assert_eq!(cursor.take_one(), None);
}
