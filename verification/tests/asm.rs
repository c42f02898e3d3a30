use midiasm::midi::model::{
    ControlChangeMessage, Control, Event, EventData, FileHeader, Message, MetaEventData, MetaType,
    MidiEventData, NoteMessage, SmfFormat, StandardMidiFile, SysExEventData, SystemEventData,
    Track, U4, U7,
};
use midiasm::midi::rw_asm::{read_asm, try_read_asm, write_asm, Error};

fn u7(v: u8) -> U7 {
    U7::from_base_type(v)
}

fn note_on(delta_time: u32, note: u8, value: u8) -> Event {
    Event {
        delta_time,
        data: EventData::Midi(MidiEventData {
            channel: U4::from_base_type(0),
            message: Message::NoteOn(NoteMessage { note: u7(note), value: u7(value) }),
        }),
    }
}

fn sample_file() -> StandardMidiFile {
    StandardMidiFile {
        header: FileHeader { format: SmfFormat::MultiTrack, track_count: 1, division: 96 },
        tracks: vec![Track {
            events: vec![
                note_on(0, 60, 64),
                note_on(96, 60, 0),
                Event { delta_time: 0, data: EventData::Meta(MetaEventData { meta_type: MetaType::EndOfTrack, data: vec![] }) },
            ],
        }],
    }
}

#[test]
fn reads_with_comments_and_whitespace() {
    let text = "# a comment\nfmt 1\n  div\t96  \n\ntrk\nch 0 non 60 64\n96 ch  0 non 0x3C 0 # note off\nmta 0b10_1111\n";
    assert_eq!(read_asm(text).unwrap(), sample_file());
}

#[test]
fn writes_sample() {
    assert_eq!(write_asm(&sample_file()).unwrap(), "fmt 1\ndiv 96\ntrk\nch 0 non 60 64\n96 ch 0 non 60 0\nmta 47\n");
}

#[test]
fn roundtrip_sample() {
    let text = write_asm(&sample_file()).unwrap();
    assert_eq!(read_asm(&text).unwrap(), sample_file());
}

#[test]
fn writes_bytes_in_hex_and_negative_division() {
    let smf = StandardMidiFile {
        header: FileHeader { format: SmfFormat::Other(5), track_count: 2, division: -7680 },
        tracks: vec![
            Track { events: vec![Event { delta_time: 7, data: EventData::SysEx(SysExEventData { data: vec![0x43, 0x0A, 0xF7] }) }] },
            Track {
                events: vec![
                    Event { delta_time: 0, data: EventData::Meta(MetaEventData { meta_type: MetaType::Other(u7(0x60)), data: vec![0xFF] }) },
                    Event { delta_time: 0, data: EventData::Midi(MidiEventData { channel: U4::from_base_type(15), message: Message::ControlChange(ControlChangeMessage { control: Control::Sustain, value: u7(127) }) }) },
                    Event { delta_time: 0, data: EventData::System(SystemEventData::TimingClock) },
                ],
            },
        ],
    };
    let text = write_asm(&smf).unwrap();
    assert_eq!(text, "fmt 5\ndiv -7680\ntrk\n7 syx 0x43 0x0A 0xF7\ntrk\nmta 96 0xFF\nch 15 cch 64 127\ntcl\n");
    assert_eq!(read_asm(&text).unwrap(), smf);
}

#[test]
fn raw_sysex_line() {
    let smf = StandardMidiFile {
        header: FileHeader { format: SmfFormat::SingleTrack, track_count: 1, division: 1 },
        tracks: vec![Track { events: vec![Event { delta_time: 0, data: EventData::RawSysEx(SysExEventData { data: vec![0x01] }) }] }],
    };
    assert_eq!(write_asm(&smf).unwrap(), "fmt 0\ndiv 1\ntrk\nrsx\n 0x01\n");
}

#[test]
fn numbers_in_every_radix() {
    let smf = read_asm("fmt +2\ndiv 0x_10\ntrk\n1_000 ch 0b1 pbd 0x3FFF\nrsx 255 0xff\n").unwrap();
    assert!(matches!(smf.header.format, SmfFormat::MultiPattern));
    assert_eq!(smf.header.division, 16);
    assert_eq!(smf.tracks[0].events[0].delta_time, 1000);
    assert_eq!(smf.tracks[0].events[1].data, EventData::RawSysEx(SysExEventData { data: vec![0xFF, 0xFF] }));
    assert_eq!(read_asm("fmt 0\ndiv -32768\ntrk\n").unwrap().header.division, -32768);
}

#[test]
fn tracks_and_empty_text() {
    let smf = read_asm("fmt 1\ndiv 1\ntrk\ntrk\ntcd 3 4\ntrk\n").unwrap();
    assert_eq!(smf.header.track_count, 3);
    assert_eq!(smf.tracks.len(), 3);
    assert!(smf.tracks[0].events.is_empty());
    match read_asm("") {
        Err(Error::ExpectedHeader { line_number, expected_mnemonic, obtained_mnemonic }) => {
            assert_eq!(line_number, 0);
            assert_eq!(expected_mnemonic, "fmt");
            assert_eq!(obtained_mnemonic, "");
        },
        other => panic!("unexpected result {:?}", other),
    }
    match read_asm("fmt 1\n") {
        Err(Error::ExpectedHeader { line_number, expected_mnemonic, .. }) => {
            assert_eq!(line_number, 1);
            assert_eq!(expected_mnemonic, "div");
        },
        other => panic!("unexpected result {:?}", other),
    }
}

#[test]
fn asm_header_errors() {
    match read_asm("div 1\n") {
        Err(Error::ExpectedHeader { line_number, expected_mnemonic, obtained_mnemonic }) => {
            assert_eq!((line_number, expected_mnemonic), (1, "fmt"));
            assert_eq!(obtained_mnemonic, "div");
        },
        other => panic!("unexpected result {:?}", other),
    }
    match read_asm("fmt 1\n\nch 0 non 1 2\n") {
        Err(Error::ExpectedHeader { line_number, expected_mnemonic, obtained_mnemonic }) => {
            assert_eq!((line_number, expected_mnemonic), (3, "div"));
            assert_eq!(obtained_mnemonic, "ch");
        },
        other => panic!("unexpected result {:?}", other),
    }
    match read_asm("fmt 1\ndiv 1\ntcl\n") {
        Err(Error::ExpectedHeader { expected_mnemonic, .. }) => assert_eq!(expected_mnemonic, "trk"),
        other => panic!("unexpected result {:?}", other),
    }
    match read_asm("fmt 1 2\n") {
        Err(Error::WrongArgumentCount { line_number, mnemonic, expected, obtained }) => {
            assert_eq!((line_number, mnemonic, expected, obtained), (1, "fmt", 1, 2));
        },
        other => panic!("unexpected result {:?}", other),
    }
}

#[test]
fn argument_and_integer_errors() {
    match read_asm("fmt 1\ndiv 1\ntrk\nch 0 nof 1\n") {
        Err(Error::WrongArgumentCount { line_number, mnemonic, expected, obtained }) => {
            assert_eq!((line_number, mnemonic, expected, obtained), (4, "ch.nof", 4, 3));
        },
        other => panic!("unexpected result {:?}", other),
    }
    match read_asm("fmt 1\ndiv 1\ntrk\nch 0\n") {
        Err(Error::WrongArgumentCount { mnemonic, expected, obtained, .. }) => {
            assert_eq!((mnemonic, expected, obtained), ("ch", 2, 1));
        },
        other => panic!("unexpected result {:?}", other),
    }
    match read_asm("fmt x1\n") {
        Err(Error::InvalidInteger { line_number, integer_string }) => {
            assert_eq!((line_number, integer_string.as_str()), (1, "x1"));
        },
        other => panic!("unexpected result {:?}", other),
    }
    match read_asm("fmt 65536\n") {
        Err(Error::IntegerTooLarge { value, max_value, .. }) => assert_eq!((value, max_value), (65536, 65535)),
        other => panic!("unexpected result {:?}", other),
    }
    match read_asm("fmt 0\ndiv -40000\n") {
        Err(Error::IntegerTooSmall { value, min_value, .. }) => assert_eq!((value, min_value), (-40000, -32768)),
        other => panic!("unexpected result {:?}", other),
    }
    match read_asm("fmt 0\ndiv 40000\n") {
        Err(Error::IntegerTooLarge { value, max_value, .. }) => assert_eq!((value, max_value), (40000, 32767)),
        other => panic!("unexpected result {:?}", other),
    }
    match read_asm("fmt 1\ndiv 1\ntrk\nch 16 non 1 2\n") {
        Err(Error::IntegerTooLarge { value, max_value, .. }) => assert_eq!((value, max_value), (16, 15)),
        other => panic!("unexpected result {:?}", other),
    }
    match read_asm("fmt 1\ndiv 1\ntrk\nfoo\n") {
        Err(Error::UnknownMnemonic { line_number, mnemonic }) => {
            assert_eq!((line_number, mnemonic.as_str()), (4, "foo"));
        },
        other => panic!("unexpected result {:?}", other),
    }
    match read_asm("fmt 1\ndiv 1\ntrk\nch 1 xyz 3\n") {
        Err(Error::UnknownMnemonic { mnemonic, .. }) => assert_eq!(mnemonic, "xyz"),
        other => panic!("unexpected result {:?}", other),
    }
    match read_asm("fmt 1\ndiv 1\ntrk\nsyx 0x100\n") {
        Err(Error::IntegerTooLarge { value, max_value, .. }) => assert_eq!((value, max_value), (256, 255)),
        other => panic!("unexpected result {:?}", other),
    }
    assert!(Error::ensure_args(3, "trk", 0, 1).is_ok());
    assert!(matches!(Error::ensure_args(3, "trk", 0, 2), Err(Error::WrongArgumentCount { obtained: 1, .. })));
}

#[test]
fn lone_delta_time_gives_up() {
    assert!(try_read_asm("fmt 1\ndiv 1\ntrk\n5\n").is_none());
    assert!(try_read_asm("fmt 1\ndiv 1\ntrk\n").is_some());
}

#[test]
fn write_track_count_mismatch() {
    let mut smf = sample_file();
    smf.header.track_count = 0;
    match write_asm(&smf) {
        Err(Error::TrackCountMismatch { header, file }) => assert_eq!((header, file), (0, 1)),
        other => panic!("unexpected result {:?}", other),
    }
}

#[test]
fn asm_error_messages() {
    let e = Error::ExpectedHeader { line_number: 3, expected_mnemonic: "div", obtained_mnemonic: "trk".to_string() };
    assert_eq!(e.message(), "line 3: expected header mnemonic \"div\", obtained \"trk\"");
    let e = Error::WrongArgumentCount { line_number: 12, mnemonic: "ch.nof", expected: 4, obtained: 3 };
    assert_eq!(e.message(), "line 12: mnemonic \"ch.nof\" expects 4 arguments, obtained 3");
    let e = Error::InvalidInteger { line_number: 1, integer_string: "0x\"z\n".to_string() };
    assert_eq!(e.message(), "line 1: invalid integer \"0x\\\"z\\n\"");
    let e = Error::IntegerTooLarge { line_number: 7, value: 300, max_value: 255 };
    assert_eq!(e.message(), "line 7: integer 300 too large (maximum 255 allowed)");
    let e = Error::IntegerTooSmall { line_number: 2, value: -40000, min_value: -32768 };
    assert_eq!(e.message(), "line 2: integer -40000 too small (minimum -32768 allowed)");
    let e = Error::IntegerTooSmall { line_number: 2, value: i64::MIN, min_value: 0 };
    assert_eq!(e.message(), "line 2: integer -9223372036854775808 too small (minimum 0 allowed)");
    let e = Error::UnknownMnemonic { line_number: 5, mnemonic: "xyz".to_string() };
    assert_eq!(e.message(), "line 5: unknown mnemonic \"xyz\"");
    let e = Error::TrackCountMismatch { header: 0, file: 1 };
    assert_eq!(e.message(), "track number mismatch between header (0) and file (1)");
    let io = Error::Io(std::io::Error::from(std::io::ErrorKind::UnexpectedEof));
    assert!(io.message().starts_with("I/O error: "));
}

#[test]
fn asm_error_source_and_from_io() {
    let e: Error = std::io::Error::from(std::io::ErrorKind::InvalidData).into();
    assert!(matches!(e, Error::Io(_)));
    assert_eq!(e.source().map(|x| x.kind()), Some(std::io::ErrorKind::InvalidData));
    assert!(Error::UnknownMnemonic { line_number: 1, mnemonic: "x".to_string() }.source().is_none());
}
