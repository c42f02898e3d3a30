use midiasm::midi::model::{
    ChannelValueMessage, Control, ControlChangeMessage, Event, EventData, FileHeader, Message,
    MetaEventData, MetaType, MidiEventData, NoteMessage, PitchBendMessage, SmfFormat,
    SongPositionData, StandardMidiFile, SysExEventData, SystemEventData, TimeCodeData, Track, U14,
    U3, U4, U7,
};
use midiasm::midi::rw_smf::{read_smf, try_write_smf, write_smf, Error};

fn u4(v: u8) -> U4 {
    U4::from_base_type(v)
}

fn u7(v: u8) -> U7 {
    U7::from_base_type(v)
}

fn note_on(delta_time: u32, note: u8, value: u8) -> Event {
    Event {
        delta_time,
        data: EventData::Midi(MidiEventData {
            channel: u4(0),
            message: Message::NoteOn(NoteMessage { note: u7(note), value: u7(value) }),
        }),
    }
}

fn end_of_track() -> Event {
    Event { delta_time: 0, data: EventData::Meta(MetaEventData { meta_type: MetaType::EndOfTrack, data: vec![] }) }
}

fn sample_bytes() -> Vec<u8> {
    vec![
        0x4D, 0x54, 0x68, 0x64, 0x00, 0x00, 0x00, 0x06, 0x00, 0x01, 0x00, 0x01, 0x00, 0x60,
        0x4D, 0x54, 0x72, 0x6B, 0x00, 0x00, 0x00, 0x0B,
        0x00, 0x90, 0x3C, 0x40,
        0x60, 0x3C, 0x00,
        0x00, 0xFF, 0x2F, 0x00,
    ]
}

fn sample_file() -> StandardMidiFile {
    StandardMidiFile {
        header: FileHeader { format: SmfFormat::MultiTrack, track_count: 1, division: 96 },
        tracks: vec![Track { events: vec![note_on(0, 60, 64), note_on(96, 60, 0), end_of_track()] }],
    }
}

fn track_file(events: &[u8]) -> Vec<u8> {
    let mut bytes = vec![0x4D, 0x54, 0x68, 0x64, 0x00, 0x00, 0x00, 0x06, 0x00, 0x00, 0x00, 0x01, 0x00, 0x60];
    bytes.extend_from_slice(&[0x4D, 0x54, 0x72, 0x6B, 0x00, 0x00, 0x00, events.len() as u8]);
    bytes.extend_from_slice(events);
    bytes
}

#[test]
fn reads_running_status_and_meta() {
    let smf = read_smf(&sample_bytes()).unwrap();
    assert_eq!(smf, sample_file());
}

#[test]
fn writes_with_explicit_status_bytes() {
    let bytes = write_smf(&sample_file()).unwrap();
    let mut expected = vec![
        0x4D, 0x54, 0x68, 0x64, 0x00, 0x00, 0x00, 0x06, 0x00, 0x01, 0x00, 0x01, 0x00, 0x60,
        0x4D, 0x54, 0x72, 0x6B, 0x00, 0x00, 0x00, 0x0C,
    ];
    expected.extend_from_slice(&[0x00, 0x90, 0x3C, 0x40, 0x60, 0x90, 0x3C, 0x00, 0x00, 0xFF, 0x2F, 0x00]);
    assert_eq!(bytes, expected);
}

#[test]
fn roundtrip_of_every_event_kind() {
    let events = vec![
        Event { delta_time: 0, data: EventData::Midi(MidiEventData { channel: u4(3), message: Message::NoteOff(NoteMessage { note: u7(1), value: u7(2) }) }) },
        Event { delta_time: 1, data: EventData::Midi(MidiEventData { channel: u4(15), message: Message::KeyPressure(NoteMessage { note: u7(127), value: u7(0) }) }) },
        Event { delta_time: 200, data: EventData::Midi(MidiEventData { channel: u4(1), message: Message::ControlChange(ControlChangeMessage { control: Control::Sustain, value: u7(127) }) }) },
        Event { delta_time: 0, data: EventData::Midi(MidiEventData { channel: u4(2), message: Message::ProgramChange(midiasm::midi::model::ProgramChangeMessage { program: u7(5) }) }) },
        Event { delta_time: 0, data: EventData::Midi(MidiEventData { channel: u4(2), message: Message::ChannelPressure(ChannelValueMessage { value: u7(9) }) }) },
        Event { delta_time: 0x0FFF_FFFF, data: EventData::Midi(MidiEventData { channel: u4(9), message: Message::PitchBend(PitchBendMessage { value: U14::from_base_type(0x2001) }) }) },
        Event { delta_time: 0, data: EventData::System(SystemEventData::TimeCode(TimeCodeData { message_type: U3::from_base_type(7), data: u4(10) })) },
        Event { delta_time: 0, data: EventData::System(SystemEventData::SongPosition(SongPositionData { position: U14::from_base_type(16383) })) },
        Event { delta_time: 0, data: EventData::System(SystemEventData::TimingClock) },
        Event { delta_time: 0, data: EventData::System(SystemEventData::ActiveSensing) },
        Event { delta_time: 0, data: EventData::SysEx(SysExEventData { data: vec![0x43, 0x12, 0x00] }) },
        Event { delta_time: 200, data: EventData::RawSysEx(SysExEventData { data: vec![0x43, 0x12, 0x00, 0xF7] }) },
        Event { delta_time: 0, data: EventData::Meta(MetaEventData { meta_type: MetaType::Other(u7(0x60)), data: vec![1, 2, 3] }) },
    ];
    let smf = StandardMidiFile {
        header: FileHeader { format: SmfFormat::Other(7), track_count: 2, division: -7680 },
        tracks: vec![Track { events }, Track { events: vec![] }],
    };
    let bytes = write_smf(&smf).unwrap();
    let back = read_smf(&bytes).unwrap();
    assert_eq!(back, smf);
    assert_eq!(back.header.division, -7680);
}

#[test]
fn pitch_bend_bytes() {
    let smf = StandardMidiFile {
        header: FileHeader { format: SmfFormat::SingleTrack, track_count: 1, division: 1 },
        tracks: vec![Track { events: vec![Event { delta_time: 0, data: EventData::Midi(MidiEventData { channel: u4(1), message: Message::PitchBend(PitchBendMessage { value: U14::from_base_type(0x2001) }) }) }] }],
    };
    let bytes = write_smf(&smf).unwrap();
    assert_eq!(&bytes[22..], &[0x00, 0xE1, 0x01, 0x40]);
}

#[test]
fn controller_numbers_are_canonical_after_reading() {
    // control 64 written as Other(64) comes back as Sustain, which compares equal
    let smf = StandardMidiFile {
        header: FileHeader { format: SmfFormat::Other(0), track_count: 1, division: 1 },
        tracks: vec![Track { events: vec![Event { delta_time: 0, data: EventData::Midi(MidiEventData { channel: u4(0), message: Message::ControlChange(ControlChangeMessage { control: Control::Other(u7(64)), value: u7(1) }) }) }] }],
    };
    let back = read_smf(&write_smf(&smf).unwrap()).unwrap();
    assert_eq!(back, smf);
    assert!(matches!(back.header.format, SmfFormat::SingleTrack));
    match &back.tracks[0].events[0].data {
        EventData::Midi(m) => match m.message {
            Message::ControlChange(c) => assert!(matches!(c.control, Control::Sustain)),
            _ => panic!("unexpected message"),
        },
        _ => panic!("unexpected event"),
    }
}

#[test]
fn smf_header_errors() {
    assert!(matches!(read_smf(&[]), Err(Error::Io(_))));
    assert!(matches!(read_smf(&[0x4D, 0x54]), Err(Error::Io(_))));
    match read_smf(&[0x4D, 0x54, 0x68, 0x65, 0, 0, 0, 6]) {
        Err(Error::UnexpectedHeaderChunk { expected, obtained }) => {
            assert_eq!(expected, *b"MThd");
            assert_eq!(obtained, *b"MThe");
        },
        other => panic!("unexpected result {:?}", other),
    }
    match read_smf(&[0x4D, 0x54, 0x68, 0x64, 0, 0, 0, 7]) {
        Err(Error::UnexpectedHeaderLength { expected, obtained }) => {
            assert_eq!(expected, 6);
            assert_eq!(obtained, 7);
        },
        other => panic!("unexpected result {:?}", other),
    }
    assert!(matches!(read_smf(&[0x4D, 0x54, 0x68, 0x64, 0, 0, 0, 6, 0, 0]), Err(Error::Io(_))));
    // a header announcing one track, with no track
    assert!(matches!(read_smf(&[0x4D, 0x54, 0x68, 0x64, 0, 0, 0, 6, 0, 0, 0, 1, 0, 0x60]), Err(Error::Io(_))));
}

#[test]
fn track_errors() {
    let mut bytes = track_file(&[0x00, 0xFF, 0x2F, 0x00]);
    bytes[17] = 0x6C;
    match read_smf(&bytes) {
        Err(Error::UnexpectedTrackChunk { expected, obtained }) => {
            assert_eq!(expected, *b"MTrk");
            assert_eq!(obtained, *b"MTrl");
        },
        other => panic!("unexpected result {:?}", other),
    }
    let mut short = track_file(&[0x00, 0xFF, 0x2F, 0x00]);
    short.pop();
    assert!(matches!(read_smf(&short), Err(Error::Io(_))));
    assert!(matches!(read_smf(&track_file(&[0x00])), Err(Error::EmptyEvent)));
    assert!(matches!(read_smf(&track_file(&[0x00, 0x3C])), Err(Error::UnknownPreviousEvent)));
    assert!(matches!(read_smf(&track_file(&[0x00, 0x90, 0x3C])), Err(Error::NotEnoughParameters)));
    assert!(matches!(read_smf(&track_file(&[0x00, 0x90, 0x3C, 0x80])), Err(Error::ParameterHighBitSet)));
    assert!(matches!(read_smf(&track_file(&[0x00, 0xF0, 0x05, 0x01])), Err(Error::MoreLengthThanData)));
    assert!(matches!(read_smf(&track_file(&[0x00, 0xF4])), Err(Error::UnknownMessage { status_byte: 0xF4 })));
    assert!(matches!(read_smf(&track_file(&[0x00, 0xFF, 0x2F, 0x81])), Err(Error::UnterminatedVariableLengthQuantity)));
    assert!(matches!(read_smf(&track_file(&[0x90, 0x80, 0x80, 0x80, 0x01])), Err(Error::VariableLengthQuantityTooLarge { .. })));
}

#[test]
fn system_messages_read_as_documented() {
    let smf = read_smf(&track_file(&[0x00, 0xF8, 0x00, 0xF6, 0x00, 0xF1, 0x7A, 0x00, 0xF3, 0x05])).unwrap();
    let kinds: Vec<EventData> = smf.tracks[0].events.iter().map(|e| e.data.clone()).collect();
    assert_eq!(kinds[0], EventData::System(SystemEventData::TimingClock));
    assert_eq!(kinds[1], EventData::System(SystemEventData::TuneRequest));
    assert_eq!(kinds[2], EventData::System(SystemEventData::TimeCode(TimeCodeData { message_type: U3::from_base_type(7), data: u4(10) })));
    assert_eq!(kinds[3], EventData::System(SystemEventData::SongSelect(midiasm::midi::model::SongSelectData { song: u7(5) })));
}

#[test]
fn meta_status_is_running_status() {
    // after a meta event, a data byte continues with status 0xFF
    let smf = read_smf(&track_file(&[0x00, 0xFF, 0x01, 0x01, 0x41, 0x00, 0x02, 0x00])).unwrap();
    assert_eq!(smf.tracks[0].events.len(), 2);
    assert_eq!(smf.tracks[0].events[1].data, EventData::Meta(MetaEventData { meta_type: MetaType::Copyright, data: vec![] }));
}

#[test]
fn write_errors() {
    let mut smf = sample_file();
    smf.header.track_count = 2;
    match write_smf(&smf) {
        Err(Error::TrackCountMismatch { header, file }) => {
            assert_eq!(header, 2);
            assert_eq!(file, 1);
        },
        other => panic!("unexpected result {:?}", other),
    }
    assert!(matches!(try_write_smf(&smf), Some(Err(Error::TrackCountMismatch { header: 2, file: 1 }))));
    assert!(matches!(try_write_smf(&sample_file()), Some(Ok(_))));
}

#[test]
fn ensure_helpers() {
    assert!(Error::ensure_header_chunk(*b"MThd", *b"MThd").is_ok());
    assert!(matches!(Error::ensure_header_chunk(*b"MThd", *b"RIFF"), Err(Error::UnexpectedHeaderChunk { .. })));
    assert!(Error::ensure_header_length(6, 6).is_ok());
    assert!(matches!(Error::ensure_header_length(6, 8), Err(Error::UnexpectedHeaderLength { expected: 6, obtained: 8 })));
    assert!(Error::ensure_track_chunk(*b"MTrk", *b"MTrk").is_ok());
    assert!(matches!(Error::ensure_track_chunk(*b"MTrk", *b"MThd"), Err(Error::UnexpectedTrackChunk { .. })));
}

#[test]
fn smf_error_messages() {
    let e = Error::UnexpectedHeaderChunk { expected: *b"MThd", obtained: [0, 1, 2, 255] };
    assert_eq!(e.message(), "expected header chunk [77, 84, 104, 100], obtained [0, 1, 2, 255]");
    let e = Error::UnexpectedHeaderLength { expected: 6, obtained: 7 };
    assert_eq!(e.message(), "expected header length 6, obtained 7");
    let e = Error::UnexpectedTrackChunk { expected: *b"MTrk", obtained: *b"MThd" };
    assert_eq!(e.message(), "expected track chunk [77, 84, 114, 107], obtained [77, 84, 104, 100]");
    let e = Error::VariableLengthQuantityTooLarge { maximum: 0xFFFF_FFFF, obtained: 0x7_FFFF_FF80 };
    assert_eq!(e.message(), "variable-length quantity 0x7FFFFFF80 too large; maximum allowed is 0xFFFFFFFF");
    assert_eq!(Error::UnterminatedVariableLengthQuantity.message(), "variable-length quantity not terminated correctly");
    assert_eq!(Error::EmptyEvent.message(), "MIDI event with no values");
    assert_eq!(
        Error::UnknownPreviousEvent.message(),
        "MIDI event without a status byte and no previous status byte known"
    );
    assert_eq!(Error::NotEnoughParameters.message(), "event with too few parameters");
    assert_eq!(
        Error::ParameterHighBitSet.message(),
        "a required parameter has the high bit set (declares itself a status byte)"
    );
    assert_eq!(Error::MoreLengthThanData.message(), "length value is greater than the amount of remaining data");
    assert_eq!(Error::UnknownMessage { status_byte: 0x0F }.message(), "unknown message with status byte 0x0F");
    assert_eq!(Error::UnknownMessage { status_byte: 0xF4 }.message(), "unknown message with status byte 0xF4");
    assert_eq!(
        Error::TrackCountMismatch { header: 2, file: 1 }.message(),
        "track number mismatch between header (2) and file (1)"
    );
    let io = Error::Io(std::io::Error::from(std::io::ErrorKind::UnexpectedEof));
    assert!(io.message().starts_with("I/O error: "));
    assert!(io.message().len() > "I/O error: ".len());
}

#[test]
fn smf_error_source_and_from_io() {
    let e: Error = std::io::Error::from(std::io::ErrorKind::UnexpectedEof).into();
    assert!(matches!(e, Error::Io(_)));
    assert_eq!(e.source().map(|x| x.kind()), Some(std::io::ErrorKind::UnexpectedEof));
    assert!(Error::EmptyEvent.source().is_none());
    assert!(Error::TrackCountMismatch { header: 1, file: 0 }.source().is_none());
}

#[test]
fn sysex_split_over_time() {
    let events = [
        0x00, 0xF0, 0x03, 0x43, 0x12, 0x00,
        0x81, 0x48, 0xF7, 0x06, 0x43, 0x12, 0x00, 0x43, 0x12, 0x00,
        0x64, 0xF7, 0x04, 0x43, 0x12, 0x00, 0xF7,
    ];
    let bytes = track_file(&events);
    let expected = Track {
        events: vec![
            Event { delta_time: 0, data: EventData::SysEx(SysExEventData { data: vec![0x43, 0x12, 0x00] }) },
            Event {
                delta_time: 200,
                data: EventData::RawSysEx(SysExEventData { data: vec![0x43, 0x12, 0x00, 0x43, 0x12, 0x00] }),
            },
            Event { delta_time: 100, data: EventData::RawSysEx(SysExEventData { data: vec![0x43, 0x12, 0x00, 0xF7] }) },
        ],
    };
    let smf = read_smf(&bytes).unwrap();
    assert_eq!(smf.tracks, vec![expected]);
    assert_eq!(write_smf(&smf).unwrap(), bytes);
}

#[test]
fn explicit_status_reads_as_running_status() {
    let explicit = track_file(&[0x00, 0x90, 0x3C, 0x40, 0x81, 0x48, 0x90, 0x3C, 0x00]);
    let running = track_file(&[0x00, 0x90, 0x3C, 0x40, 0x81, 0x48, 0x3C, 0x00]);
    let a = read_smf(&explicit).unwrap();
    let b = read_smf(&running).unwrap();
    assert_eq!(a, b);
    assert_eq!(a.tracks[0].events[1], note_on(200, 60, 0));
}
