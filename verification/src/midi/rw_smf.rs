//! Reading and writing Standard MIDI Files.

use vstd::prelude::*;

use crate::midi::model::{
    ChannelValueMessage, Control, ControlChangeMessage, Event, EventData, EventDataModel,
    EventModel, FileHeader, Message, MetaEventData, MetaType, MidiEventData, NoteMessage,
    PitchBendMessage, ProgramChangeMessage, SmfFormat, SmfModel, SongPositionData, SongSelectData,
    StandardMidiFile, SysExEventData, SystemEventData, TimeCodeData, Track, U14, U3, U4, U7,
    events_canon, events_wf,
};
use crate::midi::rw_asm::{dec, hex_byte, hex_digit, hex_digit_char, push_decimal, push_str, string_from_chars};

verus! {

/// `std::io::Error`, carried through by the `Io` variants of the error types.
#[verifier::external_type_specification]
#[verifier::external_body]
pub struct ExIoError(std::io::Error);

/// Calls `std::io::Error::from(std::io::ErrorKind::UnexpectedEof)`: the error that
/// `Read::read_exact` reports when the input ends before the buffer is filled. Nothing is
/// claimed of the value.
#[verifier::external_body]
fn unexpected_eof_error() -> std::io::Error {
    std::io::Error::from(std::io::ErrorKind::UnexpectedEof)
}

/// What can go wrong while reading or writing a Standard MIDI File.
#[derive(Debug)]
pub enum Error {
    Io(std::io::Error),
    UnexpectedHeaderChunk { expected: [u8; 4], obtained: [u8; 4] },
    UnexpectedHeaderLength { expected: u32, obtained: u32 },
    UnexpectedTrackChunk { expected: [u8; 4], obtained: [u8; 4] },
    VariableLengthQuantityTooLarge { maximum: u64, obtained: u64 },
    UnterminatedVariableLengthQuantity,
    EmptyEvent,
    UnknownPreviousEvent,
    NotEnoughParameters,
    ParameterHighBitSet,
    MoreLengthThanData,
    UnknownMessage { status_byte: u8 },
    TrackCountMismatch { header: u16, file: usize },
}

// ---------------------------------------------------------------------------------------------
// Variable-length quantities
// ---------------------------------------------------------------------------------------------

/// The leading bytes of the encoding of `w`: base-128 digits, most significant first, each with
/// the continuation bit set.
pub open spec fn vlq_prefix(w: nat) -> Seq<u8>
    decreases w,
{
    if w == 0 {
        seq![]
    } else {
        vlq_prefix(w / 128) + seq![(w % 128 + 128) as u8]
    }
}

/// The variable-length quantity encoding of `v`: its base-128 digits, most significant first,
/// the continuation bit set on all but the last.
pub open spec fn vlq_bytes(v: nat) -> Seq<u8> {
    vlq_prefix(v / 128) + seq![(v % 128) as u8]
}

/// Decoding a variable-length quantity from `s`, with `acc` the value of the digits read so far.
pub open spec fn vlq_take_from(s: Seq<u8>, acc: nat) -> Result<(Seq<u8>, u32), Error>
    decreases s.len(),
{
    if s.len() == 0 {
        Err(Error::UnterminatedVariableLengthQuantity)
    } else if acc * 128 > u32::MAX {
        Err(Error::VariableLengthQuantityTooLarge { maximum: 0xFFFF_FFFF, obtained: (acc * 128) as u64 })
    } else if s[0] < 128 {
        Ok((s.drop_first(), (acc * 128 + s[0]) as u32))
    } else {
        vlq_take_from(s.drop_first(), (acc * 128 + (s[0] - 128)) as nat)
    }
}

/// Decoding a variable-length quantity from the front of `s`: the rest of `s` and the value.
pub open spec fn vlq_take(s: Seq<u8>) -> Result<(Seq<u8>, u32), Error> {
    vlq_take_from(s, 0)
}

/// The base-128 digits of `v`, least significant first.
pub open spec fn vlq_digits_lsb_first(v: nat) -> Seq<u8>
    decreases v,
{
    if v == 0 {
        seq![]
    } else {
        seq![(v % 128) as u8] + vlq_digits_lsb_first(v / 128)
    }
}

proof fn lemma_vlq_prefix_digits(w: nat)
    ensures
        vlq_prefix(w) == Seq::new(
            vlq_digits_lsb_first(w).len(),
            |j: int| (vlq_digits_lsb_first(w)[vlq_digits_lsb_first(w).len() - 1 - j] + 128) as u8,
        ),
        forall|j: int| 0 <= j < vlq_digits_lsb_first(w).len() ==> #[trigger] vlq_digits_lsb_first(w)[j] < 128,
    decreases w,
{
    if w > 0 {
        lemma_vlq_prefix_digits(w / 128);
        let d = vlq_digits_lsb_first(w);
        let d2 = vlq_digits_lsb_first(w / 128);
        assert(d == seq![(w % 128) as u8] + d2);
        assert forall|j: int| 0 <= j < d.len() implies #[trigger] d[j] < 128 by {
            if j > 0 {
                assert(d[j] == d2[j - 1]);
            }
        }
        assert(vlq_prefix(w) =~= Seq::new(d.len(), |j: int| (d[d.len() - 1 - j] + 128) as u8));
    }
}

/// Appends the variable-length quantity encoding of `quantity` to `out`.
pub fn write_variable_length_quantity(quantity: u32, out: &mut Vec<u8>)
    ensures
        final(out)@ == old(out)@ + vlq_bytes(quantity as nat),
{
    if quantity == 0 {
        // single zero byte
        out.push(0);
        proof {
            assert(vlq_bytes(0) =~= seq![0u8]);
        }
        return;
    }
    // base-128 digits, least significant first
    let mut buf: Vec<u8> = Vec::new();
    let mut rest: u32 = quantity;
    while rest > 0
        invariant
            vlq_digits_lsb_first(quantity as nat) == buf@ + vlq_digits_lsb_first(rest as nat),
        decreases rest,
    {
        assert((rest & 0b0111_1111u32) == rest % 128) by (bit_vector);
        let value: u8 = (rest & 0b0111_1111u32) as u8;
        proof {
            assert(vlq_digits_lsb_first(rest as nat) == seq![value] + vlq_digits_lsb_first((rest / 128) as nat));
            assert(buf@.push(value) + vlq_digits_lsb_first((rest / 128) as nat) =~= buf@ + (seq![value] + vlq_digits_lsb_first((rest / 128) as nat)));
        }
        buf.push(value);
        assert((rest >> 7u32) == rest / 128) by (bit_vector);
        rest = rest >> 7u32;
    }
    let n = buf.len();
    proof {
        assert(buf@ + vlq_digits_lsb_first(0) =~= buf@);
        lemma_vlq_prefix_digits(quantity as nat / 128);
        assert(vlq_digits_lsb_first(quantity as nat) == seq![(quantity % 128) as u8] + vlq_digits_lsb_first(quantity as nat / 128));
    }
    let ghost prefix_digits = vlq_digits_lsb_first(quantity as nat / 128);
    let ghost out0 = out@;
    let mut j: usize = 0;
    // most significant digit first, continuation bits on all but the last
    while j + 1 < n
        invariant
            n == buf@.len(),
            1 <= n,
            j + 1 <= n,
            buf@ == seq![(quantity % 128) as u8] + prefix_digits,
            forall|k: int| 0 <= k < prefix_digits.len() ==> #[trigger] prefix_digits[k] < 128,
            out@ == out0 + Seq::new(j as nat, |k: int| (prefix_digits[prefix_digits.len() - 1 - k] + 128) as u8),
        decreases n - j,
    {
        let b: u8 = buf[n - 1 - j];
        assert(b == prefix_digits[prefix_digits.len() - 1 - j]);
        assert(b < 128);
        assert(b | 0b1000_0000u8 == b + 128) by (bit_vector)
            requires
                b < 128,
        ;
        out.push(b | 0b1000_0000u8);
        j += 1;
        proof {
            assert(out@ =~= out0 + Seq::new(j as nat, |k: int| (prefix_digits[prefix_digits.len() - 1 - k] + 128) as u8));
        }
    }
    out.push(buf[0]);
    proof {
        assert(out@ =~= old(out)@ + vlq_bytes(quantity as nat));
    }
}

/// Reads a variable-length quantity from the front of `slice`: the rest of the slice and the
/// value.
pub fn take_variable_length_quantity(slice: &[u8]) -> (r: Result<(&[u8], u32), Error>)
    ensures
        match r {
            Ok((rest, value)) => vlq_take(slice@) == Ok::<(Seq<u8>, u32), Error>((rest@, value)),
            Err(e) => vlq_take(slice@) == Err::<(Seq<u8>, u32), Error>(e),
        },
        r matches Ok((rest, _)) ==> rest@.len() < slice@.len(),
{
    let mut value: u32 = 0;
    let mut i: usize = 0;
    assert(slice@.skip(0) =~= slice@);
    while i < slice.len()
        invariant
            i <= slice@.len(),
            vlq_take(slice@) == vlq_take_from(slice@.skip(i as int), value as nat),
        decreases slice@.len() - i,
    {
        let b: u8 = slice[i];
        let byte_value: u8 = b & 0b0111_1111u8;
        assert(b & 0b0111_1111u8 == b % 128) by (bit_vector);
        assert(slice@.skip(i as int)[0] == b);
        assert(slice@.skip(i as int).drop_first() =~= slice@.skip(i + 1));
        if let Some(product) = value.checked_mul(0b1000_0000u32) {
            value = product;
        } else {
            return Err(Error::VariableLengthQuantityTooLarge {
                maximum: 0xFFFF_FFFFu64,
                obtained: (value as u64) * 0b1000_0000u64,
            });
        }
        value = value + byte_value as u32;
        let continue_flag: u8 = b & 0b1000_0000u8;
        assert(continue_flag == 0 <==> b < 128) by (bit_vector)
            requires
                continue_flag == b & 0b1000_0000u8,
        ;
        if continue_flag == 0 {
            return Ok((&slice[(i + 1)..slice.len()], value));
        }
        i += 1;
    }
    // we never saw a low byte and we ran out of bytes
    Err(Error::UnterminatedVariableLengthQuantity)
}

/// Reading back what was written gives the value, and leaves what follows untouched.
pub proof fn lemma_vlq_roundtrip(v: u32, rest: Seq<u8>)
    ensures
        vlq_take(vlq_bytes(v as nat) + rest) == Ok::<(Seq<u8>, u32), Error>((rest, v)),
{
    let w = v as nat / 128;
    lemma_vlq_prefix_take(w, seq![(v % 128) as u8] + rest);
    assert(vlq_bytes(v as nat) + rest =~= vlq_prefix(w) + (seq![(v % 128) as u8] + rest));
    let tail = seq![(v % 128) as u8] + rest;
    assert(tail.drop_first() =~= rest);
}

proof fn lemma_vlq_prefix_take(w: nat, tail: Seq<u8>)
    requires
        w <= u32::MAX / 128,
    ensures
        vlq_take_from(vlq_prefix(w) + tail, 0) == vlq_take_from(tail, w),
    decreases w,
{
    if w > 0 {
        let b = (w % 128 + 128) as u8;
        lemma_vlq_prefix_take(w / 128, seq![b] + tail);
        assert(vlq_prefix(w) + tail =~= vlq_prefix(w / 128) + (seq![b] + tail));
        assert((seq![b] + tail).drop_first() =~= tail);
        assert(w / 128 * 128 + (w % 128) == w);
    } else {
        assert(vlq_prefix(0) + tail =~= tail);
    }
}

// ---------------------------------------------------------------------------------------------
// Encoding events
// ---------------------------------------------------------------------------------------------

/// The status byte of a channel message on channel 0.
pub open spec fn message_status(m: Message) -> u8 {
    match m {
        Message::NoteOff(_) => 0x80,
        Message::NoteOn(_) => 0x90,
        Message::KeyPressure(_) => 0xA0,
        Message::ControlChange(_) => 0xB0,
        Message::ProgramChange(_) => 0xC0,
        Message::ChannelPressure(_) => 0xD0,
        Message::PitchBend(_) => 0xE0,
    }
}

/// The data bytes of a channel message.
pub open spec fn message_params(m: Message) -> Seq<u8> {
    match m {
        Message::NoteOff(n) => seq![n.note@, n.value@],
        Message::NoteOn(n) => seq![n.note@, n.value@],
        Message::KeyPressure(n) => seq![n.note@, n.value@],
        Message::ControlChange(c) => seq![c.control.spec_code(), c.value@],
        Message::ProgramChange(p) => seq![p.program@],
        Message::ChannelPressure(c) => seq![c.value@],
        Message::PitchBend(p) => seq![(p.value@ % 128) as u8, (p.value@ / 128) as u8],
    }
}

/// The bytes of a system message.
pub open spec fn system_bytes(s: SystemEventData) -> Seq<u8> {
    match s {
        SystemEventData::TimeCode(t) => seq![0xF1u8, (t.message_type@ * 16 + t.data@) as u8],
        SystemEventData::SongPosition(p) => seq![0xF2u8, (p.position@ % 128) as u8, (p.position@ / 128) as u8],
        SystemEventData::SongSelect(s) => seq![0xF3u8, s.song@],
        SystemEventData::TuneRequest => seq![0xF6u8],
        SystemEventData::TimingClock => seq![0xF8u8],
        SystemEventData::F9 => seq![0xF9u8],
        SystemEventData::Start => seq![0xFAu8],
        SystemEventData::Continue => seq![0xFBu8],
        SystemEventData::Stop => seq![0xFCu8],
        SystemEventData::FD => seq![0xFDu8],
        SystemEventData::ActiveSensing => seq![0xFEu8],
        SystemEventData::SystemReset => seq![0xFFu8],
    }
}

/// The bytes of an event's data, status byte first.
pub open spec fn data_bytes(d: EventDataModel) -> Seq<u8> {
    match d {
        EventDataModel::Midi(m) => seq![(message_status(m.message) + m.channel@) as u8] + message_params(m.message),
        EventDataModel::System(s) => system_bytes(s),
        EventDataModel::SysEx(data) => seq![0xF0u8] + vlq_bytes(data.len()) + data,
        EventDataModel::RawSysEx(data) => seq![0xF7u8] + vlq_bytes(data.len()) + data,
        EventDataModel::Meta(t, data) => seq![0xFFu8, t.spec_code()] + vlq_bytes(data.len()) + data,
    }
}

/// The bytes of an event: its delta time, then its data.
pub open spec fn event_bytes(e: EventModel) -> Seq<u8> {
    vlq_bytes(e.delta_time as nat) + data_bytes(e.data)
}

/// The event's payload, if any, is short enough for its length to be written as a `u32`.
pub open spec fn event_fits(e: EventModel) -> bool {
    match e.data {
        EventDataModel::SysEx(data) => data.len() <= u32::MAX,
        EventDataModel::RawSysEx(data) => data.len() <= u32::MAX,
        EventDataModel::Meta(_, data) => data.len() <= u32::MAX,
        _ => true,
    }
}

/// Appends `data` to `out`.
fn append_bytes(out: &mut Vec<u8>, data: &Vec<u8>)
    ensures
        final(out)@ == old(out)@ + data@,
{
    let mut copy = vstd::slice::slice_to_vec(data.as_slice());
    out.append(&mut copy);
}

/// Appends the payload length and the payload of a SysEx or meta event.
fn write_payload(data: &Vec<u8>, out: &mut Vec<u8>)
    requires
        data@.len() <= u32::MAX,
    ensures
        final(out)@ == old(out)@ + vlq_bytes(data@.len()) + data@,
{
    let length: u32 = data.len() as u32;
    write_variable_length_quantity(length, out);
    append_bytes(out, data);
}

/// Appends the bytes of a channel message on channel `channel`.
fn write_midi_message(channel: u8, message: &Message, out: &mut Vec<u8>)
    requires
        channel <= 15,
    ensures
        final(out)@ == old(out)@ + seq![(message_status(*message) + channel) as u8] + message_params(*message),
        message.wf(),
{
    let status: u8 = match message {
        Message::NoteOff(_) => 0x80u8,
        Message::NoteOn(_) => 0x90u8,
        Message::KeyPressure(_) => 0xA0u8,
        Message::ControlChange(_) => 0xB0u8,
        Message::ProgramChange(_) => 0xC0u8,
        Message::ChannelPressure(_) => 0xD0u8,
        Message::PitchBend(_) => 0xE0u8,
    };
    assert(status % 16 == 0 && status >= 0x80 && status <= 0xE0);
    assert(status | channel == status + channel) by (bit_vector)
        requires
            channel <= 15,
            status % 16 == 0,
    ;
    out.push(status | channel);
    match message {
        Message::NoteOff(n) | Message::NoteOn(n) | Message::KeyPressure(n) => {
            proof {
                use_type_invariant(&n.note);
                use_type_invariant(&n.value);
            }
            out.push(n.note.to_base_type());
            out.push(n.value.to_base_type());
        },
        Message::ControlChange(c) => {
            proof {
                use_type_invariant(&c.value);
                if let Control::Other(v) = c.control {
                    use_type_invariant(&v);
                }
            }
            out.push(c.control.to_base_type().to_base_type());
            out.push(c.value.to_base_type());
        },
        Message::ProgramChange(p) => {
            proof {
                use_type_invariant(&p.program);
            }
            out.push(p.program.to_base_type());
        },
        Message::ChannelPressure(c) => {
            proof {
                use_type_invariant(&c.value);
            }
            out.push(c.value.to_base_type());
        },
        Message::PitchBend(p) => {
            proof {
                use_type_invariant(&p.value);
            }
            let (lsb, msb) = p.value.to_lsb_msb();
            out.push(lsb.to_base_type());
            out.push(msb.to_base_type());
        },
    }
    proof {
        assert(final(out)@ =~= old(out)@ + seq![(message_status(*message) + channel) as u8] + message_params(*message));
    }
}

/// Appends the bytes of a system message.
fn write_system_message(data: &SystemEventData, out: &mut Vec<u8>)
    ensures
        final(out)@ == old(out)@ + system_bytes(*data),
        data.wf(),
{
    match data {
        SystemEventData::TimeCode(time_code_data) => {
            proof {
                use_type_invariant(&time_code_data.message_type);
                use_type_invariant(&time_code_data.data);
            }
            let message_type: u8 = time_code_data.message_type.to_base_type();
            let values: u8 = time_code_data.data.to_base_type();
            assert((message_type << 4u8) | values == message_type * 16 + values) by (bit_vector)
                requires
                    message_type <= 7,
                    values <= 15,
            ;
            out.push(0xF1);
            out.push((message_type << 4u8) | values);
        },
        SystemEventData::SongPosition(song_position_data) => {
            proof {
                use_type_invariant(&song_position_data.position);
            }
            let (lsb, msb) = song_position_data.position.to_lsb_msb();
            out.push(0xF2);
            out.push(lsb.to_base_type());
            out.push(msb.to_base_type());
        },
        SystemEventData::SongSelect(song_select_data) => {
            proof {
                use_type_invariant(&song_select_data.song);
            }
            out.push(0xF3);
            out.push(song_select_data.song.to_base_type());
        },
        SystemEventData::TuneRequest => out.push(0xF6),
        SystemEventData::TimingClock => out.push(0xF8),
        SystemEventData::F9 => out.push(0xF9),
        SystemEventData::Start => out.push(0xFA),
        SystemEventData::Continue => out.push(0xFB),
        SystemEventData::Stop => out.push(0xFC),
        SystemEventData::FD => out.push(0xFD),
        SystemEventData::ActiveSensing => out.push(0xFE),
        SystemEventData::SystemReset => out.push(0xFF),
    }
    proof {
        assert(final(out)@ =~= old(out)@ + system_bytes(*data));
    }
}

/// Appends the bytes of `event`.
fn write_smf_event(event: &Event, out: &mut Vec<u8>)
    requires
        event_fits(event@),
    ensures
        final(out)@ == old(out)@ + event_bytes(event@),
        event@.wf(),
{
    let ghost start = out@;
    write_variable_length_quantity(event.delta_time, out);
    let ghost after_delta = out@;
    match &event.data {
        EventData::Midi(midi_event_data) => {
            proof {
                use_type_invariant(&midi_event_data.channel);
            }
            write_midi_message(midi_event_data.channel.to_base_type(), &midi_event_data.message, out);
        },
        EventData::System(system_event_data) => {
            write_system_message(system_event_data, out);
        },
        EventData::SysEx(sys_ex_event_data) => {
            out.push(0xF0);
            write_payload(&sys_ex_event_data.data, out);
        },
        EventData::RawSysEx(sys_ex_event_data) => {
            out.push(0xF7);
            write_payload(&sys_ex_event_data.data, out);
        },
        EventData::Meta(meta_event_data) => {
            proof {
                if let MetaType::Other(v) = meta_event_data.meta_type {
                    use_type_invariant(&v);
                }
            }
            out.push(0xFF);
            out.push(meta_event_data.meta_type.to_base_type().to_base_type());
            write_payload(&meta_event_data.data, out);
        },
    }
    proof {
        assert(final(out)@ =~= start + event_bytes(event@));
    }
}

// ---------------------------------------------------------------------------------------------
// Decoding events
// ---------------------------------------------------------------------------------------------

/// Taking `n` data bytes from the front of `s`: the rest and the bytes taken.
pub open spec fn take_params(s: Seq<u8>, n: nat) -> Result<(Seq<u8>, Seq<u8>), Error> {
    if s.len() >= n {
        if forall|i: int| 0 <= i < n ==> #[trigger] s[i] < 128 {
            Ok((s.skip(n as int), s.take(n as int)))
        } else {
            Err(Error::ParameterHighBitSet)
        }
    } else {
        Err(Error::NotEnoughParameters)
    }
}

/// Taking a payload length and that many bytes from the front of `s`.
pub open spec fn take_payload(s: Seq<u8>) -> Result<(Seq<u8>, Seq<u8>), Error> {
    match vlq_take(s) {
        Err(e) => Err(e),
        Ok((rest, length)) => if length > rest.len() {
            Err(Error::MoreLengthThanData)
        } else {
            Ok((rest.skip(length as int), rest.take(length as int)))
        },
    }
}

/// The channel message with the given status nibble and data bytes.
pub open(crate) spec fn decode_message(kind: u8, p: Seq<u8>) -> Message {
    if kind == 8 {
        Message::NoteOff(NoteMessage { note: U7(p[0]), value: U7(p[1]) })
    } else if kind == 9 {
        Message::NoteOn(NoteMessage { note: U7(p[0]), value: U7(p[1]) })
    } else if kind == 10 {
        Message::KeyPressure(NoteMessage { note: U7(p[0]), value: U7(p[1]) })
    } else if kind == 11 {
        Message::ControlChange(ControlChangeMessage { control: Control::spec_from_code(p[0]), value: U7(p[1]) })
    } else if kind == 12 {
        Message::ProgramChange(ProgramChangeMessage { program: U7(p[0]) })
    } else if kind == 13 {
        Message::ChannelPressure(ChannelValueMessage { value: U7(p[0]) })
    } else {
        Message::PitchBend(PitchBendMessage { value: U14((p[1] * 128 + p[0]) as u16) })
    }
}

/// The number of data bytes of a channel message with the given status nibble.
pub open spec fn message_param_count(kind: u8) -> nat {
    if kind == 12 || kind == 13 {
        1
    } else {
        2
    }
}

/// Decoding what follows the status byte `status` at the front of `s`: the rest and the data.
pub open(crate) spec fn take_event_body(s: Seq<u8>, status: u8) -> Result<(Seq<u8>, EventDataModel), Error> {
    if 0x80 <= status <= 0xEF {
        match take_params(s, message_param_count(status / 16)) {
            Err(e) => Err(e),
            Ok((rest, p)) => Ok((
                rest,
                EventDataModel::Midi(MidiEventData { channel: U4(status % 16), message: decode_message(status / 16, p) }),
            )),
        }
    } else if status == 0xF0 || status == 0xF7 {
        match take_payload(s) {
            Err(e) => Err(e),
            Ok((rest, data)) => Ok((rest, if status == 0xF0 { EventDataModel::SysEx(data) } else { EventDataModel::RawSysEx(data) })),
        }
    } else if status == 0xF1 {
        match take_params(s, 1) {
            Err(e) => Err(e),
            Ok((rest, p)) => Ok((rest, EventDataModel::System(SystemEventData::TimeCode(
                TimeCodeData { message_type: U3(p[0] / 16), data: U4(p[0] % 16) },
            )))),
        }
    } else if status == 0xF2 {
        match take_params(s, 2) {
            Err(e) => Err(e),
            Ok((rest, p)) => Ok((rest, EventDataModel::System(SystemEventData::SongPosition(
                SongPositionData { position: U14((p[1] * 128 + p[0]) as u16) },
            )))),
        }
    } else if status == 0xF3 {
        match take_params(s, 1) {
            Err(e) => Err(e),
            Ok((rest, p)) => Ok((rest, EventDataModel::System(SystemEventData::SongSelect(SongSelectData { song: U7(p[0]) })))),
        }
    } else if status == 0xF6 {
        Ok((s, EventDataModel::System(SystemEventData::TuneRequest)))
    } else if status == 0xF8 {
        Ok((s, EventDataModel::System(SystemEventData::TimingClock)))
    } else if status == 0xF9 {
        Ok((s, EventDataModel::System(SystemEventData::F9)))
    } else if status == 0xFA {
        Ok((s, EventDataModel::System(SystemEventData::Start)))
    } else if status == 0xFB {
        Ok((s, EventDataModel::System(SystemEventData::Continue)))
    } else if status == 0xFC {
        Ok((s, EventDataModel::System(SystemEventData::Stop)))
    } else if status == 0xFD {
        Ok((s, EventDataModel::System(SystemEventData::FD)))
    } else if status == 0xFE {
        Ok((s, EventDataModel::System(SystemEventData::ActiveSensing)))
    } else if status == 0xFF {
        match take_params(s, 1) {
            Err(e) => Err(e),
            Ok((rest, p)) => match take_payload(rest) {
                Err(e) => Err(e),
                Ok((rest2, data)) => Ok((rest2, EventDataModel::Meta(MetaType::spec_from_code(p[0]), data))),
            },
        }
    } else {
        // 0xF4 and 0xF5 are undefined; data bytes never reach this point as a status
        Err(Error::UnknownMessage { status_byte: status })
    }
}

/// Where the delta time of an event at the front of `s` ends, if it can be read.
pub open spec fn after_delta(s: Seq<u8>) -> Option<Seq<u8>> {
    match vlq_take(s) {
        Ok((rest, _)) => Some(rest),
        Err(_) => None,
    }
}

/// The running status after an event at the front of `s`: its status byte when the event
/// carries one, else the running status before.
pub open spec fn status_after(s: Seq<u8>, last: Option<u8>) -> Option<u8> {
    match after_delta(s) {
        Some(rest) => if rest.len() > 0 && rest[0] >= 128 {
            Some(rest[0])
        } else {
            last
        },
        None => last,
    }
}

/// Decoding one event from the front of `s`, with running status `last`: the rest and the
/// event.
pub open(crate) spec fn take_event(s: Seq<u8>, last: Option<u8>) -> Result<(Seq<u8>, EventModel), Error> {
    match vlq_take(s) {
        Err(e) => Err(e),
        Ok((rest, delta_time)) => if rest.len() == 0 {
            Err(Error::EmptyEvent)
        } else {
            let body = if rest[0] >= 128 {
                take_event_body(rest.drop_first(), rest[0])
            } else {
                match last {
                    Some(status) => take_event_body(rest, status),
                    None => Err(Error::UnknownPreviousEvent),
                }
            };
            match body {
                Err(e) => Err(e),
                Ok((rest2, data)) => Ok((rest2, EventModel { delta_time, data })),
            }
        },
    }
}

/// Running status: an event written with its status byte `status` reads the same as the event
/// written without it while `status` is the running status, and after either the running
/// status is `status`.
pub proof fn lemma_running_status(status: u8, delta_time: u32, p: Seq<u8>, last: Option<u8>)
    requires
        status >= 0x80,
        p.len() >= 1,
        p[0] < 0x80,
    ensures
        take_event(vlq_bytes(delta_time as nat) + seq![status] + p, last)
            == take_event(vlq_bytes(delta_time as nat) + p, Some(status)),
        status_after(vlq_bytes(delta_time as nat) + seq![status] + p, last) == Some(status),
        status_after(vlq_bytes(delta_time as nat) + p, Some(status)) == Some(status),
{
    let v = vlq_bytes(delta_time as nat);
    let with = seq![status] + p;
    lemma_vlq_roundtrip(delta_time, with);
    lemma_vlq_roundtrip(delta_time, p);
    assert(v + seq![status] + p =~= v + with);
    assert(with[0] == status);
    assert(with.drop_first() =~= p);
}

/// Decoding all the events of a track's data `s`, with running status `last`.
pub open(crate) spec fn parse_events(s: Seq<u8>, last: Option<u8>) -> Result<Seq<EventModel>, Error>
    decreases s.len(),
{
    if s.len() == 0 {
        Ok(seq![])
    } else {
        match take_event(s, last) {
            Err(e) => Err(e),
            Ok((rest, e)) => if rest.len() < s.len() {
                match parse_events(rest, status_after(s, last)) {
                    Err(x) => Err(x),
                    Ok(es) => Ok(seq![e] + es),
                }
            } else {
                // every event holds at least its delta time
                Err(Error::EmptyEvent)
            },
        }
    }
}

/// The views of a sequence of 7-bit values.
pub open spec fn u7_values(ps: Seq<U7>) -> Seq<u8> {
    ps.map_values(|u: U7| u@)
}

/// Reads `count` data bytes from the front of `slice`: the rest of the slice and the values.
fn take_parameters(slice: &[u8], count: usize) -> (r: Result<(&[u8], Vec<U7>), Error>)
    ensures
        match r {
            Ok((rest, params)) => take_params(slice@, count as nat) == Ok::<(Seq<u8>, Seq<u8>), Error>((rest@, u7_values(params@))),
            Err(e) => take_params(slice@, count as nat) == Err::<(Seq<u8>, Seq<u8>), Error>(e),
        },
        r matches Ok((_, params)) ==> params@.len() == count,
        r matches Ok((rest, _)) ==> rest@.len() <= slice@.len(),
{
    if slice.len() >= count {
        let mut ret: Vec<U7> = Vec::new();
        let mut i: usize = 0;
        while i < count
            invariant
                i <= count <= slice@.len(),
                ret@.len() == i,
                forall|k: int| 0 <= k < i ==> #[trigger] ret@[k]@ == slice@[k],
                forall|k: int| 0 <= k < i ==> #[trigger] slice@[k] < 128,
            decreases count - i,
        {
            match U7::try_from_base_type(slice[i]) {
                Ok(u) => ret.push(u),
                Err(_) => {
                    return Err(Error::ParameterHighBitSet);
                },
            }
            i += 1;
        }
        proof {
            assert(u7_values(ret@) =~= slice@.take(count as int));
            assert(slice@.skip(count as int) == slice@.subrange(count as int, slice@.len() as int));
        }
        Ok((&slice[count..slice.len()], ret))
    } else {
        Err(Error::NotEnoughParameters)
    }
}

/// Reads a payload length and that many bytes from the front of `slice`.
fn take_payload_data(slice: &[u8]) -> (r: Result<(&[u8], Vec<u8>), Error>)
    ensures
        match r {
            Ok((rest, data)) => take_payload(slice@) == Ok::<(Seq<u8>, Seq<u8>), Error>((rest@, data@)),
            Err(e) => take_payload(slice@) == Err::<(Seq<u8>, Seq<u8>), Error>(e),
        },
        r matches Ok((rest, _)) ==> rest@.len() <= slice@.len(),
{
    let (slice, length_u32) = match take_variable_length_quantity(slice) {
        Ok(x) => x,
        Err(e) => return Err(e),
    };
    let length: usize = length_u32 as usize;
    if length > slice.len() {
        return Err(Error::MoreLengthThanData);
    }
    let (payload_slice, slice) = slice.split_at(length);
    Ok((slice, vstd::slice::slice_to_vec(payload_slice)))
}

/// Reads one event from the front of `slice`, with `last_event_byte` the running status.
fn take_smf_event<'e>(slice: &'e [u8], last_event_byte: &mut Option<u8>) -> (r: Result<(&'e [u8], Event), Error>)
    requires
        *old(last_event_byte) matches Some(b) ==> b >= 0x80,
    ensures
        *final(last_event_byte) matches Some(b) ==> b >= 0x80,
        *final(last_event_byte) == status_after(slice@, *old(last_event_byte)),
        match r {
            Ok((rest, event)) => {
                &&& take_event(slice@, *old(last_event_byte)) == Ok::<(Seq<u8>, EventModel), Error>((rest@, event@))
                &&& rest@.len() < slice@.len()
            },
            Err(e) => take_event(slice@, *old(last_event_byte)) == Err::<(Seq<u8>, EventModel), Error>(e),
        },
{
    let (slice, delta_time) = match take_variable_length_quantity(slice) {
        Ok(x) => x,
        Err(e) => return Err(e),
    };
    if slice.len() == 0 {
        return Err(Error::EmptyEvent);
    }
    let ghost after_status_byte = slice@;
    let first: u8 = slice[0];
    assert(first & 0b1000_0000u8 != 0 <==> first >= 128) by (bit_vector);
    let (slice, status_byte) = if first & 0b1000_0000u8 != 0 {
        (&slice[1..slice.len()], first)
    } else if let Some(leb) = *last_event_byte {
        (slice, leb)
    } else {
        return Err(Error::UnknownPreviousEvent);
    };
    proof {
        if after_status_byte[0] >= 128 {
            assert(slice@ =~= after_status_byte.drop_first());
        }
    }

    // remember for next time
    *last_event_byte = Some(status_byte);

    let (slice, event_data) = match take_event_data(slice, status_byte) {
        Ok(x) => x,
        Err(e) => return Err(e),
    };
    let event = Event { delta_time, data: event_data };
    Ok((slice, event))
}

/// Reads what follows the status byte `status_byte` from the front of `slice`.
fn take_event_data(slice: &[u8], status_byte: u8) -> (r: Result<(&[u8], EventData), Error>)
    requires
        status_byte >= 0x80,
    ensures
        match r {
            Ok((rest, data)) => {
                &&& take_event_body(slice@, status_byte) == Ok::<(Seq<u8>, EventDataModel), Error>((rest@, data@))
                &&& rest@.len() <= slice@.len()
            },
            Err(e) => take_event_body(slice@, status_byte) == Err::<(Seq<u8>, EventDataModel), Error>(e),
        },
{
    if status_byte <= 0xEF {
        // regular MIDI channel message
        assert(status_byte & 0b0000_1111u8 == status_byte % 16 && status_byte >> 4u8 == status_byte / 16) by (bit_vector);
        let channel = U4::from_base_type(status_byte & 0b0000_1111u8);
        let kind: u8 = status_byte >> 4u8;
        let count: usize = if kind == 0xC || kind == 0xD { 1 } else { 2 };
        let (slice, parameters) = match take_parameters(slice, count) {
            Ok(x) => x,
            Err(e) => return Err(e),
        };
        assert(parameters@[0]@ == u7_values(parameters@)[0]);
        let message = if kind == 0x8 {
            assert(parameters@[1]@ == u7_values(parameters@)[1]);
            Message::NoteOff(NoteMessage { note: parameters[0], value: parameters[1] })
        } else if kind == 0x9 {
            assert(parameters@[1]@ == u7_values(parameters@)[1]);
            Message::NoteOn(NoteMessage { note: parameters[0], value: parameters[1] })
        } else if kind == 0xA {
            assert(parameters@[1]@ == u7_values(parameters@)[1]);
            Message::KeyPressure(NoteMessage { note: parameters[0], value: parameters[1] })
        } else if kind == 0xB {
            assert(parameters@[1]@ == u7_values(parameters@)[1]);
            Message::ControlChange(ControlChangeMessage {
                control: Control::from_base_type(parameters[0]),
                value: parameters[1],
            })
        } else if kind == 0xC {
            Message::ProgramChange(ProgramChangeMessage { program: parameters[0] })
        } else if kind == 0xD {
            Message::ChannelPressure(ChannelValueMessage { value: parameters[0] })
        } else {
            assert(parameters@[1]@ == u7_values(parameters@)[1]);
            let lsb: u16 = parameters[0].to_base_type() as u16;
            let msb: u16 = parameters[1].to_base_type() as u16;
            assert((msb << 7u16) | lsb == msb * 128 + lsb) by (bit_vector)
                requires
                    lsb < 128,
                    msb < 128,
            ;
            let value_u16: u16 = (msb << 7u16) | lsb;
            Message::PitchBend(PitchBendMessage { value: U14::from_base_type(value_u16) })
        };
        Ok((slice, EventData::Midi(MidiEventData { channel, message })))
    } else if status_byte == 0xF0 || status_byte == 0xF7 {
        // SysEx or SysEx continuation message
        let (slice, data) = match take_payload_data(slice) {
            Ok(x) => x,
            Err(e) => return Err(e),
        };
        let sysex_data = SysExEventData { data };
        let event_data = if status_byte == 0xF0 {
            EventData::SysEx(sysex_data)
        } else {
            EventData::RawSysEx(sysex_data)
        };
        Ok((slice, event_data))
    } else if status_byte == 0xF1 {
        // system message: time code
        let (slice, params) = match take_parameters(slice, 1) {
            Ok(x) => x,
            Err(e) => return Err(e),
        };
        assert(params@[0]@ == u7_values(params@)[0]);
        let data: u8 = params[0].to_base_type();
        assert((data >> 4u8) & 0b111u8 == data / 16 && data & 0b1111u8 == data % 16) by (bit_vector)
            requires
                data < 128,
        ;
        let message_type = U3::from_base_type((data >> 4u8) & 0b111u8);
        let values = U4::from_base_type(data & 0b1111u8);
        Ok((slice, EventData::System(SystemEventData::TimeCode(TimeCodeData { message_type, data: values }))))
    } else if status_byte == 0xF2 {
        // system message: song position pointer
        let (slice, params) = match take_parameters(slice, 2) {
            Ok(x) => x,
            Err(e) => return Err(e),
        };
        assert(params@[0]@ == u7_values(params@)[0]);
        assert(params@[1]@ == u7_values(params@)[1]);
        let lsb: u16 = params[0].to_base_type() as u16;
        let msb: u16 = params[1].to_base_type() as u16;
        assert((msb << 7u16) | lsb == msb * 128 + lsb) by (bit_vector)
            requires
                lsb < 128,
                msb < 128,
        ;
        let pointer_u16: u16 = (msb << 7u16) | lsb;
        let position = U14::from_base_type(pointer_u16);
        Ok((slice, EventData::System(SystemEventData::SongPosition(SongPositionData { position }))))
    } else if status_byte == 0xF3 {
        // system message: song select
        let (slice, params) = match take_parameters(slice, 1) {
            Ok(x) => x,
            Err(e) => return Err(e),
        };
        assert(params@[0]@ == u7_values(params@)[0]);
        Ok((slice, EventData::System(SystemEventData::SongSelect(SongSelectData { song: params[0] }))))
    } else if status_byte == 0xF4 || status_byte == 0xF5 {
        // undefined message type
        Err(Error::UnknownMessage { status_byte })
    } else if status_byte == 0xF6 {
        // system message: tune request
        Ok((slice, EventData::System(SystemEventData::TuneRequest)))
    } else if status_byte <= 0xFE {
        // real-time message
        let event_data = if status_byte == 0xF8 {
            SystemEventData::TimingClock
        } else if status_byte == 0xF9 {
            SystemEventData::F9
        } else if status_byte == 0xFA {
            SystemEventData::Start
        } else if status_byte == 0xFB {
            SystemEventData::Continue
        } else if status_byte == 0xFC {
            SystemEventData::Stop
        } else if status_byte == 0xFD {
            SystemEventData::FD
        } else {
            SystemEventData::ActiveSensing
        };
        Ok((slice, EventData::System(event_data)))
    } else {
        // meta event
        // (0xFF is also used for System Reset;
        // in a Standard MIDI File, this must be encapsulated in 0xF7)
        let (slice, params) = match take_parameters(slice, 1) {
            Ok(x) => x,
            Err(e) => return Err(e),
        };
        assert(params@[0]@ == u7_values(params@)[0]);
        let (slice, data) = match take_payload_data(slice) {
            Ok(x) => x,
            Err(e) => return Err(e),
        };
        Ok((slice, EventData::Meta(MetaEventData { meta_type: MetaType::from_base_type(params[0]), data })))
    }
}

// ---------------------------------------------------------------------------------------------
// Chunks and whole files
// ---------------------------------------------------------------------------------------------

/// The identifier of the header chunk, "MThd".
pub open spec fn header_chunk_id() -> [u8; 4] {
    [0x4D, 0x54, 0x68, 0x64]
}

/// The identifier of a track chunk, "MTrk".
pub open spec fn track_chunk_id() -> [u8; 4] {
    [0x4D, 0x54, 0x72, 0x6B]
}

/// The four bytes of `s` from index `i` on.
pub open spec fn array4(s: Seq<u8>, i: int) -> [u8; 4] {
    [s[i], s[i + 1], s[i + 2], s[i + 3]]
}

/// The big-endian 32-bit value at index `i` of `s`.
pub open spec fn be32_at(s: Seq<u8>, i: int) -> u32 {
    (s[i] * 0x100_0000 + s[i + 1] * 0x1_0000 + s[i + 2] * 0x100 + s[i + 3]) as u32
}

/// The big-endian 16-bit value at index `i` of `s`.
pub open spec fn be16_at(s: Seq<u8>, i: int) -> u16 {
    (s[i] * 0x100 + s[i + 1]) as u16
}

/// The big-endian bytes of a 32-bit value.
pub open spec fn be32_bytes(v: u32) -> Seq<u8> {
    seq![(v / 0x100_0000) as u8, (v / 0x1_0000 % 0x100) as u8, (v / 0x100 % 0x100) as u8, (v % 0x100) as u8]
}

/// The big-endian bytes of a 16-bit value.
pub open spec fn be16_bytes(v: u16) -> Seq<u8> {
    seq![(v / 0x100) as u8, (v % 0x100) as u8]
}

/// The two's complement reading of a 16-bit word.
pub open spec fn i16_from_word(w: u16) -> i16 {
    if w < 0x8000 {
        w as i16
    } else {
        (w - 0x1_0000) as i16
    }
}

/// The two's complement 16-bit word of a signed value.
pub open spec fn word_from_i16(v: i16) -> u16 {
    if v >= 0 {
        v as u16
    } else {
        (v + 0x1_0000) as u16
    }
}

/// Whether an error is the one a specification names; errors of the reader are compared by
/// variant alone.
pub open spec fn same_error(e: Error, spec: Error) -> bool {
    match e {
        Error::Io(_) => spec is Io,
        _ => spec == e,
    }
}

/// The error that running out of input gives.
pub open spec fn truncated() -> Error {
    Error::Io(vstd::pervasive::arbitrary())
}

/// Decoding the header chunk at the front of `s`: the rest and the header.
pub open spec fn read_header(s: Seq<u8>) -> Result<(Seq<u8>, FileHeader), Error> {
    if s.len() < 4 {
        Err(truncated())
    } else if array4(s, 0) != header_chunk_id() {
        Err(Error::UnexpectedHeaderChunk { expected: header_chunk_id(), obtained: array4(s, 0) })
    } else if s.len() < 8 {
        Err(truncated())
    } else if be32_at(s, 4) != 6 {
        Err(Error::UnexpectedHeaderLength { expected: 6, obtained: be32_at(s, 4) })
    } else if s.len() < 14 {
        Err(truncated())
    } else {
        Ok((s.skip(14), FileHeader {
            format: SmfFormat::spec_from_code(be16_at(s, 8)),
            track_count: be16_at(s, 10),
            division: i16_from_word(be16_at(s, 12)),
        }))
    }
}

/// Decoding a track chunk at the front of `s`: the rest and the track's events.
pub open(crate) spec fn read_track(s: Seq<u8>) -> Result<(Seq<u8>, Seq<EventModel>), Error> {
    if s.len() < 4 {
        Err(truncated())
    } else if array4(s, 0) != track_chunk_id() {
        Err(Error::UnexpectedTrackChunk { expected: track_chunk_id(), obtained: array4(s, 0) })
    } else if s.len() < 8 {
        Err(truncated())
    } else if s.len() < 8 + be32_at(s, 4) {
        Err(truncated())
    } else {
        let end = 8 + be32_at(s, 4);
        match parse_events(s.subrange(8, end), None) {
            Err(e) => Err(e),
            Ok(events) => Ok((s.skip(end), events)),
        }
    }
}

/// Decoding `count` track chunks from the front of `s`.
pub open(crate) spec fn read_tracks(s: Seq<u8>, count: nat) -> Result<Seq<Seq<EventModel>>, Error>
    decreases count,
{
    if count == 0 {
        Ok(seq![])
    } else {
        match read_track(s) {
            Err(e) => Err(e),
            Ok((rest, events)) => match read_tracks(rest, (count - 1) as nat) {
                Err(e) => Err(e),
                Ok(tracks) => Ok(seq![events] + tracks),
            },
        }
    }
}

/// Decoding a Standard MIDI File from the front of `s`.
pub open(crate) spec fn read_smf_spec(s: Seq<u8>) -> Result<SmfModel, Error> {
    match read_header(s) {
        Err(e) => Err(e),
        Ok((rest, header)) => match read_tracks(rest, header.track_count as nat) {
            Err(e) => Err(e),
            Ok(tracks) => Ok(SmfModel { header, tracks }),
        },
    }
}

/// The bytes of a sequence of events.
pub open spec fn events_bytes(events: Seq<EventModel>) -> Seq<u8>
    decreases events.len(),
{
    if events.len() == 0 {
        seq![]
    } else {
        event_bytes(events[0]) + events_bytes(events.drop_first())
    }
}

/// The bytes of a track chunk holding `events`.
pub open spec fn track_bytes(events: Seq<EventModel>) -> Seq<u8> {
    track_chunk_id()@ + be32_bytes(events_bytes(events).len() as u32) + events_bytes(events)
}

/// The bytes of a sequence of track chunks.
pub open spec fn tracks_bytes(tracks: Seq<Seq<EventModel>>) -> Seq<u8>
    decreases tracks.len(),
{
    if tracks.len() == 0 {
        seq![]
    } else {
        track_bytes(tracks[0]) + tracks_bytes(tracks.drop_first())
    }
}

/// The bytes of the header chunk.
pub open spec fn header_bytes(h: FileHeader) -> Seq<u8> {
    header_chunk_id()@ + be32_bytes(6) + be16_bytes(h.format.spec_code()) + be16_bytes(h.track_count)
        + be16_bytes(word_from_i16(h.division))
}

/// The bytes of a whole Standard MIDI File.
pub open spec fn smf_bytes(m: SmfModel) -> Seq<u8> {
    header_bytes(m.header) + tracks_bytes(m.tracks)
}

/// Every payload length and the length of the track's data can be written as a `u32`.
pub open spec fn track_fits(events: Seq<EventModel>) -> bool {
    &&& forall|i: int| 0 <= i < events.len() ==> #[trigger] event_fits(events[i])
    &&& events_bytes(events).len() <= u32::MAX
}

/// Every track of the file can be written.
pub open spec fn smf_fits(m: SmfModel) -> bool {
    forall|i: int| 0 <= i < m.tracks.len() ==> #[trigger] track_fits(m.tracks[i])
}

proof fn lemma_events_bytes_push(events: Seq<EventModel>, e: EventModel)
    ensures
        events_bytes(events.push(e)) == events_bytes(events) + event_bytes(e),
    decreases events.len(),
{
    if events.len() == 0 {
        let p = events.push(e);
        assert(p.drop_first() =~= Seq::<EventModel>::empty());
        assert(events_bytes(p.drop_first()) == Seq::<u8>::empty());
        assert(p[0] == e);
        assert(events_bytes(p) =~= event_bytes(e));
        assert(events_bytes(events) == Seq::<u8>::empty());
    } else {
        lemma_events_bytes_push(events.drop_first(), e);
        assert(events.push(e).drop_first() =~= events.drop_first().push(e));
        assert(events_bytes(events.push(e)) =~= events_bytes(events) + event_bytes(e));
    }
}

proof fn lemma_tracks_bytes_push(tracks: Seq<Seq<EventModel>>, t: Seq<EventModel>)
    ensures
        tracks_bytes(tracks.push(t)) == tracks_bytes(tracks) + track_bytes(t),
    decreases tracks.len(),
{
    if tracks.len() == 0 {
        let p = tracks.push(t);
        assert(p.drop_first() =~= Seq::<Seq<EventModel>>::empty());
        assert(tracks_bytes(p.drop_first()) == Seq::<u8>::empty());
        assert(p[0] == t);
        assert(tracks_bytes(p) =~= track_bytes(t));
        assert(tracks_bytes(tracks) == Seq::<u8>::empty());
    } else {
        lemma_tracks_bytes_push(tracks.drop_first(), t);
        assert(tracks.push(t).drop_first() =~= tracks.drop_first().push(t));
        assert(tracks_bytes(tracks.push(t)) =~= tracks_bytes(tracks) + track_bytes(t));
    }
}

impl Error {
    /// `Ok` when the header chunk identifier is the expected one.
    pub fn ensure_header_chunk(expected: [u8; 4], obtained: [u8; 4]) -> (r: Result<(), Self>)
        ensures
            r is Ok <==> expected == obtained,
            r is Err ==> r == Err::<(), Error>(Error::UnexpectedHeaderChunk { expected, obtained }),
    {
        if same_array4(&expected, &obtained) {
            Ok(())
        } else {
            Err(Error::UnexpectedHeaderChunk { expected, obtained })
        }
    }

    /// `Ok` when the header length is the expected one.
    pub fn ensure_header_length(expected: u32, obtained: u32) -> (r: Result<(), Self>)
        ensures
            r is Ok <==> expected == obtained,
            r is Err ==> r == Err::<(), Error>(Error::UnexpectedHeaderLength { expected, obtained }),
    {
        if expected == obtained {
            Ok(())
        } else {
            Err(Error::UnexpectedHeaderLength { expected, obtained })
        }
    }

    /// `Ok` when the track chunk identifier is the expected one.
    pub fn ensure_track_chunk(expected: [u8; 4], obtained: [u8; 4]) -> (r: Result<(), Self>)
        ensures
            r is Ok <==> expected == obtained,
            r is Err ==> r == Err::<(), Error>(Error::UnexpectedTrackChunk { expected, obtained }),
    {
        if same_array4(&expected, &obtained) {
            Ok(())
        } else {
            Err(Error::UnexpectedTrackChunk { expected, obtained })
        }
    }
}

fn same_array4(a: &[u8; 4], b: &[u8; 4]) -> (r: bool)
    ensures
        r == (*a == *b),
{
    let r = a[0] == b[0] && a[1] == b[1] && a[2] == b[2] && a[3] == b[3];
    proof {
        if r {
            assert(a@ =~= b@);
            assert(*a =~= *b);
        }
    }
    r
}

/// Reads four bytes at index `i` of `s`.
fn read_array4(s: &[u8], i: usize) -> (r: [u8; 4])
    requires
        i + 4 <= s@.len(),
    ensures
        r == array4(s@, i as int),
{
    [s[i], s[i + 1], s[i + 2], s[i + 3]]
}

/// Reads the big-endian 32-bit value at index `i` of `s`.
fn read_be32(s: &[u8], i: usize) -> (r: u32)
    requires
        i + 4 <= s@.len(),
    ensures
        r == be32_at(s@, i as int),
{
    (s[i] as u32) * 0x100_0000 + (s[i + 1] as u32) * 0x1_0000 + (s[i + 2] as u32) * 0x100 + (s[i + 3] as u32)
}

/// Reads the big-endian 16-bit value at index `i` of `s`.
fn read_be16(s: &[u8], i: usize) -> (r: u16)
    requires
        i + 2 <= s@.len(),
    ensures
        r == be16_at(s@, i as int),
{
    (s[i] as u16) * 0x100 + (s[i + 1] as u16)
}

/// Reads the events of a track's data.
fn read_track_events(track_data: &[u8]) -> (r: Result<Vec<Event>, Error>)
    ensures
        match r {
            Ok(events) => parse_events(track_data@, None) == Ok::<Seq<EventModel>, Error>(events@.map_values(|e: Event| e@)),
            Err(e) => parse_events(track_data@, None) == Err::<Seq<EventModel>, Error>(e),
        },
{
    let mut events: Vec<Event> = Vec::new();
    let mut track_slice: &[u8] = track_data;
    let mut last_event_byte: Option<u8> = None;
    while track_slice.len() > 0
        invariant
            last_event_byte matches Some(b) ==> b >= 0x80,
            parse_events(track_data@, None) == match parse_events(track_slice@, last_event_byte) {
                Ok(rest) => Ok(events@.map_values(|e: Event| e@) + rest),
                Err(e) => Err::<Seq<EventModel>, Error>(e),
            },
        decreases track_slice@.len(),
    {
        let ghost before = track_slice@;
        let ghost last_before = last_event_byte;
        let (slice_rest, event) = match take_smf_event(track_slice, &mut last_event_byte) {
            Ok(x) => x,
            Err(e) => return Err(e),
        };
        proof {
            let views = events@.map_values(|e: Event| e@);
            assert(events@.push(event).map_values(|e: Event| e@) =~= views.push(event@));
            match parse_events(slice_rest@, last_event_byte) {
                Ok(rest) => {
                    assert(views + (seq![event@] + rest) =~= views.push(event@) + rest);
                },
                Err(_) => {},
            }
        }
        events.push(event);
        track_slice = slice_rest;
    }
    proof {
        assert(events@.map_values(|e: Event| e@) + seq![] =~= events@.map_values(|e: Event| e@));
    }
    Ok(events)
}

/// Reads a track chunk from the front of `slice`: the rest of the slice and the track.
fn read_smf_track(slice: &[u8]) -> (r: Result<(&[u8], Track), Error>)
    ensures
        match r {
            Ok((rest, track)) => read_track(slice@) == Ok::<(Seq<u8>, Seq<EventModel>), Error>((rest@, track@)),
            Err(e) => read_track(slice@) matches Err(se) && same_error(e, se),
        },
{
    // expect a track chunk
    if slice.len() < 4 {
        return Err(Error::Io(unexpected_eof_error()));
    }
    match Error::ensure_track_chunk([0x4Du8, 0x54u8, 0x72u8, 0x6Bu8], read_array4(slice, 0)) {
        Ok(()) => {},
        Err(e) => return Err(e),
    }
    if slice.len() < 8 {
        return Err(Error::Io(unexpected_eof_error()));
    }
    let track_length: u32 = read_be32(slice, 4);
    let track_length_usize: usize = track_length as usize;
    if slice.len() - 8 < track_length_usize {
        return Err(Error::Io(unexpected_eof_error()));
    }
    let end: usize = 8 + track_length_usize;
    let track_data: &[u8] = &slice[8..end];
    let events = match read_track_events(track_data) {
        Ok(events) => events,
        Err(e) => return Err(e),
    };
    Ok((&slice[end..slice.len()], Track { events }))
}

/// Reads a Standard MIDI File from the front of `data`. A header chunk must come first, then as
/// many track chunks as the header announces; input that ends early gives an `Io` error, as
/// reading from a stream that ends early does.
pub fn read_smf(data: &[u8]) -> (r: Result<StandardMidiFile, Error>)
    ensures
        match r {
            Ok(smf) => read_smf_spec(data@) == Ok::<SmfModel, Error>(smf@),
            Err(e) => read_smf_spec(data@) matches Err(se) && same_error(e, se),
        },
{
    // expect the header chunk
    if data.len() < 4 {
        return Err(Error::Io(unexpected_eof_error()));
    }
    match Error::ensure_header_chunk([0x4Du8, 0x54u8, 0x68u8, 0x64u8], read_array4(data, 0)) {
        Ok(()) => {},
        Err(e) => return Err(e),
    }
    // expect a length
    if data.len() < 8 {
        return Err(Error::Io(unexpected_eof_error()));
    }
    let header_length: u32 = read_be32(data, 4);
    match Error::ensure_header_length(6, header_length) {
        Ok(()) => {},
        Err(e) => return Err(e),
    }
    // read the header
    if data.len() < 14 {
        return Err(Error::Io(unexpected_eof_error()));
    }
    let smf_format_u16: u16 = read_be16(data, 8);
    let smf_format = SmfFormat::from_base_type(smf_format_u16);
    let track_count: u16 = read_be16(data, 10);
    let division_word: u16 = read_be16(data, 12);
    let division: i16 = if division_word < 0x8000 {
        division_word as i16
    } else {
        (division_word as i32 - 0x1_0000) as i16
    };
    let header = FileHeader { format: smf_format, track_count, division };

    let ghost after_header = data@.skip(14);
    let mut tracks: Vec<Track> = Vec::new();
    let mut rest: &[u8] = &data[14..data.len()];
    proof {
        assert(rest@ =~= after_header);
        assert(read_header(data@) == Ok::<(Seq<u8>, FileHeader), Error>((after_header, header)));
        assert(tracks@.map_values(|t: Track| t@) =~= Seq::<Seq<EventModel>>::empty());
    }
    let mut i: u16 = 0;
    while i < track_count
        invariant
            i <= track_count,
            header.track_count == track_count,
            read_header(data@) == Ok::<(Seq<u8>, FileHeader), Error>((after_header, header)),
            read_tracks(after_header, track_count as nat) == match read_tracks(rest@, (track_count - i) as nat) {
                Ok(more) => Ok(tracks@.map_values(|t: Track| t@) + more),
                Err(e) => Err::<Seq<Seq<EventModel>>, Error>(e),
            },
        decreases track_count - i,
    {
        let (slice_rest, track) = match read_smf_track(rest) {
            Ok(x) => x,
            Err(e) => return Err(e),
        };
        proof {
            let views = tracks@.map_values(|t: Track| t@);
            assert(tracks@.push(track).map_values(|t: Track| t@) =~= views.push(track@));
            match read_tracks(slice_rest@, (track_count - i - 1) as nat) {
                Ok(more) => {
                    assert(views + (seq![track@] + more) =~= views.push(track@) + more);
                },
                Err(_) => {},
            }
        }
        tracks.push(track);
        rest = slice_rest;
        i += 1;
    }
    proof {
        assert(tracks@.map_values(|t: Track| t@) + seq![] =~= tracks@.map_values(|t: Track| t@));
    }
    Ok(StandardMidiFile { header, tracks })
}

/// Appends the big-endian bytes of a 32-bit value.
fn write_be32(v: u32, out: &mut Vec<u8>)
    ensures
        final(out)@ == old(out)@ + be32_bytes(v),
{
    out.push((v / 0x100_0000) as u8);
    out.push((v / 0x1_0000 % 0x100) as u8);
    out.push((v / 0x100 % 0x100) as u8);
    out.push((v % 0x100) as u8);
    proof {
        assert(final(out)@ =~= old(out)@ + be32_bytes(v));
    }
}

/// Appends the big-endian bytes of a 16-bit value.
fn write_be16(v: u16, out: &mut Vec<u8>)
    ensures
        final(out)@ == old(out)@ + be16_bytes(v),
{
    out.push((v / 0x100) as u8);
    out.push((v % 0x100) as u8);
    proof {
        assert(final(out)@ =~= old(out)@ + be16_bytes(v));
    }
}

/// Appends the header chunk.
fn write_smf_header(header: &FileHeader, out: &mut Vec<u8>)
    ensures
        final(out)@ == old(out)@ + header_bytes(*header),
{
    out.push(0x4D);
    out.push(0x54);
    out.push(0x68);
    out.push(0x64);
    write_be32(6, out);
    let format_u16: u16 = header.format.to_base_type();
    write_be16(format_u16, out);
    write_be16(header.track_count, out);
    let division_word: u16 = if header.division >= 0 {
        header.division as u16
    } else {
        (header.division as i32 + 0x1_0000) as u16
    };
    write_be16(division_word, out);
    proof {
        assert(final(out)@ =~= old(out)@ + header_bytes(*header));
    }
}

/// Whether the event's payload length can be written as a `u32`.
fn event_payload_fits(event: &Event) -> (r: bool)
    ensures
        r == event_fits(event@),
{
    match &event.data {
        EventData::SysEx(x) => x.data.len() as u64 <= 0xFFFF_FFFFu64,
        EventData::RawSysEx(x) => x.data.len() as u64 <= 0xFFFF_FFFFu64,
        EventData::Meta(m) => m.data.len() as u64 <= 0xFFFF_FFFFu64,
        _ => true,
    }
}

/// Appends the track chunk of `track` when its payloads and its data are short enough for their
/// lengths to be written as `u32`; returns whether they are.
fn write_smf_track(track: &Track, out: &mut Vec<u8>) -> (ok: bool)
    ensures
        ok == track_fits(track@),
        ok ==> final(out)@ == old(out)@ + track_bytes(track@),
        ok ==> events_wf(track@),
        !ok ==> final(out)@ == old(out)@,
{
    let mut events_buf: Vec<u8> = Vec::new();
    let ghost views = track@;
    let mut i: usize = 0;
    while i < track.events.len()
        invariant
            i <= track.events@.len(),
            views == track@,
            views.len() == track.events@.len(),
            events_buf@ == events_bytes(views.take(i as int)),
            forall|k: int| 0 <= k < i ==> #[trigger] event_fits(views[k]),
            forall|k: int| 0 <= k < i ==> #[trigger] views[k].wf(),
        decreases track.events@.len() - i,
    {
        let event = &track.events[i];
        assert(views[i as int] == event@);
        if !event_payload_fits(event) {
            return false;
        }
        let ghost before = events_buf@;
        write_smf_event(event, &mut events_buf);
        proof {
            lemma_events_bytes_push(views.take(i as int), event@);
            assert(views.take(i as int).push(event@) =~= views.take(i + 1));
        }
        i += 1;
    }
    proof {
        assert(views.take(i as int) =~= views);
    }
    if events_buf.len() as u64 > 0xFFFF_FFFFu64 {
        return false;
    }
    out.push(0x4D);
    out.push(0x54);
    out.push(0x72);
    out.push(0x6B);
    write_be32(events_buf.len() as u32, out);
    out.append(&mut events_buf);
    proof {
        assert(final(out)@ =~= old(out)@ + track_bytes(track@));
    }
    true
}

/// Writes a Standard MIDI File when every length fits its field; `None` when some payload or
/// some track's data is too long for its length to be written as a `u32`.
pub fn try_write_smf(smf: &StandardMidiFile) -> (r: Option<Result<Vec<u8>, Error>>)
    ensures
        smf.header.track_count as usize != smf.tracks@.len() ==> r == Some(Err::<Vec<u8>, Error>(
            Error::TrackCountMismatch { header: smf.header.track_count, file: smf.tracks.len() },
        )),
        smf.header.track_count as usize == smf.tracks@.len() ==> (r is None <==> !smf_fits(smf@)),
        smf.header.track_count as usize == smf.tracks@.len() ==> !(r matches Some(Err(_))),
        r matches Some(Ok(bytes)) ==> bytes@ == smf_bytes(smf@) && smf@.wf(),
{
    if smf.header.track_count as usize != smf.tracks.len() {
        return Some(Err(Error::TrackCountMismatch { header: smf.header.track_count, file: smf.tracks.len() }));
    }
    let mut out: Vec<u8> = Vec::new();
    write_smf_header(&smf.header, &mut out);
    let ghost views = smf@.tracks;
    let mut i: usize = 0;
    while i < smf.tracks.len()
        invariant
            i <= smf.tracks@.len(),
            smf.header.track_count as usize == smf.tracks@.len(),
            views == smf@.tracks,
            views.len() == smf.tracks@.len(),
            out@ == header_bytes(smf.header) + tracks_bytes(views.take(i as int)),
            forall|k: int| 0 <= k < i ==> #[trigger] track_fits(views[k]),
            forall|k: int| 0 <= k < i ==> #[trigger] events_wf(views[k]),
        decreases smf.tracks@.len() - i,
    {
        let track = &smf.tracks[i];
        assert(views[i as int] == track@);
        if !write_smf_track(track, &mut out) {
            return None;
        }
        proof {
            lemma_tracks_bytes_push(views.take(i as int), track@);
            assert(views.take(i as int).push(track@) =~= views.take(i + 1));
        }
        i += 1;
    }
    proof {
        assert(views.take(i as int) =~= views);
        assert(tracks_bytes(Seq::<Seq<EventModel>>::empty()) == Seq::<u8>::empty());
    }
    Some(Ok(out))
}

/// Writes a Standard MIDI File: the header chunk, then one track chunk per track. The header
/// must announce as many tracks as the file holds.
pub fn write_smf(smf: &StandardMidiFile) -> (r: Result<Vec<u8>, Error>)
    requires
        smf.header.track_count as usize == smf.tracks@.len() ==> smf_fits(smf@),
    ensures
        smf.header.track_count as usize != smf.tracks@.len() ==> r == Err::<Vec<u8>, Error>(
            Error::TrackCountMismatch { header: smf.header.track_count, file: smf.tracks.len() },
        ),
        smf.header.track_count as usize == smf.tracks@.len() ==> (r matches Ok(bytes) && bytes@ == smf_bytes(smf@)),
        r is Ok ==> smf@.wf(),
{
    match try_write_smf(smf) {
        Some(r) => r,
        None => {
            // every length fits, so this is never reached
            Ok(Vec::new())
        },
    }
}

// ---------------------------------------------------------------------------------------------
// Reading back what was written
// ---------------------------------------------------------------------------------------------

/// No event of the sequence is a System Reset, whose status byte 0xFF a file reserves for meta
/// events.
pub open spec fn no_system_reset(events: Seq<EventModel>) -> bool {
    forall|i: int| 0 <= i < events.len() ==> !(#[trigger] events[i].data matches EventDataModel::System(SystemEventData::SystemReset))
}

proof fn lemma_take_params_ok(p: Seq<u8>, rest: Seq<u8>)
    requires
        forall|i: int| 0 <= i < p.len() ==> #[trigger] p[i] < 128,
    ensures
        take_params(p + rest, p.len()) == Ok::<(Seq<u8>, Seq<u8>), Error>((rest, p)),
{
    let s = p + rest;
    assert forall|i: int| 0 <= i < p.len() implies #[trigger] s[i] < 128 by {
        assert(s[i] == p[i]);
    }
    assert(s.skip(p.len() as int) =~= rest);
    assert(s.take(p.len() as int) =~= p);
}

proof fn lemma_take_payload_ok(data: Seq<u8>, rest: Seq<u8>)
    requires
        data.len() <= u32::MAX,
    ensures
        take_payload(vlq_bytes(data.len()) + data + rest) == Ok::<(Seq<u8>, Seq<u8>), Error>((rest, data)),
{
    let len = data.len() as u32;
    lemma_vlq_roundtrip(len, data + rest);
    assert(vlq_bytes(data.len()) + data + rest =~= vlq_bytes(len as nat) + (data + rest));
    assert((data + rest).skip(len as int) =~= rest);
    assert((data + rest).take(len as int) =~= data);
}

proof fn lemma_midi_roundtrip(m: MidiEventData, rest: Seq<u8>)
    requires
        m.wf(),
    ensures
        data_bytes(EventDataModel::Midi(m)).len() >= 1,
        data_bytes(EventDataModel::Midi(m))[0] >= 0x80,
        take_event_body((data_bytes(EventDataModel::Midi(m)) + rest).drop_first(), data_bytes(EventDataModel::Midi(m))[0])
            == Ok::<(Seq<u8>, EventDataModel), Error>((rest, EventDataModel::Midi(m).canon())),
{
    let b = data_bytes(EventDataModel::Midi(m));
    let status = message_status(m.message);
    let ch = m.channel@;
    let first = (status + ch) as u8;
    let p = message_params(m.message);
    assert(b == seq![first] + p);
    assert((b + rest).drop_first() =~= p + rest);
    assert(first / 16 == status / 16 && first % 16 == ch);
    assert(p.len() == message_param_count(first / 16));
    assert forall|i: int| 0 <= i < p.len() implies #[trigger] p[i] < 128 by {
        if let Message::ControlChange(c) = m.message {
            lemma_control_code_bound(c.control);
        }
    }
    lemma_take_params_ok(p, rest);
    assert(U4(first % 16) == m.channel);
    match m.message {
        Message::NoteOff(n) => {
            assert(U7(p[0]) == n.note && U7(p[1]) == n.value);
        },
        Message::NoteOn(n) => {
            assert(U7(p[0]) == n.note && U7(p[1]) == n.value);
        },
        Message::KeyPressure(n) => {
            assert(U7(p[0]) == n.note && U7(p[1]) == n.value);
        },
        Message::ControlChange(c) => {
            assert(U7(p[1]) == c.value);
        },
        Message::ProgramChange(x) => {
            assert(U7(p[0]) == x.program);
        },
        Message::ChannelPressure(x) => {
            assert(U7(p[0]) == x.value);
        },
        Message::PitchBend(x) => {
            assert(U14((p[1] * 128 + p[0]) as u16) == x.value);
        },
    }
}

proof fn lemma_system_roundtrip(sys: SystemEventData, rest: Seq<u8>)
    requires
        sys.wf(),
        !(sys matches SystemEventData::SystemReset),
    ensures
        data_bytes(EventDataModel::System(sys)).len() >= 1,
        data_bytes(EventDataModel::System(sys))[0] >= 0x80,
        take_event_body((data_bytes(EventDataModel::System(sys)) + rest).drop_first(), data_bytes(EventDataModel::System(sys))[0])
            == Ok::<(Seq<u8>, EventDataModel), Error>((rest, EventDataModel::System(sys))),
{
    let b = data_bytes(EventDataModel::System(sys));
    match sys {
        SystemEventData::TimeCode(t) => {
            let v = (t.message_type@ * 16 + t.data@) as u8;
            lemma_take_params_ok(seq![v], rest);
            assert((b + rest).drop_first() =~= seq![v] + rest);
            assert(U3(v / 16) == t.message_type && U4(v % 16) == t.data);
        },
        SystemEventData::SongPosition(x) => {
            let p = seq![(x.position@ % 128) as u8, (x.position@ / 128) as u8];
            lemma_take_params_ok(p, rest);
            assert((b + rest).drop_first() =~= p + rest);
            assert(U14((p[1] * 128 + p[0]) as u16) == x.position);
        },
        SystemEventData::SongSelect(x) => {
            lemma_take_params_ok(seq![x.song@], rest);
            assert((b + rest).drop_first() =~= seq![x.song@] + rest);
            assert(U7(x.song@) == x.song);
        },
        _ => {
            assert((b + rest).drop_first() =~= rest);
        },
    }
}

/// A written event's data is read back, in the form that decoding produces, leaving what
/// follows untouched.
proof fn lemma_data_roundtrip(d: EventDataModel, rest: Seq<u8>)
    requires
        d.wf(),
        event_fits(EventModel { delta_time: 0, data: d }),
        !(d matches EventDataModel::System(SystemEventData::SystemReset)),
    ensures
        data_bytes(d).len() >= 1,
        data_bytes(d)[0] >= 0x80,
        take_event_body((data_bytes(d) + rest).drop_first(), data_bytes(d)[0])
            == Ok::<(Seq<u8>, EventDataModel), Error>((rest, d.canon())),
{
    let b = data_bytes(d);
    match d {
        EventDataModel::Midi(m) => {
            lemma_midi_roundtrip(m, rest);
        },
        EventDataModel::System(sys) => {
            lemma_system_roundtrip(sys, rest);
        },
        EventDataModel::SysEx(data) => {
            lemma_take_payload_ok(data, rest);
            assert((b + rest).drop_first() =~= vlq_bytes(data.len()) + data + rest);
        },
        EventDataModel::RawSysEx(data) => {
            lemma_take_payload_ok(data, rest);
            assert((b + rest).drop_first() =~= vlq_bytes(data.len()) + data + rest);
        },
        EventDataModel::Meta(t, data) => {
            lemma_meta_code_bound(t);
            let tail = vlq_bytes(data.len()) + data + rest;
            lemma_take_params_ok(seq![t.spec_code()], tail);
            lemma_take_payload_ok(data, rest);
            assert((b + rest).drop_first() =~= seq![t.spec_code()] + tail);
        },
    }
}

proof fn lemma_control_code_bound(c: Control)
    requires
        c.wf(),
    ensures
        c.spec_code() < 128,
{
}

proof fn lemma_meta_code_bound(t: MetaType)
    requires
        t.wf(),
    ensures
        t.spec_code() < 128,
{
}

/// A written event is read back, in the form that decoding produces, whatever the running
/// status before it.
proof fn lemma_event_roundtrip(e: EventModel, rest: Seq<u8>, last: Option<u8>)
    requires
        e.wf(),
        event_fits(e),
        !(e.data matches EventDataModel::System(SystemEventData::SystemReset)),
    ensures
        take_event(event_bytes(e) + rest, last) == Ok::<(Seq<u8>, EventModel), Error>((rest, e.canon())),
        event_bytes(e).len() >= 1,
{
    let d = data_bytes(e.data);
    lemma_data_roundtrip(e.data, rest);
    lemma_vlq_roundtrip(e.delta_time, d + rest);
    assert(event_bytes(e) + rest =~= vlq_bytes(e.delta_time as nat) + (d + rest));
    assert((d + rest)[0] == d[0]);
}

proof fn lemma_events_roundtrip(events: Seq<EventModel>, last: Option<u8>)
    requires
        events_wf(events),
        forall|i: int| 0 <= i < events.len() ==> #[trigger] event_fits(events[i]),
        no_system_reset(events),
    ensures
        parse_events(events_bytes(events), last) == Ok::<Seq<EventModel>, Error>(events_canon(events)),
    decreases events.len(),
{
    if events.len() == 0 {
        assert(events_canon(events) =~= Seq::<EventModel>::empty());
    } else {
        let e = events[0];
        let tail = events.drop_first();
        assert(e.wf() && event_fits(e));
        assert(!(events[0].data matches EventDataModel::System(SystemEventData::SystemReset)));
        assert forall|i: int| 0 <= i < tail.len() implies #[trigger] tail[i].wf() by {
            assert(tail[i] == events[i + 1]);
        }
        assert forall|i: int| 0 <= i < tail.len() implies #[trigger] event_fits(tail[i]) by {
            assert(tail[i] == events[i + 1]);
        }
        assert forall|i: int| 0 <= i < tail.len()
            implies !(#[trigger] tail[i].data matches EventDataModel::System(SystemEventData::SystemReset)) by {
            assert(tail[i] == events[i + 1]);
        }
        let bytes = events_bytes(events);
        lemma_event_roundtrip(e, events_bytes(tail), last);
        lemma_events_roundtrip(tail, status_after(bytes, last));
        assert(events_canon(events) =~= seq![e.canon()] + events_canon(tail));
    }
}

proof fn lemma_be32_roundtrip(v: u32, rest: Seq<u8>)
    ensures
        be32_at(be32_bytes(v) + rest, 0) == v,
{
    let b = be32_bytes(v) + rest;
    assert(b[0] == (v / 0x100_0000) as u8);
    assert(b[1] == (v / 0x1_0000 % 0x100) as u8);
    assert(b[2] == (v / 0x100 % 0x100) as u8);
    assert(b[3] == (v % 0x100) as u8);
}

proof fn lemma_track_roundtrip(events: Seq<EventModel>, rest: Seq<u8>)
    requires
        events_wf(events),
        track_fits(events),
        no_system_reset(events),
    ensures
        read_track(track_bytes(events) + rest) == Ok::<(Seq<u8>, Seq<EventModel>), Error>((rest, events_canon(events))),
{
    let eb = events_bytes(events);
    let len = eb.len() as u32;
    let s = track_bytes(events) + rest;
    assert(s =~= track_chunk_id()@ + (be32_bytes(len) + (eb + rest)));
    assert(array4(s, 0) =~= track_chunk_id());
    lemma_be32_roundtrip(len, eb + rest);
    assert(be32_at(s, 4) == be32_at(be32_bytes(len) + (eb + rest), 0));
    assert(s.subrange(8, 8 + len) =~= eb);
    assert(s.skip(8 + len) =~= rest);
    lemma_events_roundtrip(events, None);
}

proof fn lemma_tracks_roundtrip(tracks: Seq<Seq<EventModel>>)
    requires
        forall|i: int| 0 <= i < tracks.len() ==> #[trigger] events_wf(tracks[i]),
        forall|i: int| 0 <= i < tracks.len() ==> #[trigger] track_fits(tracks[i]),
        forall|i: int| 0 <= i < tracks.len() ==> #[trigger] no_system_reset(tracks[i]),
    ensures
        read_tracks(tracks_bytes(tracks), tracks.len()) == Ok::<Seq<Seq<EventModel>>, Error>(
            tracks.map_values(|t: Seq<EventModel>| events_canon(t)),
        ),
    decreases tracks.len(),
{
    if tracks.len() > 0 {
        let tail = tracks.drop_first();
        assert forall|i: int| 0 <= i < tail.len() implies #[trigger] events_wf(tail[i]) by {
            assert(tail[i] == tracks[i + 1]);
        }
        assert forall|i: int| 0 <= i < tail.len() implies #[trigger] track_fits(tail[i]) by {
            assert(tail[i] == tracks[i + 1]);
        }
        assert forall|i: int| 0 <= i < tail.len() implies #[trigger] no_system_reset(tail[i]) by {
            assert(tail[i] == tracks[i + 1]);
        }
        assert(events_wf(tracks[0]) && track_fits(tracks[0]) && no_system_reset(tracks[0]));
        lemma_track_roundtrip(tracks[0], tracks_bytes(tail));
        lemma_tracks_roundtrip(tail);
        assert(tracks.map_values(|t: Seq<EventModel>| events_canon(t)) =~= seq![events_canon(tracks[0])]
            + tail.map_values(|t: Seq<EventModel>| events_canon(t)));
    } else {
        assert(tracks.map_values(|t: Seq<EventModel>| events_canon(t)) =~= Seq::<Seq<EventModel>>::empty());
    }
}

proof fn lemma_header_roundtrip(h: FileHeader, rest: Seq<u8>)
    ensures
        read_header(header_bytes(h) + rest) == Ok::<(Seq<u8>, FileHeader), Error>((rest, FileHeader {
            format: SmfFormat::spec_from_code(h.format.spec_code()),
            track_count: h.track_count,
            division: h.division,
        })),
{
    let s = header_bytes(h) + rest;
    let f = h.format.spec_code();
    let w = word_from_i16(h.division);
    assert(s =~= header_chunk_id()@ + (be32_bytes(6) + (be16_bytes(f) + be16_bytes(h.track_count) + be16_bytes(w) + rest)));
    assert(array4(s, 0) =~= header_chunk_id());
    lemma_be32_roundtrip(6, be16_bytes(f) + be16_bytes(h.track_count) + be16_bytes(w) + rest);
    assert(be32_at(s, 4) == 6);
    assert(be16_at(s, 8) == f);
    assert(be16_at(s, 10) == h.track_count);
    assert(be16_at(s, 12) == w);
    assert(i16_from_word(w) == h.division);
    assert(s.skip(14) =~= rest);
}

/// Reading back a written file gives the file, with its format, controllers and meta types in
/// the form that decoding produces, which compares equal to the written file under the library's
/// `==`. This holds for every well-formed file whose header announces as many tracks as it
/// holds, whose lengths fit their fields, and which holds no System Reset event.
pub proof fn lemma_smf_roundtrip(m: SmfModel)
    requires
        m.wf(),
        m.header.track_count == m.tracks.len(),
        smf_fits(m),
        forall|i: int| 0 <= i < m.tracks.len() ==> #[trigger] no_system_reset(m.tracks[i]),
    ensures
        read_smf_spec(smf_bytes(m)) == Ok::<SmfModel, Error>(m.canon()),
{
    lemma_header_roundtrip(m.header, tracks_bytes(m.tracks));
    assert(smf_bytes(m) == header_bytes(m.header) + tracks_bytes(m.tracks));
    lemma_tracks_roundtrip(m.tracks);
}


// ---------------------------------------------------------------------------------------------
// Error messages
// ---------------------------------------------------------------------------------------------

/// The decimal numbers of the bytes, separated by ", ".
pub open spec fn byte_items(b: Seq<u8>) -> Seq<char>
    decreases b.len(),
{
    if b.len() == 0 {
        seq![]
    } else if b.len() == 1 {
        dec(b[0] as nat)
    } else {
        byte_items(b.drop_last()) + ", "@ + dec(b.last() as nat)
    }
}

/// The bytes as `{:?}` writes an array of them: "[77, 84, 104, 100]".
pub open spec fn byte_list(b: Seq<u8>) -> Seq<char> {
    "["@ + byte_items(b) + "]"@
}

/// The upper-case hexadecimal digits of `n`, without leading zeros.
pub open spec fn hex_digits(n: nat) -> Seq<char>
    decreases n,
{
    if n < 16 {
        seq![hex_digit_char(n)]
    } else {
        hex_digits(n / 16).push(hex_digit_char(n % 16))
    }
}

/// The message of an error other than an I/O error; for one, the start of its message.
pub open spec fn error_text(e: Error) -> Seq<char> {
    match e {
        Error::Io(_) => "I/O error: "@,
        Error::UnexpectedHeaderChunk { expected, obtained } => "expected header chunk "@ + byte_list(expected@)
            + ", obtained "@ + byte_list(obtained@),
        Error::UnexpectedHeaderLength { expected, obtained } => "expected header length "@ + dec(expected as nat)
            + ", obtained "@ + dec(obtained as nat),
        Error::UnexpectedTrackChunk { expected, obtained } => "expected track chunk "@ + byte_list(expected@)
            + ", obtained "@ + byte_list(obtained@),
        Error::VariableLengthQuantityTooLarge { maximum, obtained } => "variable-length quantity 0x"@
            + hex_digits(obtained as nat) + " too large; maximum allowed is 0x"@ + hex_digits(maximum as nat),
        Error::UnterminatedVariableLengthQuantity => "variable-length quantity not terminated correctly"@,
        Error::EmptyEvent => "MIDI event with no values"@,
        Error::UnknownPreviousEvent => "MIDI event without a status byte and no previous status byte known"@,
        Error::NotEnoughParameters => "event with too few parameters"@,
        Error::ParameterHighBitSet => "a required parameter has the high bit set (declares itself a status byte)"@,
        Error::MoreLengthThanData => "length value is greater than the amount of remaining data"@,
        Error::UnknownMessage { status_byte } => "unknown message with status byte "@ + hex_byte(status_byte),
        Error::TrackCountMismatch { header, file } => "track number mismatch between header ("@
            + dec(header as nat) + ") and file ("@ + dec(file as nat) + ")"@,
    }
}

/// Appends the bytes as `{:?}` writes an array of them.
fn push_byte_list(out: &mut Vec<char>, b: &[u8; 4])
    ensures
        final(out)@ == old(out)@ + byte_list(b@),
{
    let ghost start = out@;
    push_str(out, "[");
    let mut i: usize = 0;
    assert(b@.take(0) =~= Seq::<u8>::empty());
    while i < 4
        invariant
            i <= 4,
            b@.len() == 4,
            out@ == start + "["@ + byte_items(b@.take(i as int)),
        decreases 4 - i,
    {
        if i > 0 {
            push_str(out, ", ");
        }
        push_decimal(out, b[i] as u64);
        proof {
            let p = b@.take(i + 1);
            assert(p.drop_last() =~= b@.take(i as int));
            assert(p.last() == b@[i as int]);
            if i == 0 {
                assert(byte_items(b@.take(0)) == Seq::<char>::empty());
                assert(out@ =~= start + "["@ + byte_items(p));
            } else {
                assert(out@ =~= start + "["@ + byte_items(p));
            }
        }
        i += 1;
    }
    assert(b@.take(4) =~= b@);
    push_str(out, "]");
    assert(out@ =~= start + byte_list(b@));
}

/// Appends the upper-case hexadecimal digits of `n`.
fn push_hex(out: &mut Vec<char>, n: u64)
    ensures
        final(out)@ == old(out)@ + hex_digits(n as nat),
    decreases n,
{
    if n >= 16 {
        push_hex(out, n / 16);
    }
    let d: u8 = (n % 16) as u8;
    out.push(hex_digit(d));
    proof {
        assert(final(out)@ =~= old(out)@ + hex_digits(n as nat));
    }
}

impl Error {
    /// The human-readable message of the error. For an I/O error it starts with "I/O error: ",
    /// and what `std::io::Error` displays follows.
    pub fn message(&self) -> (r: String)
        ensures
            !(self is Io) ==> r@ == error_text(*self),
            self is Io ==> error_text(*self).is_prefix_of(r@),
    {
        let mut out: Vec<char> = Vec::new();
        match self {
            Error::Io(e) => {
                push_str(&mut out, "I/O error: ");
                let t = e.to_string();
                push_str(&mut out, t.as_str());
                proof {
                    reveal_strlit("I/O error: ");
                    assert(out@.take(11) =~= "I/O error: "@);
                }
            },
            Error::UnexpectedHeaderChunk { expected, obtained } => {
                push_str(&mut out, "expected header chunk ");
                push_byte_list(&mut out, expected);
                push_str(&mut out, ", obtained ");
                push_byte_list(&mut out, obtained);
            },
            Error::UnexpectedHeaderLength { expected, obtained } => {
                push_str(&mut out, "expected header length ");
                push_decimal(&mut out, *expected as u64);
                push_str(&mut out, ", obtained ");
                push_decimal(&mut out, *obtained as u64);
            },
            Error::UnexpectedTrackChunk { expected, obtained } => {
                push_str(&mut out, "expected track chunk ");
                push_byte_list(&mut out, expected);
                push_str(&mut out, ", obtained ");
                push_byte_list(&mut out, obtained);
            },
            Error::VariableLengthQuantityTooLarge { maximum, obtained } => {
                push_str(&mut out, "variable-length quantity 0x");
                push_hex(&mut out, *obtained);
                push_str(&mut out, " too large; maximum allowed is 0x");
                push_hex(&mut out, *maximum);
            },
            Error::UnterminatedVariableLengthQuantity => {
                push_str(&mut out, "variable-length quantity not terminated correctly");
            },
            Error::EmptyEvent => {
                push_str(&mut out, "MIDI event with no values");
            },
            Error::UnknownPreviousEvent => {
                push_str(&mut out, "MIDI event without a status byte and no previous status byte known");
            },
            Error::NotEnoughParameters => {
                push_str(&mut out, "event with too few parameters");
            },
            Error::ParameterHighBitSet => {
                push_str(&mut out, "a required parameter has the high bit set (declares itself a status byte)");
            },
            Error::MoreLengthThanData => {
                push_str(&mut out, "length value is greater than the amount of remaining data");
            },
            Error::UnknownMessage { status_byte } => {
                push_str(&mut out, "unknown message with status byte 0x");
                out.push(hex_digit(*status_byte / 16));
                out.push(hex_digit(*status_byte % 16));
                proof {
                    reveal_strlit("unknown message with status byte 0x");
                    reveal_strlit("unknown message with status byte ");
                }
            },
            Error::TrackCountMismatch { header, file } => {
                push_str(&mut out, "track number mismatch between header (");
                push_decimal(&mut out, *header as u64);
                push_str(&mut out, ") and file (");
                push_decimal(&mut out, *file as u64);
                push_str(&mut out, ")");
            },
        }
        proof {
            assert(!(self is Io) ==> out@ =~= error_text(*self));
        }
        string_from_chars(out.as_slice())
    }
}


impl Error {
    /// The error underneath: the I/O error of an `Io` error, else none.
    pub fn source(&self) -> (r: Option<&std::io::Error>)
        ensures
            match self {
                Error::Io(e) => r == Some(e),
                _ => r is None,
            },
    {
        match self {
            Error::Io(e) => Some(e),
            _ => None,
        }
    }
}

impl From<std::io::Error> for Error {
    fn from(value: std::io::Error) -> (r: Self) {
        Error::Io(value)
    }
}

impl vstd::std_specs::convert::FromSpecImpl<std::io::Error> for Error {
    open spec fn obeys_from_spec() -> bool {
        true
    }

    open spec fn from_spec(value: std::io::Error) -> Error {
        Error::Io(value)
    }
}


// ---------------------------------------------------------------------------------------------
// The status bytes of the MIDI standard
// ---------------------------------------------------------------------------------------------

/// What the writer writes for each kind of event data: a channel message as its status byte
/// (0x80 note off, 0x90 note on, 0xA0 key pressure, 0xB0 control change, 0xC0 program change,
/// 0xD0 channel pressure, 0xE0 pitch bend, each plus the channel) and its data bytes; a system
/// message as its status byte (0xF1 to 0xFF) and its data; SysEx as 0xF0, raw SysEx as 0xF7, and
/// a meta event as 0xFF and its type, each followed by the length and the bytes.
pub proof fn lemma_written_status_bytes(d: EventDataModel)
    ensures
        d matches EventDataModel::Midi(m) ==> {
            let c = m.channel@;
            &&& m.message matches Message::NoteOff(n) ==> data_bytes(d) == seq![(0x80 + c) as u8, n.note@, n.value@]
            &&& m.message matches Message::NoteOn(n) ==> data_bytes(d) == seq![(0x90 + c) as u8, n.note@, n.value@]
            &&& m.message matches Message::KeyPressure(n) ==> data_bytes(d) == seq![(0xA0 + c) as u8, n.note@, n.value@]
            &&& m.message matches Message::ControlChange(x) ==> data_bytes(d)
                == seq![(0xB0 + c) as u8, x.control.spec_code(), x.value@]
            &&& m.message matches Message::ProgramChange(p) ==> data_bytes(d) == seq![(0xC0 + c) as u8, p.program@]
            &&& m.message matches Message::ChannelPressure(x) ==> data_bytes(d) == seq![(0xD0 + c) as u8, x.value@]
            &&& m.message matches Message::PitchBend(p) ==> data_bytes(d)
                == seq![(0xE0 + c) as u8, (p.value@ % 128) as u8, (p.value@ / 128) as u8]
        },
        d matches EventDataModel::System(s) ==> {
            &&& s matches SystemEventData::TimeCode(t) ==> data_bytes(d)
                == seq![0xF1u8, (t.message_type@ * 16 + t.data@) as u8]
            &&& s matches SystemEventData::SongPosition(p) ==> data_bytes(d)
                == seq![0xF2u8, (p.position@ % 128) as u8, (p.position@ / 128) as u8]
            &&& s matches SystemEventData::SongSelect(x) ==> data_bytes(d) == seq![0xF3u8, x.song@]
            &&& s is TuneRequest ==> data_bytes(d) == seq![0xF6u8]
            &&& s is TimingClock ==> data_bytes(d) == seq![0xF8u8]
            &&& s is F9 ==> data_bytes(d) == seq![0xF9u8]
            &&& s is Start ==> data_bytes(d) == seq![0xFAu8]
            &&& s is Continue ==> data_bytes(d) == seq![0xFBu8]
            &&& s is Stop ==> data_bytes(d) == seq![0xFCu8]
            &&& s is FD ==> data_bytes(d) == seq![0xFDu8]
            &&& s is ActiveSensing ==> data_bytes(d) == seq![0xFEu8]
            &&& s is SystemReset ==> data_bytes(d) == seq![0xFFu8]
        },
        d matches EventDataModel::SysEx(x) ==> data_bytes(d) == seq![0xF0u8] + vlq_bytes(x.len()) + x,
        d matches EventDataModel::RawSysEx(x) ==> data_bytes(d) == seq![0xF7u8] + vlq_bytes(x.len()) + x,
        d matches EventDataModel::Meta(t, x) ==> data_bytes(d) == seq![0xFFu8, t.spec_code()] + vlq_bytes(x.len()) + x,
{
    match d {
        EventDataModel::Midi(m) => {
            assert(seq![(message_status(m.message) + m.channel@) as u8] + message_params(m.message) =~= data_bytes(d));
            match m.message {
                Message::NoteOff(n) => assert(data_bytes(d) =~= seq![(0x80 + m.channel@) as u8, n.note@, n.value@]),
                Message::NoteOn(n) => assert(data_bytes(d) =~= seq![(0x90 + m.channel@) as u8, n.note@, n.value@]),
                Message::KeyPressure(n) => assert(data_bytes(d) =~= seq![(0xA0 + m.channel@) as u8, n.note@, n.value@]),
                Message::ControlChange(x) => assert(data_bytes(d)
                    =~= seq![(0xB0 + m.channel@) as u8, x.control.spec_code(), x.value@]),
                Message::ProgramChange(p) => assert(data_bytes(d) =~= seq![(0xC0 + m.channel@) as u8, p.program@]),
                Message::ChannelPressure(x) => assert(data_bytes(d) =~= seq![(0xD0 + m.channel@) as u8, x.value@]),
                Message::PitchBend(p) => assert(data_bytes(d)
                    =~= seq![(0xE0 + m.channel@) as u8, (p.value@ % 128) as u8, (p.value@ / 128) as u8]),
            }
        },
        _ => {},
    }
}

proof fn lemma_take_two(a: u8, b: u8, rest: Seq<u8>)
    requires
        a < 128,
        b < 128,
    ensures
        take_params(seq![a, b] + rest, 2) == Ok::<(Seq<u8>, Seq<u8>), Error>((rest, seq![a, b])),
{
    let s = seq![a, b] + rest;
    assert(s[0] == a && s[1] == b);
    assert(s.skip(2) =~= rest);
    assert(s.take(2) =~= seq![a, b]);
}

proof fn lemma_take_one(a: u8, rest: Seq<u8>)
    requires
        a < 128,
    ensures
        take_params(seq![a] + rest, 1) == Ok::<(Seq<u8>, Seq<u8>), Error>((rest, seq![a])),
{
    let s = seq![a] + rest;
    assert(s[0] == a);
    assert(s.skip(1) =~= rest);
    assert(s.take(1) =~= seq![a]);
}

/// What the reader reads after each channel status byte: 0x80 to 0x8F a note off, 0x90 a note
/// on, 0xA0 key pressure, 0xB0 a control change, each with two data bytes; 0xC0 a program change
/// and 0xD0 channel pressure with one; 0xE0 a pitch bend, least significant seven bits first;
/// the low nibble of the status byte is the channel.
pub proof fn lemma_read_channel_messages(c: u8, a: u8, b: u8, rest: Seq<u8>)
    requires
        c < 16,
        a < 128,
        b < 128,
    ensures
        ({
            &&& take_event_body(seq![a, b] + rest, (0x80 + c) as u8) matches Ok((r, EventDataModel::Midi(m)))
            &&& r == rest
            &&& m.channel@ == c
            &&& m.message matches Message::NoteOff(n)
            &&& n.note@ == a
            &&& n.value@ == b
        }),
        ({
            &&& take_event_body(seq![a, b] + rest, (0x90 + c) as u8) matches Ok((r, EventDataModel::Midi(m)))
            &&& r == rest
            &&& m.channel@ == c
            &&& m.message matches Message::NoteOn(n)
            &&& n.note@ == a
            &&& n.value@ == b
        }),
        ({
            &&& take_event_body(seq![a, b] + rest, (0xA0 + c) as u8) matches Ok((r, EventDataModel::Midi(m)))
            &&& r == rest
            &&& m.channel@ == c
            &&& m.message matches Message::KeyPressure(n)
            &&& n.note@ == a
            &&& n.value@ == b
        }),
        ({
            &&& take_event_body(seq![a, b] + rest, (0xB0 + c) as u8) matches Ok((r, EventDataModel::Midi(m)))
            &&& r == rest
            &&& m.channel@ == c
            &&& m.message matches Message::ControlChange(x)
            &&& x.control.spec_code() == a
            &&& x.value@ == b
        }),
        ({
            &&& take_event_body(seq![a] + rest, (0xC0 + c) as u8) matches Ok((r, EventDataModel::Midi(m)))
            &&& r == rest
            &&& m.channel@ == c
            &&& m.message matches Message::ProgramChange(p)
            &&& p.program@ == a
        }),
        ({
            &&& take_event_body(seq![a] + rest, (0xD0 + c) as u8) matches Ok((r, EventDataModel::Midi(m)))
            &&& r == rest
            &&& m.channel@ == c
            &&& m.message matches Message::ChannelPressure(x)
            &&& x.value@ == a
        }),
        ({
            &&& take_event_body(seq![a, b] + rest, (0xE0 + c) as u8) matches Ok((r, EventDataModel::Midi(m)))
            &&& r == rest
            &&& m.channel@ == c
            &&& m.message matches Message::PitchBend(p)
            &&& p.value@ == b * 128 + a
        }),
{
    lemma_take_two(a, b, rest);
    lemma_take_one(a, rest);
    assert(((0x80 + c) as u8) / 16 == 8 && ((0x80 + c) as u8) % 16 == c);
    assert(((0x90 + c) as u8) / 16 == 9 && ((0x90 + c) as u8) % 16 == c);
    assert(((0xA0 + c) as u8) / 16 == 10 && ((0xA0 + c) as u8) % 16 == c);
    assert(((0xB0 + c) as u8) / 16 == 11 && ((0xB0 + c) as u8) % 16 == c);
    assert(((0xC0 + c) as u8) / 16 == 12 && ((0xC0 + c) as u8) % 16 == c);
    assert(((0xD0 + c) as u8) / 16 == 13 && ((0xD0 + c) as u8) % 16 == c);
    assert(((0xE0 + c) as u8) / 16 == 14 && ((0xE0 + c) as u8) % 16 == c);
    crate::midi::model::lemma_control_code_roundtrip(a);
}

/// What the reader reads after each system status byte: 0xF1 a time code (the high three bits
/// of its data byte the message type, the low four the data), 0xF2 a song position (least
/// significant seven bits first), 0xF3 a song select, 0xF6 a tune request, 0xF8 the timing
/// clock, 0xF9, 0xFA start, 0xFB continue, 0xFC stop, 0xFD, 0xFE active sensing.
pub proof fn lemma_read_system_messages(a: u8, b: u8, rest: Seq<u8>)
    requires
        a < 128,
        b < 128,
    ensures
        ({
            &&& take_event_body(seq![a] + rest, 0xF1) matches Ok((r, EventDataModel::System(x)))
            &&& r == rest
            &&& x matches SystemEventData::TimeCode(t)
            &&& t.message_type@ == a / 16
            &&& t.data@ == a % 16
        }),
        ({
            &&& take_event_body(seq![a, b] + rest, 0xF2) matches Ok((r, EventDataModel::System(x)))
            &&& r == rest
            &&& x matches SystemEventData::SongPosition(p)
            &&& p.position@ == b * 128 + a
        }),
        ({
            &&& take_event_body(seq![a] + rest, 0xF3) matches Ok((r, EventDataModel::System(x)))
            &&& r == rest
            &&& x matches SystemEventData::SongSelect(y)
            &&& y.song@ == a
        }),
        ({
            &&& take_event_body(rest, 0xF6) matches Ok((r, EventDataModel::System(x)))
            &&& r == rest
            &&& x is TuneRequest
        }),
        ({
            &&& take_event_body(rest, 0xF8) matches Ok((r, EventDataModel::System(x)))
            &&& r == rest
            &&& x is TimingClock
        }),
        ({
            &&& take_event_body(rest, 0xF9) matches Ok((r, EventDataModel::System(x)))
            &&& r == rest
            &&& x is F9
        }),
        ({
            &&& take_event_body(rest, 0xFA) matches Ok((r, EventDataModel::System(x)))
            &&& r == rest
            &&& x is Start
        }),
        ({
            &&& take_event_body(rest, 0xFB) matches Ok((r, EventDataModel::System(x)))
            &&& r == rest
            &&& x is Continue
        }),
        ({
            &&& take_event_body(rest, 0xFC) matches Ok((r, EventDataModel::System(x)))
            &&& r == rest
            &&& x is Stop
        }),
        ({
            &&& take_event_body(rest, 0xFD) matches Ok((r, EventDataModel::System(x)))
            &&& r == rest
            &&& x is FD
        }),
        ({
            &&& take_event_body(rest, 0xFE) matches Ok((r, EventDataModel::System(x)))
            &&& r == rest
            &&& x is ActiveSensing
        }),
{
    lemma_take_two(a, b, rest);
    lemma_take_one(a, rest);
}

/// What the reader reads after 0xF0, 0xF7 and 0xFF: a SysEx event, a raw SysEx event, and a
/// meta event (its type byte, then its data), each with a length and that many bytes.
pub proof fn lemma_read_sysex_and_meta(t: u8, data: Seq<u8>, rest: Seq<u8>)
    requires
        t < 128,
        data.len() <= u32::MAX,
    ensures
        ({
            &&& take_event_body(vlq_bytes(data.len()) + data + rest, 0xF0) matches Ok((r, EventDataModel::SysEx(x)))
            &&& r == rest
            &&& x == data
        }),
        ({
            &&& take_event_body(vlq_bytes(data.len()) + data + rest, 0xF7) matches Ok((r, EventDataModel::RawSysEx(x)))
            &&& r == rest
            &&& x == data
        }),
        ({
            &&& take_event_body(seq![t] + vlq_bytes(data.len()) + data + rest, 0xFF) matches Ok((r, EventDataModel::Meta(mt, x)))
            &&& r == rest
            &&& x == data
            &&& mt == MetaType::spec_from_code(t)
        }),
{
    let body = data + rest;
    lemma_vlq_roundtrip(data.len() as u32, body);
    assert(vlq_bytes(data.len()) + data + rest =~= vlq_bytes(data.len()) + body);
    assert(body.skip(data.len() as int) =~= rest);
    assert(body.take(data.len() as int) =~= data);
    let after = vlq_bytes(data.len()) + body;
    lemma_take_one(t, after);
    assert(seq![t] + vlq_bytes(data.len()) + data + rest =~= seq![t] + after);
}

} // verus!
