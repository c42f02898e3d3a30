//! The data model of a Standard MIDI File: small fixed-width integers, events, tracks.

use vstd::prelude::*;

verus! {

/// A type whose values have a known largest value.
pub trait KnownMaxValue: Sized {
    /// The value, widened.
    spec fn spec_as_u64(self) -> u64;

    /// The largest value, widened.
    spec fn spec_max_u64() -> u64;

    fn known_max_value() -> (r: Self)
        ensures
            r.spec_as_u64() == Self::spec_max_u64(),
    ;
}

impl KnownMaxValue for u8 {
    open spec fn spec_as_u64(self) -> u64 {
        self as u64
    }

    open spec fn spec_max_u64() -> u64 {
        0xff
    }

    fn known_max_value() -> (r: Self) {
        u8::MAX
    }
}

impl KnownMaxValue for u16 {
    open spec fn spec_as_u64(self) -> u64 {
        self as u64
    }

    open spec fn spec_max_u64() -> u64 {
        0xffff
    }

    fn known_max_value() -> (r: Self) {
        u16::MAX
    }
}

impl KnownMaxValue for u32 {
    open spec fn spec_as_u64(self) -> u64 {
        self as u64
    }

    open spec fn spec_max_u64() -> u64 {
        0xffff_ffff
    }

    fn known_max_value() -> (r: Self) {
        u32::MAX
    }
}

/// A 3-bit unsigned integer.
#[derive(Clone, Copy, Debug, PartialEq, Eq, Structural, Hash, PartialOrd, Ord)]
pub struct U3(pub(crate) u8);

impl View for U3 {
    type V = u8;

    open(crate) spec fn view(&self) -> u8 {
        self.0
    }
}

impl U3 {
    /// The largest value a `U3` holds.
    pub open spec fn spec_max() -> u8 {
        7
    }

    /// Every `U3` stays within its range.
    #[verifier::type_invariant]
    pub(crate) open(crate) spec fn wf(self) -> bool {
        self.0 <= 7
    }

    pub fn zero() -> (r: Self)
        ensures
            r@ == 0,
    {
        U3(0)
    }

    /// Wraps `value`, which must not exceed the maximum.
    pub fn from_base_type(value: u8) -> (r: Self)
        requires
            value <= 7,
        ensures
            r@ == value,
    {
        U3(value)
    }

    pub fn to_base_type(&self) -> (r: u8)
        ensures
            r == self@,
            r <= 7,
    {
        proof {
            use_type_invariant(self);
        }
        self.0
    }

    /// Wraps `value` when it is in range, else hands it back.
    pub fn try_from_base_type(value: u8) -> (r: Result<Self, u8>)
        ensures
            value <= 7 ==> (r matches Ok(x) && x@ == value),
            value > 7 ==> r == Err::<Self, u8>(value),
    {
        if value > 7 {
            Err(value)
        } else {
            Ok(U3(value))
        }
    }
}

impl TryFrom<u8> for U3 {
    type Error = u8;

    fn try_from(value: u8) -> (r: Result<Self, Self::Error>) {
        U3::try_from_base_type(value)
    }
}

impl vstd::std_specs::convert::TryFromSpecImpl<u8> for U3 {
    open spec fn obeys_try_from_spec() -> bool {
        true
    }

    closed spec fn try_from_spec(value: u8) -> Result<Self, Self::Error> {
        if value > 7 {
            Err(value)
        } else {
            Ok(U3(value))
        }
    }
}

impl From<U3> for u8 {
    fn from(value: U3) -> (r: u8) {
        value.to_base_type()
    }
}

impl vstd::std_specs::convert::FromSpecImpl<U3> for u8 {
    open spec fn obeys_from_spec() -> bool {
        true
    }

    open spec fn from_spec(value: U3) -> u8 {
        value@
    }
}

impl Default for U3 {
    fn default() -> (r: Self)
        ensures
            r@ == 0,
    {
        U3(0)
    }
}

impl TryFrom<u64> for U3 {
    type Error = u64;

    fn try_from(value: u64) -> (r: Result<Self, Self::Error>) {
        if value > 7 {
            Err(value)
        } else {
            Ok(U3(value as u8))
        }
    }
}

impl vstd::std_specs::convert::TryFromSpecImpl<u64> for U3 {
    open spec fn obeys_try_from_spec() -> bool {
        true
    }

    closed spec fn try_from_spec(value: u64) -> Result<Self, Self::Error> {
        if value > 7 {
            Err(value)
        } else {
            Ok(U3(value as u8))
        }
    }
}

impl From<U3> for u64 {
    fn from(value: U3) -> (r: u64) {
        value.to_base_type() as u64
    }
}

impl vstd::std_specs::convert::FromSpecImpl<U3> for u64 {
    open spec fn obeys_from_spec() -> bool {
        true
    }

    open spec fn from_spec(value: U3) -> u64 {
        value@ as u64
    }
}

impl KnownMaxValue for U3 {
    open spec fn spec_as_u64(self) -> u64 {
        self@ as u64
    }

    open spec fn spec_max_u64() -> u64 {
        7
    }

    fn known_max_value() -> (r: Self) {
        U3(7)
    }
}

/// A 4-bit unsigned integer.
#[derive(Clone, Copy, Debug, PartialEq, Eq, Structural, Hash, PartialOrd, Ord)]
pub struct U4(pub(crate) u8);

impl View for U4 {
    type V = u8;

    open(crate) spec fn view(&self) -> u8 {
        self.0
    }
}

impl U4 {
    /// The largest value a `U4` holds.
    pub open spec fn spec_max() -> u8 {
        15
    }

    /// Every `U4` stays within its range.
    #[verifier::type_invariant]
    pub(crate) open(crate) spec fn wf(self) -> bool {
        self.0 <= 15
    }

    pub fn zero() -> (r: Self)
        ensures
            r@ == 0,
    {
        U4(0)
    }

    /// Wraps `value`, which must not exceed the maximum.
    pub fn from_base_type(value: u8) -> (r: Self)
        requires
            value <= 15,
        ensures
            r@ == value,
    {
        U4(value)
    }

    pub fn to_base_type(&self) -> (r: u8)
        ensures
            r == self@,
            r <= 15,
    {
        proof {
            use_type_invariant(self);
        }
        self.0
    }

    /// Wraps `value` when it is in range, else hands it back.
    pub fn try_from_base_type(value: u8) -> (r: Result<Self, u8>)
        ensures
            value <= 15 ==> (r matches Ok(x) && x@ == value),
            value > 15 ==> r == Err::<Self, u8>(value),
    {
        if value > 15 {
            Err(value)
        } else {
            Ok(U4(value))
        }
    }
}

impl TryFrom<u8> for U4 {
    type Error = u8;

    fn try_from(value: u8) -> (r: Result<Self, Self::Error>) {
        U4::try_from_base_type(value)
    }
}

impl vstd::std_specs::convert::TryFromSpecImpl<u8> for U4 {
    open spec fn obeys_try_from_spec() -> bool {
        true
    }

    closed spec fn try_from_spec(value: u8) -> Result<Self, Self::Error> {
        if value > 15 {
            Err(value)
        } else {
            Ok(U4(value))
        }
    }
}

impl From<U4> for u8 {
    fn from(value: U4) -> (r: u8) {
        value.to_base_type()
    }
}

impl vstd::std_specs::convert::FromSpecImpl<U4> for u8 {
    open spec fn obeys_from_spec() -> bool {
        true
    }

    open spec fn from_spec(value: U4) -> u8 {
        value@
    }
}

impl Default for U4 {
    fn default() -> (r: Self)
        ensures
            r@ == 0,
    {
        U4(0)
    }
}

impl TryFrom<u64> for U4 {
    type Error = u64;

    fn try_from(value: u64) -> (r: Result<Self, Self::Error>) {
        if value > 15 {
            Err(value)
        } else {
            Ok(U4(value as u8))
        }
    }
}

impl vstd::std_specs::convert::TryFromSpecImpl<u64> for U4 {
    open spec fn obeys_try_from_spec() -> bool {
        true
    }

    closed spec fn try_from_spec(value: u64) -> Result<Self, Self::Error> {
        if value > 15 {
            Err(value)
        } else {
            Ok(U4(value as u8))
        }
    }
}

impl From<U4> for u64 {
    fn from(value: U4) -> (r: u64) {
        value.to_base_type() as u64
    }
}

impl vstd::std_specs::convert::FromSpecImpl<U4> for u64 {
    open spec fn obeys_from_spec() -> bool {
        true
    }

    open spec fn from_spec(value: U4) -> u64 {
        value@ as u64
    }
}

impl KnownMaxValue for U4 {
    open spec fn spec_as_u64(self) -> u64 {
        self@ as u64
    }

    open spec fn spec_max_u64() -> u64 {
        15
    }

    fn known_max_value() -> (r: Self) {
        U4(15)
    }
}

/// A 7-bit unsigned integer, the range of a MIDI data byte.
#[derive(Clone, Copy, Debug, PartialEq, Eq, Structural, Hash, PartialOrd, Ord)]
pub struct U7(pub(crate) u8);

impl View for U7 {
    type V = u8;

    open(crate) spec fn view(&self) -> u8 {
        self.0
    }
}

impl U7 {
    /// The largest value a `U7` holds.
    pub open spec fn spec_max() -> u8 {
        127
    }

    /// Every `U7` stays within its range.
    #[verifier::type_invariant]
    pub(crate) open(crate) spec fn wf(self) -> bool {
        self.0 <= 127
    }

    pub fn zero() -> (r: Self)
        ensures
            r@ == 0,
    {
        U7(0)
    }

    /// Wraps `value`, which must not exceed the maximum.
    pub fn from_base_type(value: u8) -> (r: Self)
        requires
            value <= 127,
        ensures
            r@ == value,
    {
        U7(value)
    }

    pub fn to_base_type(&self) -> (r: u8)
        ensures
            r == self@,
            r <= 127,
    {
        proof {
            use_type_invariant(self);
        }
        self.0
    }

    /// Wraps `value` when it is in range, else hands it back.
    pub fn try_from_base_type(value: u8) -> (r: Result<Self, u8>)
        ensures
            value <= 127 ==> (r matches Ok(x) && x@ == value),
            value > 127 ==> r == Err::<Self, u8>(value),
    {
        if value > 127 {
            Err(value)
        } else {
            Ok(U7(value))
        }
    }
}

impl TryFrom<u8> for U7 {
    type Error = u8;

    fn try_from(value: u8) -> (r: Result<Self, Self::Error>) {
        U7::try_from_base_type(value)
    }
}

impl vstd::std_specs::convert::TryFromSpecImpl<u8> for U7 {
    open spec fn obeys_try_from_spec() -> bool {
        true
    }

    closed spec fn try_from_spec(value: u8) -> Result<Self, Self::Error> {
        if value > 127 {
            Err(value)
        } else {
            Ok(U7(value))
        }
    }
}

impl From<U7> for u8 {
    fn from(value: U7) -> (r: u8) {
        value.to_base_type()
    }
}

impl vstd::std_specs::convert::FromSpecImpl<U7> for u8 {
    open spec fn obeys_from_spec() -> bool {
        true
    }

    open spec fn from_spec(value: U7) -> u8 {
        value@
    }
}

impl Default for U7 {
    fn default() -> (r: Self)
        ensures
            r@ == 0,
    {
        U7(0)
    }
}

impl TryFrom<u64> for U7 {
    type Error = u64;

    fn try_from(value: u64) -> (r: Result<Self, Self::Error>) {
        if value > 127 {
            Err(value)
        } else {
            Ok(U7(value as u8))
        }
    }
}

impl vstd::std_specs::convert::TryFromSpecImpl<u64> for U7 {
    open spec fn obeys_try_from_spec() -> bool {
        true
    }

    closed spec fn try_from_spec(value: u64) -> Result<Self, Self::Error> {
        if value > 127 {
            Err(value)
        } else {
            Ok(U7(value as u8))
        }
    }
}

impl From<U7> for u64 {
    fn from(value: U7) -> (r: u64) {
        value.to_base_type() as u64
    }
}

impl vstd::std_specs::convert::FromSpecImpl<U7> for u64 {
    open spec fn obeys_from_spec() -> bool {
        true
    }

    open spec fn from_spec(value: U7) -> u64 {
        value@ as u64
    }
}

impl KnownMaxValue for U7 {
    open spec fn spec_as_u64(self) -> u64 {
        self@ as u64
    }

    open spec fn spec_max_u64() -> u64 {
        127
    }

    fn known_max_value() -> (r: Self) {
        U7(127)
    }
}

/// A 14-bit unsigned integer, carried by MIDI as two data bytes.
#[derive(Clone, Copy, Debug, PartialEq, Eq, Structural, Hash, PartialOrd, Ord)]
pub struct U14(pub(crate) u16);

impl View for U14 {
    type V = u16;

    open(crate) spec fn view(&self) -> u16 {
        self.0
    }
}

impl U14 {
    /// The largest value a `U14` holds.
    pub open spec fn spec_max() -> u16 {
        16383
    }

    /// Every `U14` stays within its range.
    #[verifier::type_invariant]
    pub(crate) open(crate) spec fn wf(self) -> bool {
        self.0 <= 16383
    }

    pub fn zero() -> (r: Self)
        ensures
            r@ == 0,
    {
        U14(0)
    }

    /// Wraps `value`, which must not exceed the maximum.
    pub fn from_base_type(value: u16) -> (r: Self)
        requires
            value <= 16383,
        ensures
            r@ == value,
    {
        U14(value)
    }

    pub fn to_base_type(&self) -> (r: u16)
        ensures
            r == self@,
            r <= 16383,
    {
        proof {
            use_type_invariant(self);
        }
        self.0
    }

    /// Wraps `value` when it is in range, else hands it back.
    pub fn try_from_base_type(value: u16) -> (r: Result<Self, u16>)
        ensures
            value <= 16383 ==> (r matches Ok(x) && x@ == value),
            value > 16383 ==> r == Err::<Self, u16>(value),
    {
        if value > 16383 {
            Err(value)
        } else {
            Ok(U14(value))
        }
    }
}

impl TryFrom<u16> for U14 {
    type Error = u16;

    fn try_from(value: u16) -> (r: Result<Self, Self::Error>) {
        U14::try_from_base_type(value)
    }
}

impl vstd::std_specs::convert::TryFromSpecImpl<u16> for U14 {
    open spec fn obeys_try_from_spec() -> bool {
        true
    }

    closed spec fn try_from_spec(value: u16) -> Result<Self, Self::Error> {
        if value > 16383 {
            Err(value)
        } else {
            Ok(U14(value))
        }
    }
}

impl From<U14> for u16 {
    fn from(value: U14) -> (r: u16) {
        value.to_base_type()
    }
}

impl vstd::std_specs::convert::FromSpecImpl<U14> for u16 {
    open spec fn obeys_from_spec() -> bool {
        true
    }

    open spec fn from_spec(value: U14) -> u16 {
        value@
    }
}

impl Default for U14 {
    fn default() -> (r: Self)
        ensures
            r@ == 0,
    {
        U14(0)
    }
}

impl TryFrom<u64> for U14 {
    type Error = u64;

    fn try_from(value: u64) -> (r: Result<Self, Self::Error>) {
        if value > 16383 {
            Err(value)
        } else {
            Ok(U14(value as u16))
        }
    }
}

impl vstd::std_specs::convert::TryFromSpecImpl<u64> for U14 {
    open spec fn obeys_try_from_spec() -> bool {
        true
    }

    closed spec fn try_from_spec(value: u64) -> Result<Self, Self::Error> {
        if value > 16383 {
            Err(value)
        } else {
            Ok(U14(value as u16))
        }
    }
}

impl From<U14> for u64 {
    fn from(value: U14) -> (r: u64) {
        value.to_base_type() as u64
    }
}

impl vstd::std_specs::convert::FromSpecImpl<U14> for u64 {
    open spec fn obeys_from_spec() -> bool {
        true
    }

    open spec fn from_spec(value: U14) -> u64 {
        value@ as u64
    }
}

impl KnownMaxValue for U14 {
    open spec fn spec_as_u64(self) -> u64 {
        self@ as u64
    }

    open spec fn spec_max_u64() -> u64 {
        16383
    }

    fn known_max_value() -> (r: Self) {
        U14(16383)
    }
}

impl U14 {
    /// Splits the value into its low and its high seven bits.
    pub fn to_lsb_msb(&self) -> (r: (U7, U7))
        ensures
            r.0@ == self@ % 128,
            r.1@ == self@ / 128,
    {
        proof {
            use_type_invariant(self);
        }
        let v: u16 = self.0;
        let lsb_big: u16 = (v >> 0u16) & 0b0111_1111u16;
        let msb_big: u16 = (v >> 7u16) & 0b0111_1111u16;
        assert(lsb_big == v % 128 && msb_big == v / 128) by (bit_vector)
            requires
                v <= 16383,
                lsb_big == (v >> 0u16) & 0b0111_1111u16,
                msb_big == (v >> 7u16) & 0b0111_1111u16,
        ;
        let lsb: u8 = lsb_big as u8;
        let msb: u8 = msb_big as u8;
        (U7::from_base_type(lsb), U7::from_base_type(msb))
    }
}

/// A complete Standard MIDI File: its header and its tracks.
#[derive(Clone, Debug, PartialEq, Eq, PartialOrd)]
pub struct StandardMidiFile {
    pub header: FileHeader,
    pub tracks: Vec<Track>,
}

/// The header chunk of a Standard MIDI File.
#[derive(Clone, Copy, Debug, PartialEq, Eq, PartialOrd)]
pub struct FileHeader {
    pub format: SmfFormat,
    pub track_count: u16,
    pub division: i16,
}

/// The format word of a Standard MIDI File.
#[derive(Clone, Copy, Debug)]
pub enum SmfFormat {
    /// Format 0.
    SingleTrack,
    /// Format 1.
    MultiTrack,
    /// Format 2.
    MultiPattern,
    /// Any other format number.
    Other(u16),
}

impl SmfFormat {
    /// The number that stands for this format.
    pub open spec fn spec_code(self) -> u16 {
        match self {
            SmfFormat::SingleTrack => 0,
            SmfFormat::MultiTrack => 1,
            SmfFormat::MultiPattern => 2,
            SmfFormat::Other(value) => value,
        }
    }

    /// The format that a number stands for: the named variant where there is one.
    pub open spec fn spec_from_code(code: u16) -> SmfFormat {
        if code == 0 {
            SmfFormat::SingleTrack
        } else if code == 1 {
            SmfFormat::MultiTrack
        } else if code == 2 {
            SmfFormat::MultiPattern
        } else {
            SmfFormat::Other(code)
        }
    }

    /// The form that `from_base_type` produces: `Other` only for unnamed numbers.
    pub open spec fn is_canonical(self) -> bool {
        self == SmfFormat::spec_from_code(self.spec_code())
    }

    pub fn from_base_type(base_value: u16) -> (r: SmfFormat)
        ensures
            r == SmfFormat::spec_from_code(base_value),
    {
        if base_value == 0 {
            SmfFormat::SingleTrack
        } else if base_value == 1 {
            SmfFormat::MultiTrack
        } else if base_value == 2 {
            SmfFormat::MultiPattern
        } else {
            SmfFormat::Other(base_value)
        }
    }

    pub fn to_base_type(&self) -> (r: u16)
        ensures
            r == self.spec_code(),
    {
        match self {
            SmfFormat::SingleTrack => 0,
            SmfFormat::MultiTrack => 1,
            SmfFormat::MultiPattern => 2,
            SmfFormat::Other(value) => *value,
        }
    }
}

impl PartialEq for SmfFormat {
    fn eq(&self, other: &Self) -> (r: bool) {
        self.to_base_type() == other.to_base_type()
    }
}

impl Eq for SmfFormat {
}

impl vstd::std_specs::cmp::PartialEqSpecImpl for SmfFormat {
    open spec fn obeys_eq_spec() -> bool {
        true
    }

    open spec fn eq_spec(&self, other: &Self) -> bool {
        self.spec_code() == other.spec_code()
    }
}

impl PartialOrd for SmfFormat {
    fn partial_cmp(&self, other: &Self) -> (r: Option<core::cmp::Ordering>) {
        let a = self.to_base_type();
        let b = other.to_base_type();
        if a < b {
            Some(core::cmp::Ordering::Less)
        } else if a == b {
            Some(core::cmp::Ordering::Equal)
        } else {
            Some(core::cmp::Ordering::Greater)
        }
    }
}

impl vstd::std_specs::cmp::PartialOrdSpecImpl for SmfFormat {
    open spec fn obeys_partial_cmp_spec() -> bool {
        true
    }

    open spec fn partial_cmp_spec(&self, other: &Self) -> Option<core::cmp::Ordering> {
        if self.spec_code() < other.spec_code() {
            Some(core::cmp::Ordering::Less)
        } else if self.spec_code() == other.spec_code() {
            Some(core::cmp::Ordering::Equal)
        } else {
            Some(core::cmp::Ordering::Greater)
        }
    }
}

impl From<u16> for SmfFormat {
    fn from(base_value: u16) -> (r: SmfFormat) {
        SmfFormat::from_base_type(base_value)
    }
}

impl vstd::std_specs::convert::FromSpecImpl<u16> for SmfFormat {
    open spec fn obeys_from_spec() -> bool {
        true
    }

    open spec fn from_spec(base_value: u16) -> SmfFormat {
        SmfFormat::spec_from_code(base_value)
    }
}

impl From<SmfFormat> for u16 {
    fn from(enum_value: SmfFormat) -> (r: u16) {
        enum_value.to_base_type()
    }
}

impl vstd::std_specs::convert::FromSpecImpl<SmfFormat> for u16 {
    open spec fn obeys_from_spec() -> bool {
        true
    }

    open spec fn from_spec(enum_value: SmfFormat) -> u16 {
        enum_value.spec_code()
    }
}

/// A track: its events in order.
#[derive(Clone, Debug, PartialEq, Eq, PartialOrd)]
pub struct Track {
    pub events: Vec<Event>,
}

impl Default for Track {
    fn default() -> (r: Track)
        ensures
            r.events@.len() == 0,
    {
        Track { events: Vec::new() }
    }
}

/// An event and the number of ticks since the previous event of its track.
#[derive(Clone, Debug, PartialEq, Eq, PartialOrd)]
pub struct Event {
    pub delta_time: u32,
    pub data: EventData,
}

/// What an event carries.
#[derive(Clone, Debug, PartialEq, Eq, PartialOrd)]
pub enum EventData {
    Midi(MidiEventData),
    System(SystemEventData),
    SysEx(SysExEventData),
    RawSysEx(SysExEventData),
    Meta(MetaEventData),
}

/// The payload of a SysEx event.
#[derive(Clone, Debug, PartialEq, Eq, Hash, PartialOrd, Ord)]
pub struct SysExEventData {
    /// The data of the SysEx event, excluding the leading 0xF0 and the length but including the
    /// trailing 0xF7.
    ///
    /// A SysEx message that is split over time is an `EventData::SysEx` followed by
    /// `EventData::RawSysEx` continuations. The example in the Standard MIDI File 1.0
    /// specification, `F0 03 43 12 00`, then `F7 06 43 12 00 43 12 00` 200 ticks later, then
    /// `F7 04 43 12 00 F7` 100 ticks later, is a `SysEx` holding `[0x43, 0x12, 0x00]` at delta
    /// time 0, a `RawSysEx` holding `[0x43, 0x12, 0x00, 0x43, 0x12, 0x00]` at delta time 200 and
    /// a `RawSysEx` holding `[0x43, 0x12, 0x00, 0xF7]` at delta time 100.
    pub data: Vec<u8>,
}

/// A meta event: its type and its data.
#[derive(Clone, Debug, PartialEq, Eq, PartialOrd)]
pub struct MetaEventData {
    pub meta_type: MetaType,
    pub data: Vec<u8>,
}

/// A channel message and the channel it is addressed to.
#[derive(Clone, Copy, Debug, PartialEq, Eq, PartialOrd)]
pub struct MidiEventData {
    pub channel: U4,
    pub message: Message,
}

/// A MIDI channel message.
#[derive(Clone, Copy, Debug, PartialEq, Eq, PartialOrd)]
pub enum Message {
    /// Status 0x8n.
    NoteOff(NoteMessage),
    /// Status 0x9n.
    NoteOn(NoteMessage),
    /// Status 0xAn.
    KeyPressure(NoteMessage),
    /// Status 0xBn.
    ControlChange(ControlChangeMessage),
    /// Status 0xCn.
    ProgramChange(ProgramChangeMessage),
    /// Status 0xDn.
    ChannelPressure(ChannelValueMessage),
    /// Status 0xEn.
    PitchBend(PitchBendMessage),
}

/// A system common or system real-time message.
#[derive(Clone, Debug, PartialEq, Eq, Hash, PartialOrd, Ord)]
pub enum SystemEventData {
    /// 0xF1
    TimeCode(TimeCodeData),
    /// 0xF2
    SongPosition(SongPositionData),
    /// 0xF3
    SongSelect(SongSelectData),
    /// 0xF6, no data
    TuneRequest,
    /// 0xF8, no data
    TimingClock,
    /// 0xF9, no data
    F9,
    /// 0xFA, no data
    Start,
    /// 0xFB, no data
    Continue,
    /// 0xFC, no data
    Stop,
    /// 0xFD, no data
    FD,
    /// 0xFE, no data
    ActiveSensing,
    /// 0xFF, no data
    SystemReset,
}

#[derive(Clone, Copy, Debug, PartialEq, Eq, Hash, PartialOrd, Ord)]
pub struct NoteMessage {
    pub note: U7,
    pub value: U7,
}

#[derive(Clone, Copy, Debug, PartialEq, Eq, PartialOrd)]
pub struct ControlChangeMessage {
    pub control: Control,
    pub value: U7,
}

#[derive(Clone, Copy, Debug, PartialEq, Eq, Hash, PartialOrd, Ord)]
pub struct ProgramChangeMessage {
    pub program: U7,
}

#[derive(Clone, Copy, Debug, PartialEq, Eq, Hash, PartialOrd, Ord)]
pub struct ChannelValueMessage {
    pub value: U7,
}

#[derive(Clone, Copy, Debug, PartialEq, Eq, Hash, PartialOrd, Ord)]
pub struct PitchBendMessage {
    pub value: U14,
}

#[derive(Clone, Copy, Debug, PartialEq, Eq, Hash, PartialOrd, Ord)]
pub struct TimeCodeData {
    pub message_type: U3,
    pub data: U4,
}

#[derive(Clone, Copy, Debug, PartialEq, Eq, Hash, PartialOrd, Ord)]
pub struct SongPositionData {
    pub position: U14,
}

#[derive(Clone, Copy, Debug, PartialEq, Eq, Hash, PartialOrd, Ord)]
pub struct SongSelectData {
    pub song: U7,
}

#[derive(Clone, Debug, PartialEq, Eq, Hash, PartialOrd, Ord)]
pub struct SystemData {
    pub data: Vec<u8>,
}

/// A MIDI controller number, with names for the defined controllers.
#[derive(Clone, Copy, Debug)]
pub enum Control {
    /// Controller 0
    BankSelectMsb,
    /// Controller 1
    ModulationMsb,
    /// Controller 2
    BreathMsb,
    /// Controller 4
    FootMsb,
    /// Controller 5
    PortamentoTimeMsb,
    /// Controller 6
    DataEntryMsb,
    /// Controller 7
    ChannelVolumeMsb,
    /// Controller 8
    BalanceMsb,
    /// Controller 10
    PanMsb,
    /// Controller 11
    ExpressionMsb,
    /// Controller 12
    Effect1Msb,
    /// Controller 13
    Effect2Msb,
    /// Controller 16
    GeneralPurpose1Msb,
    /// Controller 17
    GeneralPurpose2Msb,
    /// Controller 18
    GeneralPurpose3Msb,
    /// Controller 19
    GeneralPurpose4Msb,
    /// Controller 32
    BankSelectLsb,
    /// Controller 33
    ModulationLsb,
    /// Controller 34
    BreathLsb,
    /// Controller 36
    FootLsb,
    /// Controller 37
    PortamentoTimeLsb,
    /// Controller 38
    DataEntryLsb,
    /// Controller 39
    ChannelVolumeLsb,
    /// Controller 40
    BalanceLsb,
    /// Controller 42
    PanLsb,
    /// Controller 43
    ExpressionLsb,
    /// Controller 44
    Effect1Lsb,
    /// Controller 45
    Effect2Lsb,
    /// Controller 48
    GeneralPurpose1Lsb,
    /// Controller 49
    GeneralPurpose2Lsb,
    /// Controller 50
    GeneralPurpose3Lsb,
    /// Controller 51
    GeneralPurpose4Lsb,
    /// Controller 64
    Sustain,
    /// Controller 65
    Portamento,
    /// Controller 66
    Sostenuto,
    /// Controller 67
    SoftPedal,
    /// Controller 68
    Legato,
    /// Controller 69
    Hold2,
    /// Controller 70
    SoundController1,
    /// Controller 71
    SoundController2,
    /// Controller 72
    SoundController3,
    /// Controller 73
    SoundController4,
    /// Controller 74
    SoundController5,
    /// Controller 75
    SoundController6,
    /// Controller 76
    SoundController7,
    /// Controller 77
    SoundController8,
    /// Controller 78
    SoundController9,
    /// Controller 79
    SoundController10,
    /// Controller 80
    GeneralPurpose5,
    /// Controller 81
    GeneralPurpose6,
    /// Controller 82
    GeneralPurpose7,
    /// Controller 83
    GeneralPurpose8,
    /// Controller 84
    PortamentoControl,
    /// Controller 91
    Effects1Depth,
    /// Controller 92
    Effects2Depth,
    /// Controller 93
    Effects3Depth,
    /// Controller 94
    Effects4Depth,
    /// Controller 95
    Effects5Depth,
    /// Controller 96
    DataIncrement,
    /// Controller 97
    DataDecrement,
    /// Controller 98
    NonRegisteredParameterNumberLsb,
    /// Controller 99
    NonRegisteredParameterNumberMsb,
    /// Controller 100
    RegisteredParameterNumberLsb,
    /// Controller 101
    RegisteredParameterNumberMsb,
    /// Controller 120
    AllSoundOff,
    /// Controller 121
    ResetAllControllers,
    /// Controller 122
    LocalControl,
    /// Controller 123
    AllNotesOff,
    /// Controller 124
    OmniModeOff,
    /// Controller 125
    OmniModeOn,
    /// Controller 126
    MonoModeOn,
    /// Controller 127
    PolyModeOn,
    /// Any other controller.
    Other(U7),
}

impl Control {
    /// The number that stands for this value.
    pub open(crate) spec fn spec_code(self) -> u8 {
        match self {
            Control::BankSelectMsb => 0,
            Control::ModulationMsb => 1,
            Control::BreathMsb => 2,
            Control::FootMsb => 4,
            Control::PortamentoTimeMsb => 5,
            Control::DataEntryMsb => 6,
            Control::ChannelVolumeMsb => 7,
            Control::BalanceMsb => 8,
            Control::PanMsb => 10,
            Control::ExpressionMsb => 11,
            Control::Effect1Msb => 12,
            Control::Effect2Msb => 13,
            Control::GeneralPurpose1Msb => 16,
            Control::GeneralPurpose2Msb => 17,
            Control::GeneralPurpose3Msb => 18,
            Control::GeneralPurpose4Msb => 19,
            Control::BankSelectLsb => 32,
            Control::ModulationLsb => 33,
            Control::BreathLsb => 34,
            Control::FootLsb => 36,
            Control::PortamentoTimeLsb => 37,
            Control::DataEntryLsb => 38,
            Control::ChannelVolumeLsb => 39,
            Control::BalanceLsb => 40,
            Control::PanLsb => 42,
            Control::ExpressionLsb => 43,
            Control::Effect1Lsb => 44,
            Control::Effect2Lsb => 45,
            Control::GeneralPurpose1Lsb => 48,
            Control::GeneralPurpose2Lsb => 49,
            Control::GeneralPurpose3Lsb => 50,
            Control::GeneralPurpose4Lsb => 51,
            Control::Sustain => 64,
            Control::Portamento => 65,
            Control::Sostenuto => 66,
            Control::SoftPedal => 67,
            Control::Legato => 68,
            Control::Hold2 => 69,
            Control::SoundController1 => 70,
            Control::SoundController2 => 71,
            Control::SoundController3 => 72,
            Control::SoundController4 => 73,
            Control::SoundController5 => 74,
            Control::SoundController6 => 75,
            Control::SoundController7 => 76,
            Control::SoundController8 => 77,
            Control::SoundController9 => 78,
            Control::SoundController10 => 79,
            Control::GeneralPurpose5 => 80,
            Control::GeneralPurpose6 => 81,
            Control::GeneralPurpose7 => 82,
            Control::GeneralPurpose8 => 83,
            Control::PortamentoControl => 84,
            Control::Effects1Depth => 91,
            Control::Effects2Depth => 92,
            Control::Effects3Depth => 93,
            Control::Effects4Depth => 94,
            Control::Effects5Depth => 95,
            Control::DataIncrement => 96,
            Control::DataDecrement => 97,
            Control::NonRegisteredParameterNumberLsb => 98,
            Control::NonRegisteredParameterNumberMsb => 99,
            Control::RegisteredParameterNumberLsb => 100,
            Control::RegisteredParameterNumberMsb => 101,
            Control::AllSoundOff => 120,
            Control::ResetAllControllers => 121,
            Control::LocalControl => 122,
            Control::AllNotesOff => 123,
            Control::OmniModeOff => 124,
            Control::OmniModeOn => 125,
            Control::MonoModeOn => 126,
            Control::PolyModeOn => 127,
            Control::Other(value) => value@,
        }
    }

    /// The value that a number stands for: the named variant where there is one.
    pub open(crate) spec fn spec_from_code(code: u8) -> Control {
        match code {
            0 => Control::BankSelectMsb,
            1 => Control::ModulationMsb,
            2 => Control::BreathMsb,
            4 => Control::FootMsb,
            5 => Control::PortamentoTimeMsb,
            6 => Control::DataEntryMsb,
            7 => Control::ChannelVolumeMsb,
            8 => Control::BalanceMsb,
            10 => Control::PanMsb,
            11 => Control::ExpressionMsb,
            12 => Control::Effect1Msb,
            13 => Control::Effect2Msb,
            16 => Control::GeneralPurpose1Msb,
            17 => Control::GeneralPurpose2Msb,
            18 => Control::GeneralPurpose3Msb,
            19 => Control::GeneralPurpose4Msb,
            32 => Control::BankSelectLsb,
            33 => Control::ModulationLsb,
            34 => Control::BreathLsb,
            36 => Control::FootLsb,
            37 => Control::PortamentoTimeLsb,
            38 => Control::DataEntryLsb,
            39 => Control::ChannelVolumeLsb,
            40 => Control::BalanceLsb,
            42 => Control::PanLsb,
            43 => Control::ExpressionLsb,
            44 => Control::Effect1Lsb,
            45 => Control::Effect2Lsb,
            48 => Control::GeneralPurpose1Lsb,
            49 => Control::GeneralPurpose2Lsb,
            50 => Control::GeneralPurpose3Lsb,
            51 => Control::GeneralPurpose4Lsb,
            64 => Control::Sustain,
            65 => Control::Portamento,
            66 => Control::Sostenuto,
            67 => Control::SoftPedal,
            68 => Control::Legato,
            69 => Control::Hold2,
            70 => Control::SoundController1,
            71 => Control::SoundController2,
            72 => Control::SoundController3,
            73 => Control::SoundController4,
            74 => Control::SoundController5,
            75 => Control::SoundController6,
            76 => Control::SoundController7,
            77 => Control::SoundController8,
            78 => Control::SoundController9,
            79 => Control::SoundController10,
            80 => Control::GeneralPurpose5,
            81 => Control::GeneralPurpose6,
            82 => Control::GeneralPurpose7,
            83 => Control::GeneralPurpose8,
            84 => Control::PortamentoControl,
            91 => Control::Effects1Depth,
            92 => Control::Effects2Depth,
            93 => Control::Effects3Depth,
            94 => Control::Effects4Depth,
            95 => Control::Effects5Depth,
            96 => Control::DataIncrement,
            97 => Control::DataDecrement,
            98 => Control::NonRegisteredParameterNumberLsb,
            99 => Control::NonRegisteredParameterNumberMsb,
            100 => Control::RegisteredParameterNumberLsb,
            101 => Control::RegisteredParameterNumberMsb,
            120 => Control::AllSoundOff,
            121 => Control::ResetAllControllers,
            122 => Control::LocalControl,
            123 => Control::AllNotesOff,
            124 => Control::OmniModeOff,
            125 => Control::OmniModeOn,
            126 => Control::MonoModeOn,
            127 => Control::PolyModeOn,
            _ => Control::Other(U7(code)),
        }
    }

    /// The form that `from_base_type` produces: `Other` only for unnamed numbers.
    pub open(crate) spec fn is_canonical(self) -> bool {
        self == Control::spec_from_code(self.spec_code())
    }

    pub open(crate) spec fn wf(self) -> bool {
        self matches Control::Other(value) ==> value.wf()
    }

    pub fn from_base_type(value: U7) -> (r: Control)
        ensures
            r == Control::spec_from_code(value@),
    {
        match value.to_base_type() {
            0 => Control::BankSelectMsb,
            1 => Control::ModulationMsb,
            2 => Control::BreathMsb,
            4 => Control::FootMsb,
            5 => Control::PortamentoTimeMsb,
            6 => Control::DataEntryMsb,
            7 => Control::ChannelVolumeMsb,
            8 => Control::BalanceMsb,
            10 => Control::PanMsb,
            11 => Control::ExpressionMsb,
            12 => Control::Effect1Msb,
            13 => Control::Effect2Msb,
            16 => Control::GeneralPurpose1Msb,
            17 => Control::GeneralPurpose2Msb,
            18 => Control::GeneralPurpose3Msb,
            19 => Control::GeneralPurpose4Msb,
            32 => Control::BankSelectLsb,
            33 => Control::ModulationLsb,
            34 => Control::BreathLsb,
            36 => Control::FootLsb,
            37 => Control::PortamentoTimeLsb,
            38 => Control::DataEntryLsb,
            39 => Control::ChannelVolumeLsb,
            40 => Control::BalanceLsb,
            42 => Control::PanLsb,
            43 => Control::ExpressionLsb,
            44 => Control::Effect1Lsb,
            45 => Control::Effect2Lsb,
            48 => Control::GeneralPurpose1Lsb,
            49 => Control::GeneralPurpose2Lsb,
            50 => Control::GeneralPurpose3Lsb,
            51 => Control::GeneralPurpose4Lsb,
            64 => Control::Sustain,
            65 => Control::Portamento,
            66 => Control::Sostenuto,
            67 => Control::SoftPedal,
            68 => Control::Legato,
            69 => Control::Hold2,
            70 => Control::SoundController1,
            71 => Control::SoundController2,
            72 => Control::SoundController3,
            73 => Control::SoundController4,
            74 => Control::SoundController5,
            75 => Control::SoundController6,
            76 => Control::SoundController7,
            77 => Control::SoundController8,
            78 => Control::SoundController9,
            79 => Control::SoundController10,
            80 => Control::GeneralPurpose5,
            81 => Control::GeneralPurpose6,
            82 => Control::GeneralPurpose7,
            83 => Control::GeneralPurpose8,
            84 => Control::PortamentoControl,
            91 => Control::Effects1Depth,
            92 => Control::Effects2Depth,
            93 => Control::Effects3Depth,
            94 => Control::Effects4Depth,
            95 => Control::Effects5Depth,
            96 => Control::DataIncrement,
            97 => Control::DataDecrement,
            98 => Control::NonRegisteredParameterNumberLsb,
            99 => Control::NonRegisteredParameterNumberMsb,
            100 => Control::RegisteredParameterNumberLsb,
            101 => Control::RegisteredParameterNumberMsb,
            120 => Control::AllSoundOff,
            121 => Control::ResetAllControllers,
            122 => Control::LocalControl,
            123 => Control::AllNotesOff,
            124 => Control::OmniModeOff,
            125 => Control::OmniModeOn,
            126 => Control::MonoModeOn,
            127 => Control::PolyModeOn,
            _ => Control::Other(value),
        }
    }

    pub fn to_base_type(&self) -> (r: U7)
        ensures
            r@ == self.spec_code(),
    {
        match self {
            Control::BankSelectMsb => U7(0),
            Control::ModulationMsb => U7(1),
            Control::BreathMsb => U7(2),
            Control::FootMsb => U7(4),
            Control::PortamentoTimeMsb => U7(5),
            Control::DataEntryMsb => U7(6),
            Control::ChannelVolumeMsb => U7(7),
            Control::BalanceMsb => U7(8),
            Control::PanMsb => U7(10),
            Control::ExpressionMsb => U7(11),
            Control::Effect1Msb => U7(12),
            Control::Effect2Msb => U7(13),
            Control::GeneralPurpose1Msb => U7(16),
            Control::GeneralPurpose2Msb => U7(17),
            Control::GeneralPurpose3Msb => U7(18),
            Control::GeneralPurpose4Msb => U7(19),
            Control::BankSelectLsb => U7(32),
            Control::ModulationLsb => U7(33),
            Control::BreathLsb => U7(34),
            Control::FootLsb => U7(36),
            Control::PortamentoTimeLsb => U7(37),
            Control::DataEntryLsb => U7(38),
            Control::ChannelVolumeLsb => U7(39),
            Control::BalanceLsb => U7(40),
            Control::PanLsb => U7(42),
            Control::ExpressionLsb => U7(43),
            Control::Effect1Lsb => U7(44),
            Control::Effect2Lsb => U7(45),
            Control::GeneralPurpose1Lsb => U7(48),
            Control::GeneralPurpose2Lsb => U7(49),
            Control::GeneralPurpose3Lsb => U7(50),
            Control::GeneralPurpose4Lsb => U7(51),
            Control::Sustain => U7(64),
            Control::Portamento => U7(65),
            Control::Sostenuto => U7(66),
            Control::SoftPedal => U7(67),
            Control::Legato => U7(68),
            Control::Hold2 => U7(69),
            Control::SoundController1 => U7(70),
            Control::SoundController2 => U7(71),
            Control::SoundController3 => U7(72),
            Control::SoundController4 => U7(73),
            Control::SoundController5 => U7(74),
            Control::SoundController6 => U7(75),
            Control::SoundController7 => U7(76),
            Control::SoundController8 => U7(77),
            Control::SoundController9 => U7(78),
            Control::SoundController10 => U7(79),
            Control::GeneralPurpose5 => U7(80),
            Control::GeneralPurpose6 => U7(81),
            Control::GeneralPurpose7 => U7(82),
            Control::GeneralPurpose8 => U7(83),
            Control::PortamentoControl => U7(84),
            Control::Effects1Depth => U7(91),
            Control::Effects2Depth => U7(92),
            Control::Effects3Depth => U7(93),
            Control::Effects4Depth => U7(94),
            Control::Effects5Depth => U7(95),
            Control::DataIncrement => U7(96),
            Control::DataDecrement => U7(97),
            Control::NonRegisteredParameterNumberLsb => U7(98),
            Control::NonRegisteredParameterNumberMsb => U7(99),
            Control::RegisteredParameterNumberLsb => U7(100),
            Control::RegisteredParameterNumberMsb => U7(101),
            Control::AllSoundOff => U7(120),
            Control::ResetAllControllers => U7(121),
            Control::LocalControl => U7(122),
            Control::AllNotesOff => U7(123),
            Control::OmniModeOff => U7(124),
            Control::OmniModeOn => U7(125),
            Control::MonoModeOn => U7(126),
            Control::PolyModeOn => U7(127),
            Control::Other(value) => *value,
        }
    }
}

impl PartialEq for Control {
    fn eq(&self, other: &Self) -> (r: bool) {
        self.to_base_type().to_base_type() == other.to_base_type().to_base_type()
    }
}

impl Eq for Control {
}

impl vstd::std_specs::cmp::PartialEqSpecImpl for Control {
    open spec fn obeys_eq_spec() -> bool {
        true
    }

    open spec fn eq_spec(&self, other: &Self) -> bool {
        self.spec_code() == other.spec_code()
    }
}

impl PartialOrd for Control {
    fn partial_cmp(&self, other: &Self) -> (r: Option<core::cmp::Ordering>) {
        let a = self.to_base_type().to_base_type();
        let b = other.to_base_type().to_base_type();
        if a < b {
            Some(core::cmp::Ordering::Less)
        } else if a == b {
            Some(core::cmp::Ordering::Equal)
        } else {
            Some(core::cmp::Ordering::Greater)
        }
    }
}

impl vstd::std_specs::cmp::PartialOrdSpecImpl for Control {
    open spec fn obeys_partial_cmp_spec() -> bool {
        true
    }

    open spec fn partial_cmp_spec(&self, other: &Self) -> Option<core::cmp::Ordering> {
        if self.spec_code() < other.spec_code() {
            Some(core::cmp::Ordering::Less)
        } else if self.spec_code() == other.spec_code() {
            Some(core::cmp::Ordering::Equal)
        } else {
            Some(core::cmp::Ordering::Greater)
        }
    }
}

/// The type byte of a meta event, with names for the defined types.
#[derive(Clone, Copy, Debug)]
pub enum MetaType {
    /// Meta type 0
    SequenceNumber,
    /// Meta type 1
    TextEvent,
    /// Meta type 2
    Copyright,
    /// Meta type 3
    SequenceOrTrackName,
    /// Meta type 4
    InstrumentName,
    /// Meta type 5
    Lyric,
    /// Meta type 6
    Marker,
    /// Meta type 7
    CuePoint,
    /// Meta type 8
    ProgramName,
    /// Meta type 9
    DeviceName,
    /// Meta type 32
    ChannelPrefix,
    /// Meta type 33
    LegacyPort,
    /// Meta type 47
    EndOfTrack,
    /// Meta type 81
    SetTempo,
    /// Meta type 84
    SmpteOffset,
    /// Meta type 88
    TimeSignature,
    /// Meta type 89
    KeySignature,
    /// Meta type 127
    SequencerSpecific,
    /// Any other meta type.
    Other(U7),
}

impl MetaType {
    /// The number that stands for this value.
    pub open(crate) spec fn spec_code(self) -> u8 {
        match self {
            MetaType::SequenceNumber => 0,
            MetaType::TextEvent => 1,
            MetaType::Copyright => 2,
            MetaType::SequenceOrTrackName => 3,
            MetaType::InstrumentName => 4,
            MetaType::Lyric => 5,
            MetaType::Marker => 6,
            MetaType::CuePoint => 7,
            MetaType::ProgramName => 8,
            MetaType::DeviceName => 9,
            MetaType::ChannelPrefix => 32,
            MetaType::LegacyPort => 33,
            MetaType::EndOfTrack => 47,
            MetaType::SetTempo => 81,
            MetaType::SmpteOffset => 84,
            MetaType::TimeSignature => 88,
            MetaType::KeySignature => 89,
            MetaType::SequencerSpecific => 127,
            MetaType::Other(value) => value@,
        }
    }

    /// The value that a number stands for: the named variant where there is one.
    pub open(crate) spec fn spec_from_code(code: u8) -> MetaType {
        match code {
            0 => MetaType::SequenceNumber,
            1 => MetaType::TextEvent,
            2 => MetaType::Copyright,
            3 => MetaType::SequenceOrTrackName,
            4 => MetaType::InstrumentName,
            5 => MetaType::Lyric,
            6 => MetaType::Marker,
            7 => MetaType::CuePoint,
            8 => MetaType::ProgramName,
            9 => MetaType::DeviceName,
            32 => MetaType::ChannelPrefix,
            33 => MetaType::LegacyPort,
            47 => MetaType::EndOfTrack,
            81 => MetaType::SetTempo,
            84 => MetaType::SmpteOffset,
            88 => MetaType::TimeSignature,
            89 => MetaType::KeySignature,
            127 => MetaType::SequencerSpecific,
            _ => MetaType::Other(U7(code)),
        }
    }

    /// The form that `from_base_type` produces: `Other` only for unnamed numbers.
    pub open(crate) spec fn is_canonical(self) -> bool {
        self == MetaType::spec_from_code(self.spec_code())
    }

    pub open(crate) spec fn wf(self) -> bool {
        self matches MetaType::Other(value) ==> value.wf()
    }

    pub fn from_base_type(value: U7) -> (r: MetaType)
        ensures
            r == MetaType::spec_from_code(value@),
    {
        match value.to_base_type() {
            0 => MetaType::SequenceNumber,
            1 => MetaType::TextEvent,
            2 => MetaType::Copyright,
            3 => MetaType::SequenceOrTrackName,
            4 => MetaType::InstrumentName,
            5 => MetaType::Lyric,
            6 => MetaType::Marker,
            7 => MetaType::CuePoint,
            8 => MetaType::ProgramName,
            9 => MetaType::DeviceName,
            32 => MetaType::ChannelPrefix,
            33 => MetaType::LegacyPort,
            47 => MetaType::EndOfTrack,
            81 => MetaType::SetTempo,
            84 => MetaType::SmpteOffset,
            88 => MetaType::TimeSignature,
            89 => MetaType::KeySignature,
            127 => MetaType::SequencerSpecific,
            _ => MetaType::Other(value),
        }
    }

    pub fn to_base_type(&self) -> (r: U7)
        ensures
            r@ == self.spec_code(),
    {
        match self {
            MetaType::SequenceNumber => U7(0),
            MetaType::TextEvent => U7(1),
            MetaType::Copyright => U7(2),
            MetaType::SequenceOrTrackName => U7(3),
            MetaType::InstrumentName => U7(4),
            MetaType::Lyric => U7(5),
            MetaType::Marker => U7(6),
            MetaType::CuePoint => U7(7),
            MetaType::ProgramName => U7(8),
            MetaType::DeviceName => U7(9),
            MetaType::ChannelPrefix => U7(32),
            MetaType::LegacyPort => U7(33),
            MetaType::EndOfTrack => U7(47),
            MetaType::SetTempo => U7(81),
            MetaType::SmpteOffset => U7(84),
            MetaType::TimeSignature => U7(88),
            MetaType::KeySignature => U7(89),
            MetaType::SequencerSpecific => U7(127),
            MetaType::Other(value) => *value,
        }
    }
}

impl PartialEq for MetaType {
    fn eq(&self, other: &Self) -> (r: bool) {
        self.to_base_type().to_base_type() == other.to_base_type().to_base_type()
    }
}

impl Eq for MetaType {
}

impl vstd::std_specs::cmp::PartialEqSpecImpl for MetaType {
    open spec fn obeys_eq_spec() -> bool {
        true
    }

    open spec fn eq_spec(&self, other: &Self) -> bool {
        self.spec_code() == other.spec_code()
    }
}

impl PartialOrd for MetaType {
    fn partial_cmp(&self, other: &Self) -> (r: Option<core::cmp::Ordering>) {
        let a = self.to_base_type().to_base_type();
        let b = other.to_base_type().to_base_type();
        if a < b {
            Some(core::cmp::Ordering::Less)
        } else if a == b {
            Some(core::cmp::Ordering::Equal)
        } else {
            Some(core::cmp::Ordering::Greater)
        }
    }
}

impl vstd::std_specs::cmp::PartialOrdSpecImpl for MetaType {
    open spec fn obeys_partial_cmp_spec() -> bool {
        true
    }

    open spec fn partial_cmp_spec(&self, other: &Self) -> Option<core::cmp::Ordering> {
        if self.spec_code() < other.spec_code() {
            Some(core::cmp::Ordering::Less)
        } else if self.spec_code() == other.spec_code() {
            Some(core::cmp::Ordering::Equal)
        } else {
            Some(core::cmp::Ordering::Greater)
        }
    }
}

// ---------------------------------------------------------------------------------------------
// Mathematical models: the same data, with byte payloads and lists as sequences
// ---------------------------------------------------------------------------------------------

/// What an event carries, with its byte payloads as sequences.
pub enum EventDataModel {
    Midi(MidiEventData),
    System(SystemEventData),
    SysEx(Seq<u8>),
    RawSysEx(Seq<u8>),
    Meta(MetaType, Seq<u8>),
}

/// An event, with its byte payloads as sequences.
pub struct EventModel {
    pub delta_time: u32,
    pub data: EventDataModel,
}

/// A Standard MIDI File: its header and, for each track, the track's events.
pub struct SmfModel {
    pub header: FileHeader,
    pub tracks: Seq<Seq<EventModel>>,
}

impl View for EventData {
    type V = EventDataModel;

    open spec fn view(&self) -> EventDataModel {
        match self {
            EventData::Midi(m) => EventDataModel::Midi(*m),
            EventData::System(s) => EventDataModel::System(*s),
            EventData::SysEx(x) => EventDataModel::SysEx(x.data@),
            EventData::RawSysEx(x) => EventDataModel::RawSysEx(x.data@),
            EventData::Meta(m) => EventDataModel::Meta(m.meta_type, m.data@),
        }
    }
}

impl View for Event {
    type V = EventModel;

    open spec fn view(&self) -> EventModel {
        EventModel { delta_time: self.delta_time, data: self.data@ }
    }
}

impl View for Track {
    type V = Seq<EventModel>;

    open spec fn view(&self) -> Seq<EventModel> {
        self.events@.map_values(|e: Event| e@)
    }
}

impl View for StandardMidiFile {
    type V = SmfModel;

    open spec fn view(&self) -> SmfModel {
        SmfModel { header: self.header, tracks: self.tracks@.map_values(|t: Track| t@) }
    }
}

impl Message {
    /// Every small integer in the message is within its range.
    pub open(crate) spec fn wf(self) -> bool {
        match self {
            Message::NoteOff(m) => m.note.wf() && m.value.wf(),
            Message::NoteOn(m) => m.note.wf() && m.value.wf(),
            Message::KeyPressure(m) => m.note.wf() && m.value.wf(),
            Message::ControlChange(m) => m.control.wf() && m.value.wf(),
            Message::ProgramChange(m) => m.program.wf(),
            Message::ChannelPressure(m) => m.value.wf(),
            Message::PitchBend(m) => m.value.wf(),
        }
    }

    /// The message with its controller in the form that decoding produces.
    pub open(crate) spec fn canon(self) -> Message {
        match self {
            Message::ControlChange(m) => Message::ControlChange(ControlChangeMessage {
                control: Control::spec_from_code(m.control.spec_code()),
                value: m.value,
            }),
            _ => self,
        }
    }
}

impl MidiEventData {
    pub open(crate) spec fn wf(self) -> bool {
        self.channel.wf() && self.message.wf()
    }

    pub open(crate) spec fn canon(self) -> MidiEventData {
        MidiEventData { channel: self.channel, message: self.message.canon() }
    }
}

impl SystemEventData {
    pub open(crate) spec fn wf(self) -> bool {
        match self {
            SystemEventData::TimeCode(t) => t.message_type.wf() && t.data.wf(),
            SystemEventData::SongPosition(p) => p.position.wf(),
            SystemEventData::SongSelect(s) => s.song.wf(),
            _ => true,
        }
    }
}

impl EventDataModel {
    pub open(crate) spec fn wf(self) -> bool {
        match self {
            EventDataModel::Midi(m) => m.wf(),
            EventDataModel::System(s) => s.wf(),
            EventDataModel::Meta(t, _) => t.wf(),
            _ => true,
        }
    }

    /// The data with controllers and meta types in the form that decoding produces.
    pub open(crate) spec fn canon(self) -> EventDataModel {
        match self {
            EventDataModel::Midi(m) => EventDataModel::Midi(m.canon()),
            EventDataModel::Meta(t, d) => EventDataModel::Meta(MetaType::spec_from_code(t.spec_code()), d),
            _ => self,
        }
    }
}

impl EventModel {
    pub open(crate) spec fn wf(self) -> bool {
        self.data.wf()
    }

    pub open(crate) spec fn canon(self) -> EventModel {
        EventModel { delta_time: self.delta_time, data: self.data.canon() }
    }
}

/// Every event of the sequence is well formed.
pub open(crate) spec fn events_wf(events: Seq<EventModel>) -> bool {
    forall|i: int| 0 <= i < events.len() ==> #[trigger] events[i].wf()
}

/// The events, each in the form that decoding produces.
pub open(crate) spec fn events_canon(events: Seq<EventModel>) -> Seq<EventModel> {
    events.map_values(|e: EventModel| e.canon())
}

impl SmfModel {
    pub open(crate) spec fn wf(self) -> bool {
        forall|i: int| 0 <= i < self.tracks.len() ==> #[trigger] events_wf(self.tracks[i])
    }

    /// The file with its format, controllers and meta types in the form that decoding produces.
    pub open(crate) spec fn canon(self) -> SmfModel {
        SmfModel {
            header: FileHeader {
                format: SmfFormat::spec_from_code(self.header.format.spec_code()),
                track_count: self.header.track_count,
                division: self.header.division,
            },
            tracks: self.tracks.map_values(|t: Seq<EventModel>| events_canon(t)),
        }
    }
}

// ---------------------------------------------------------------------------------------------
// Numbers and names
// ---------------------------------------------------------------------------------------------

/// Every controller number comes back from the controller that `from_base_type` makes of it.
pub proof fn lemma_control_code_roundtrip(code: u8)
    requires
        code <= 127,
    ensures
        Control::spec_from_code(code).spec_code() == code,
        Control::spec_from_code(code).wf(),
        Control::spec_from_code(code).is_canonical(),
{
}

/// Every controller comes back from its number, as the canonical controller with the same
/// number, so equal under `==`; a canonical controller comes back as itself.
pub proof fn lemma_control_value_roundtrip(c: Control)
    requires
        c.wf(),
    ensures
        Control::spec_from_code(c.spec_code()).spec_code() == c.spec_code(),
        c.is_canonical() ==> Control::spec_from_code(c.spec_code()) == c,
{
    lemma_control_code_roundtrip(c.spec_code());
}

/// Every meta type number comes back from the meta type that `from_base_type` makes of it.
pub proof fn lemma_meta_type_code_roundtrip(code: u8)
    requires
        code <= 127,
    ensures
        MetaType::spec_from_code(code).spec_code() == code,
        MetaType::spec_from_code(code).wf(),
        MetaType::spec_from_code(code).is_canonical(),
{
}

/// Every meta type comes back from its number, as the canonical meta type with the same number;
/// a canonical meta type comes back as itself.
pub proof fn lemma_meta_type_value_roundtrip(t: MetaType)
    requires
        t.wf(),
    ensures
        MetaType::spec_from_code(t.spec_code()).spec_code() == t.spec_code(),
        t.is_canonical() ==> MetaType::spec_from_code(t.spec_code()) == t,
{
    lemma_meta_type_code_roundtrip(t.spec_code());
}

/// Every format number comes back from the format that `from_base_type` makes of it, and every
/// format comes back from its number as the canonical format with the same number.
pub proof fn lemma_smf_format_roundtrip(code: u16, f: SmfFormat)
    ensures
        SmfFormat::spec_from_code(code).spec_code() == code,
        SmfFormat::spec_from_code(code).is_canonical(),
        SmfFormat::spec_from_code(f.spec_code()).spec_code() == f.spec_code(),
        f.is_canonical() ==> SmfFormat::spec_from_code(f.spec_code()) == f,
{
}


/// The number of each named controller, as the MIDI standard assigns it; every other number up
/// to 127 is an `Other` controller.
pub proof fn lemma_control_numbers()
    ensures
        Control::BankSelectMsb.spec_code() == 0 && Control::spec_from_code(0) == Control::BankSelectMsb,
        Control::ModulationMsb.spec_code() == 1 && Control::spec_from_code(1) == Control::ModulationMsb,
        Control::BreathMsb.spec_code() == 2 && Control::spec_from_code(2) == Control::BreathMsb,
        Control::FootMsb.spec_code() == 4 && Control::spec_from_code(4) == Control::FootMsb,
        Control::PortamentoTimeMsb.spec_code() == 5 && Control::spec_from_code(5) == Control::PortamentoTimeMsb,
        Control::DataEntryMsb.spec_code() == 6 && Control::spec_from_code(6) == Control::DataEntryMsb,
        Control::ChannelVolumeMsb.spec_code() == 7 && Control::spec_from_code(7) == Control::ChannelVolumeMsb,
        Control::BalanceMsb.spec_code() == 8 && Control::spec_from_code(8) == Control::BalanceMsb,
        Control::PanMsb.spec_code() == 10 && Control::spec_from_code(10) == Control::PanMsb,
        Control::ExpressionMsb.spec_code() == 11 && Control::spec_from_code(11) == Control::ExpressionMsb,
        Control::Effect1Msb.spec_code() == 12 && Control::spec_from_code(12) == Control::Effect1Msb,
        Control::Effect2Msb.spec_code() == 13 && Control::spec_from_code(13) == Control::Effect2Msb,
        Control::GeneralPurpose1Msb.spec_code() == 16 && Control::spec_from_code(16) == Control::GeneralPurpose1Msb,
        Control::GeneralPurpose2Msb.spec_code() == 17 && Control::spec_from_code(17) == Control::GeneralPurpose2Msb,
        Control::GeneralPurpose3Msb.spec_code() == 18 && Control::spec_from_code(18) == Control::GeneralPurpose3Msb,
        Control::GeneralPurpose4Msb.spec_code() == 19 && Control::spec_from_code(19) == Control::GeneralPurpose4Msb,
        Control::BankSelectLsb.spec_code() == 32 && Control::spec_from_code(32) == Control::BankSelectLsb,
        Control::ModulationLsb.spec_code() == 33 && Control::spec_from_code(33) == Control::ModulationLsb,
        Control::BreathLsb.spec_code() == 34 && Control::spec_from_code(34) == Control::BreathLsb,
        Control::FootLsb.spec_code() == 36 && Control::spec_from_code(36) == Control::FootLsb,
        Control::PortamentoTimeLsb.spec_code() == 37 && Control::spec_from_code(37) == Control::PortamentoTimeLsb,
        Control::DataEntryLsb.spec_code() == 38 && Control::spec_from_code(38) == Control::DataEntryLsb,
        Control::ChannelVolumeLsb.spec_code() == 39 && Control::spec_from_code(39) == Control::ChannelVolumeLsb,
        Control::BalanceLsb.spec_code() == 40 && Control::spec_from_code(40) == Control::BalanceLsb,
        Control::PanLsb.spec_code() == 42 && Control::spec_from_code(42) == Control::PanLsb,
        Control::ExpressionLsb.spec_code() == 43 && Control::spec_from_code(43) == Control::ExpressionLsb,
        Control::Effect1Lsb.spec_code() == 44 && Control::spec_from_code(44) == Control::Effect1Lsb,
        Control::Effect2Lsb.spec_code() == 45 && Control::spec_from_code(45) == Control::Effect2Lsb,
        Control::GeneralPurpose1Lsb.spec_code() == 48 && Control::spec_from_code(48) == Control::GeneralPurpose1Lsb,
        Control::GeneralPurpose2Lsb.spec_code() == 49 && Control::spec_from_code(49) == Control::GeneralPurpose2Lsb,
        Control::GeneralPurpose3Lsb.spec_code() == 50 && Control::spec_from_code(50) == Control::GeneralPurpose3Lsb,
        Control::GeneralPurpose4Lsb.spec_code() == 51 && Control::spec_from_code(51) == Control::GeneralPurpose4Lsb,
        Control::Sustain.spec_code() == 64 && Control::spec_from_code(64) == Control::Sustain,
        Control::Portamento.spec_code() == 65 && Control::spec_from_code(65) == Control::Portamento,
        Control::Sostenuto.spec_code() == 66 && Control::spec_from_code(66) == Control::Sostenuto,
        Control::SoftPedal.spec_code() == 67 && Control::spec_from_code(67) == Control::SoftPedal,
        Control::Legato.spec_code() == 68 && Control::spec_from_code(68) == Control::Legato,
        Control::Hold2.spec_code() == 69 && Control::spec_from_code(69) == Control::Hold2,
        Control::SoundController1.spec_code() == 70 && Control::spec_from_code(70) == Control::SoundController1,
        Control::SoundController2.spec_code() == 71 && Control::spec_from_code(71) == Control::SoundController2,
        Control::SoundController3.spec_code() == 72 && Control::spec_from_code(72) == Control::SoundController3,
        Control::SoundController4.spec_code() == 73 && Control::spec_from_code(73) == Control::SoundController4,
        Control::SoundController5.spec_code() == 74 && Control::spec_from_code(74) == Control::SoundController5,
        Control::SoundController6.spec_code() == 75 && Control::spec_from_code(75) == Control::SoundController6,
        Control::SoundController7.spec_code() == 76 && Control::spec_from_code(76) == Control::SoundController7,
        Control::SoundController8.spec_code() == 77 && Control::spec_from_code(77) == Control::SoundController8,
        Control::SoundController9.spec_code() == 78 && Control::spec_from_code(78) == Control::SoundController9,
        Control::SoundController10.spec_code() == 79 && Control::spec_from_code(79) == Control::SoundController10,
        Control::GeneralPurpose5.spec_code() == 80 && Control::spec_from_code(80) == Control::GeneralPurpose5,
        Control::GeneralPurpose6.spec_code() == 81 && Control::spec_from_code(81) == Control::GeneralPurpose6,
        Control::GeneralPurpose7.spec_code() == 82 && Control::spec_from_code(82) == Control::GeneralPurpose7,
        Control::GeneralPurpose8.spec_code() == 83 && Control::spec_from_code(83) == Control::GeneralPurpose8,
        Control::PortamentoControl.spec_code() == 84 && Control::spec_from_code(84) == Control::PortamentoControl,
        Control::Effects1Depth.spec_code() == 91 && Control::spec_from_code(91) == Control::Effects1Depth,
        Control::Effects2Depth.spec_code() == 92 && Control::spec_from_code(92) == Control::Effects2Depth,
        Control::Effects3Depth.spec_code() == 93 && Control::spec_from_code(93) == Control::Effects3Depth,
        Control::Effects4Depth.spec_code() == 94 && Control::spec_from_code(94) == Control::Effects4Depth,
        Control::Effects5Depth.spec_code() == 95 && Control::spec_from_code(95) == Control::Effects5Depth,
        Control::DataIncrement.spec_code() == 96 && Control::spec_from_code(96) == Control::DataIncrement,
        Control::DataDecrement.spec_code() == 97 && Control::spec_from_code(97) == Control::DataDecrement,
        Control::NonRegisteredParameterNumberLsb.spec_code() == 98 && Control::spec_from_code(98) == Control::NonRegisteredParameterNumberLsb,
        Control::NonRegisteredParameterNumberMsb.spec_code() == 99 && Control::spec_from_code(99) == Control::NonRegisteredParameterNumberMsb,
        Control::RegisteredParameterNumberLsb.spec_code() == 100 && Control::spec_from_code(100) == Control::RegisteredParameterNumberLsb,
        Control::RegisteredParameterNumberMsb.spec_code() == 101 && Control::spec_from_code(101) == Control::RegisteredParameterNumberMsb,
        Control::AllSoundOff.spec_code() == 120 && Control::spec_from_code(120) == Control::AllSoundOff,
        Control::ResetAllControllers.spec_code() == 121 && Control::spec_from_code(121) == Control::ResetAllControllers,
        Control::LocalControl.spec_code() == 122 && Control::spec_from_code(122) == Control::LocalControl,
        Control::AllNotesOff.spec_code() == 123 && Control::spec_from_code(123) == Control::AllNotesOff,
        Control::OmniModeOff.spec_code() == 124 && Control::spec_from_code(124) == Control::OmniModeOff,
        Control::OmniModeOn.spec_code() == 125 && Control::spec_from_code(125) == Control::OmniModeOn,
        Control::MonoModeOn.spec_code() == 126 && Control::spec_from_code(126) == Control::MonoModeOn,
        Control::PolyModeOn.spec_code() == 127 && Control::spec_from_code(127) == Control::PolyModeOn,
        forall|n: u8| n <= 127 ==> (Control::spec_from_code(n) is Other <==> !(n == 0 || n == 1 || n == 2 || n == 4 || n == 5 || n == 6 || n == 7 || n == 8 || n == 10 || n == 11 || n == 12 || n == 13 || n == 16 || n == 17 || n == 18 || n == 19 || n == 32 || n == 33 || n == 34 || n == 36 || n == 37 || n == 38 || n == 39 || n == 40 || n == 42 || n == 43 || n == 44 || n == 45 || n == 48 || n == 49 || n == 50 || n == 51 || n == 64 || n == 65 || n == 66 || n == 67 || n == 68 || n == 69 || n == 70 || n == 71 || n == 72 || n == 73 || n == 74 || n == 75 || n == 76 || n == 77 || n == 78 || n == 79 || n == 80 || n == 81 || n == 82 || n == 83 || n == 84 || n == 91 || n == 92 || n == 93 || n == 94 || n == 95 || n == 96 || n == 97 || n == 98 || n == 99 || n == 100 || n == 101 || n == 120 || n == 121 || n == 122 || n == 123 || n == 124 || n == 125 || n == 126 || n == 127)),
{
}

/// The number of each named meta type, as the MIDI standard assigns it; every other number up
/// to 127 is an `Other` meta type.
pub proof fn lemma_meta_type_numbers()
    ensures
        MetaType::SequenceNumber.spec_code() == 0 && MetaType::spec_from_code(0) == MetaType::SequenceNumber,
        MetaType::TextEvent.spec_code() == 1 && MetaType::spec_from_code(1) == MetaType::TextEvent,
        MetaType::Copyright.spec_code() == 2 && MetaType::spec_from_code(2) == MetaType::Copyright,
        MetaType::SequenceOrTrackName.spec_code() == 3 && MetaType::spec_from_code(3) == MetaType::SequenceOrTrackName,
        MetaType::InstrumentName.spec_code() == 4 && MetaType::spec_from_code(4) == MetaType::InstrumentName,
        MetaType::Lyric.spec_code() == 5 && MetaType::spec_from_code(5) == MetaType::Lyric,
        MetaType::Marker.spec_code() == 6 && MetaType::spec_from_code(6) == MetaType::Marker,
        MetaType::CuePoint.spec_code() == 7 && MetaType::spec_from_code(7) == MetaType::CuePoint,
        MetaType::ProgramName.spec_code() == 8 && MetaType::spec_from_code(8) == MetaType::ProgramName,
        MetaType::DeviceName.spec_code() == 9 && MetaType::spec_from_code(9) == MetaType::DeviceName,
        MetaType::ChannelPrefix.spec_code() == 32 && MetaType::spec_from_code(32) == MetaType::ChannelPrefix,
        MetaType::LegacyPort.spec_code() == 33 && MetaType::spec_from_code(33) == MetaType::LegacyPort,
        MetaType::EndOfTrack.spec_code() == 47 && MetaType::spec_from_code(47) == MetaType::EndOfTrack,
        MetaType::SetTempo.spec_code() == 81 && MetaType::spec_from_code(81) == MetaType::SetTempo,
        MetaType::SmpteOffset.spec_code() == 84 && MetaType::spec_from_code(84) == MetaType::SmpteOffset,
        MetaType::TimeSignature.spec_code() == 88 && MetaType::spec_from_code(88) == MetaType::TimeSignature,
        MetaType::KeySignature.spec_code() == 89 && MetaType::spec_from_code(89) == MetaType::KeySignature,
        MetaType::SequencerSpecific.spec_code() == 127 && MetaType::spec_from_code(127) == MetaType::SequencerSpecific,
        forall|n: u8| n <= 127 ==> (MetaType::spec_from_code(n) is Other <==> !(n == 0 || n == 1 || n == 2 || n == 3 || n == 4 || n == 5 || n == 6 || n == 7 || n == 8 || n == 9 || n == 32 || n == 33 || n == 47 || n == 81 || n == 84 || n == 88 || n == 89 || n == 127)),
{
}

/// The format numbers: 0 a single track, 1 several simultaneous tracks, 2 several independent
/// patterns; every other number is `Other`.
pub proof fn lemma_smf_format_numbers()
    ensures
        SmfFormat::SingleTrack.spec_code() == 0 && SmfFormat::spec_from_code(0) == SmfFormat::SingleTrack,
        SmfFormat::MultiTrack.spec_code() == 1 && SmfFormat::spec_from_code(1) == SmfFormat::MultiTrack,
        SmfFormat::MultiPattern.spec_code() == 2 && SmfFormat::spec_from_code(2) == SmfFormat::MultiPattern,
        forall|n: u16| n > 2 ==> SmfFormat::spec_from_code(n) == SmfFormat::Other(n),
{
}

} // verus!
