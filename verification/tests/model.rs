use midiasm::midi::model::{Control, KnownMaxValue, MetaType, SmfFormat, Track, U14, U3, U4, U7};

#[test]
fn subint_ranges() {
    assert!(U3::try_from(7u8).is_ok());
    assert_eq!(U3::try_from(8u8), Err(8));
    assert_eq!(U4::try_from(16u8), Err(16));
    assert_eq!(U7::try_from(128u8), Err(128));
    assert_eq!(U14::try_from(0x4000u16), Err(0x4000));
    assert_eq!(u8::from(U7::try_from(127u8).unwrap()), 127);
    assert_eq!(u16::from(U14::from_base_type(300)), 300);
    assert_eq!(U7::zero().to_base_type(), 0);
    assert_eq!(U14::known_max_value().to_base_type(), 0x3FFF);
    assert_eq!(U3::known_max_value().to_base_type(), 7);
    assert_eq!(u32::known_max_value(), u32::MAX);
}

#[test]
fn to_lsb_msb_splits_seven_bits() {
    let (lsb, msb) = U14::from_base_type(0x2001).to_lsb_msb();
    assert_eq!(lsb.to_base_type(), 0x01);
    assert_eq!(msb.to_base_type(), 0x40);
    let (lsb, msb) = U14::from_base_type(0x3FFF).to_lsb_msb();
    assert_eq!((lsb.to_base_type(), msb.to_base_type()), (0x7F, 0x7F));
}

#[test]
fn control_numbers() {
    assert!(matches!(Control::from_base_type(U7::from_base_type(7)), Control::ChannelVolumeMsb));
    assert!(matches!(Control::from_base_type(U7::from_base_type(3)), Control::Other(_)));
    assert_eq!(Control::PolyModeOn.to_base_type().to_base_type(), 127);
    assert_eq!(Control::Other(U7::from_base_type(64)), Control::Sustain);
    assert_ne!(Control::Sustain, Control::Portamento);
    for n in 0..128u8 {
        let c = Control::from_base_type(U7::from_base_type(n));
        assert_eq!(c.to_base_type().to_base_type(), n);
    }
}

#[test]
fn meta_types() {
    assert!(matches!(MetaType::from_base_type(U7::from_base_type(0x51)), MetaType::SetTempo));
    assert!(matches!(MetaType::from_base_type(U7::from_base_type(0x52)), MetaType::Other(_)));
    assert_eq!(MetaType::EndOfTrack.to_base_type().to_base_type(), 0x2F);
    assert_eq!(MetaType::Other(U7::from_base_type(0x7F)), MetaType::SequencerSpecific);
    for n in 0..128u8 {
        assert_eq!(MetaType::from_base_type(U7::from_base_type(n)).to_base_type().to_base_type(), n);
    }
}

#[test]
fn smf_formats() {
    assert!(matches!(SmfFormat::from_base_type(2), SmfFormat::MultiPattern));
    assert!(matches!(SmfFormat::from(9u16), SmfFormat::Other(9)));
    assert_eq!(u16::from(SmfFormat::MultiTrack), 1);
    assert_eq!(SmfFormat::Other(1), SmfFormat::MultiTrack);
    assert_ne!(SmfFormat::Other(1), SmfFormat::SingleTrack);
}

#[test]
fn default_track_is_empty() {
    assert!(Track::default().events.is_empty());
}

#[test]
fn subints_from_and_to_u64() {
    assert_eq!(U3::try_from(7u64).map(|v| v.to_base_type()), Ok(7));
    assert_eq!(U3::try_from(8u64), Err(8u64));
    assert_eq!(U4::try_from(0x1_0000_0000u64), Err(0x1_0000_0000u64));
    assert_eq!(U7::try_from(300u64), Err(300u64));
    assert_eq!(U14::try_from(0x3FFFu64).map(|v| v.to_base_type()), Ok(0x3FFF));
    assert_eq!(U14::try_from(0x4000u64), Err(0x4000u64));
    assert_eq!(u64::from(U14::from_base_type(0x1234)), 0x1234);
    assert_eq!(u64::from(U4::from_base_type(9)), 9);
    assert_eq!(U7::default(), U7::zero());
    assert_eq!(U14::default().to_base_type(), 0);
    assert!(U7::from_base_type(3) < U7::from_base_type(4));
}
