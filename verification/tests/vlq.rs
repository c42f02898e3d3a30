use midiasm::midi::rw_smf::{take_variable_length_quantity, write_variable_length_quantity, Error};

fn tvlq(slice: &[u8]) -> u32 {
    let (slice, value) = take_variable_length_quantity(slice).unwrap();
    assert_eq!(slice.len(), 0);
    value
}

fn wvlq(value: u32, slice: &[u8]) {
    let mut buf = Vec::new();
    write_variable_length_quantity(value, &mut buf);
    assert_eq!(&buf, slice);
}

#[test]
fn test_take_variable_length_quantity() {
    assert_eq!(tvlq(&[0x00]), 0x00);
    assert_eq!(tvlq(&[0x01]), 0x01);
    assert_eq!(tvlq(&[0x7E]), 0x7E);
    assert_eq!(tvlq(&[0x7F]), 0x7F);
    assert_eq!(tvlq(&[0x81, 0x00]), 0x80);
    assert_eq!(tvlq(&[0x81, 0x01]), 0x81);
    assert_eq!(tvlq(&[0x81, 0x02]), 0x82);
    assert_eq!(tvlq(&[0x81, 0x7E]), 0xFE);
    assert_eq!(tvlq(&[0x81, 0x7F]), 0xFF);
    assert_eq!(tvlq(&[0x82, 0x00]), 0x100);
    assert_eq!(tvlq(&[0x82, 0x01]), 0x101);
    assert_eq!(tvlq(&[0xFF, 0xFF, 0xFF, 0x7F]), 0x0FFF_FFFF);
    assert_eq!(tvlq(&[0x81, 0x80, 0x80, 0x80, 0x00]), 0x1000_0000);
    assert_eq!(tvlq(&[0x8F, 0xFF, 0xFF, 0xFF, 0x7F]), 0xFFFF_FFFF);

    if let Err(Error::VariableLengthQuantityTooLarge { maximum, obtained }) = take_variable_length_quantity(&[0x90, 0x80, 0x80, 0x80, 0x01]) {
        assert_eq!(maximum, 0xFFFF_FFFF);
        assert_eq!(obtained, 0x1_0000_0000);
    } else {
        panic!("take_variable_length_quantity returned unexpected success");
    }
}

#[test]
fn test_write_variable_length_quantity() {
    wvlq(0x00, &[0x00]);
    wvlq(0x01, &[0x01]);
    wvlq(0x7E, &[0x7E]);
    wvlq(0x7F, &[0x7F]);
    wvlq(0x80, &[0x81, 0x00]);
    wvlq(0x81, &[0x81, 0x01]);
    wvlq(0x82, &[0x81, 0x02]);
    wvlq(0xFE, &[0x81, 0x7E]);
    wvlq(0xFF, &[0x81, 0x7F]);
    wvlq(0x100, &[0x82, 0x00]);
    wvlq(0x101, &[0x82, 0x01]);
    wvlq(0x0FFF_FFFF, &[0xFF, 0xFF, 0xFF, 0x7F]);
    wvlq(0x1000_0000, &[0x81, 0x80, 0x80, 0x80, 0x00]);
    wvlq(0xFFFF_FFFF, &[0x8F, 0xFF, 0xFF, 0xFF, 0x7F]);

    if let Err(Error::VariableLengthQuantityTooLarge { maximum, obtained }) = take_variable_length_quantity(&[0x90, 0x80, 0x80, 0x80, 0x01]) {
        assert_eq!(maximum, 0xFFFF_FFFF);
        assert_eq!(obtained, 0x1_0000_0000);
    } else {
        panic!("take_variable_length_quantity returned unexpected success");
    }
}

#[test]
fn vlq_unterminated_and_rest() {
    assert!(matches!(take_variable_length_quantity(&[]), Err(Error::UnterminatedVariableLengthQuantity)));
    assert!(matches!(take_variable_length_quantity(&[0x81, 0x80]), Err(Error::UnterminatedVariableLengthQuantity)));
    let (rest, value) = take_variable_length_quantity(&[0x81, 0x00, 0x42, 0x43]).unwrap();
    assert_eq!(value, 0x80);
    assert_eq!(rest, &[0x42, 0x43]);
}

#[test]
fn vlq_roundtrip_values() {
    for value in [0u32, 1, 0x7F, 0x80, 0x3FFF, 0x4000, 0x1F_FFFF, 0x20_0000, 0xFFF_FFFF, 0x1000_0000, 0xFFFF_FFFF] {
        let mut buf = vec![0xAA];
        write_variable_length_quantity(value, &mut buf);
        assert!(buf.len() >= 2 && buf.len() <= 6);
        assert_eq!(buf[0], 0xAA);
        buf.push(0x55);
        let (rest, read) = take_variable_length_quantity(&buf[1..]).unwrap();
        assert_eq!(read, value);
        assert_eq!(rest, &[0x55]);
    }
}
