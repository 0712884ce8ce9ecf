use byteorder::{NetworkEndian, WriteBytesExt};
use udp_csv::decode::decode;
use udp_csv::elem::ElementType;

#[test]
fn bool_bits_lsb_first() {
    let r = decode(ElementType::Bool, &vec![0b0000_0101u8]);
    assert_eq!(r, vec![1, 0, 1, 0, 0, 0, 0, 0]);
}

#[test]
fn bool_eight_values_per_byte() {
    let r = decode(ElementType::Bool, &vec![0xFF, 0x00, 0x80]);
    assert_eq!(r.len(), 24);
    assert_eq!(&r[0..8], &[1, 1, 1, 1, 1, 1, 1, 1]);
    assert_eq!(&r[8..16], &[0, 0, 0, 0, 0, 0, 0, 0]);
    assert_eq!(&r[16..24], &[0, 0, 0, 0, 0, 0, 0, 1]);
}

#[test]
fn element_counts_match_width() {
    assert_eq!(decode(ElementType::U8, &vec![9, 8, 7, 6, 5]).len(), 5);
    assert_eq!(decode(ElementType::I8, &vec![9, 8, 7]).len(), 3);
    assert_eq!(decode(ElementType::U16, &vec![0, 1, 0, 2, 0]).len(), 2);
    assert_eq!(decode(ElementType::I16, &vec![0, 1, 0]).len(), 1);
    assert_eq!(decode(ElementType::Bool, &vec![1, 2]).len(), 16);
}

#[test]
fn trailing_bytes_dropped_silently() {
    assert_eq!(decode(ElementType::U16, &vec![0, 1, 0xFF]), vec![1]);
    assert_eq!(decode(ElementType::I16, &vec![0xAB]), Vec::<i32>::new());
}

#[test]
fn empty_buffer_decodes_to_nothing() {
    assert_eq!(decode(ElementType::U8, &vec![]), Vec::<i32>::new());
    assert_eq!(decode(ElementType::Bool, &vec![]), Vec::<i32>::new());
    assert_eq!(decode(ElementType::U16, &vec![]), Vec::<i32>::new());
}

#[test]
fn u16_is_big_endian() {
    assert_eq!(decode(ElementType::U16, &vec![0x01, 0x00]), vec![256]);
    assert_eq!(decode(ElementType::U16, &vec![0x00, 0x01]), vec![1]);
    assert_eq!(decode(ElementType::U16, &vec![0xFF, 0xFF]), vec![65535]);
}

#[test]
fn signed_values_read_as_twos_complement() {
    assert_eq!(decode(ElementType::I8, &vec![0x80, 0xFF, 0x7F]), vec![-128, -1, 127]);
    assert_eq!(decode(ElementType::I16, &vec![0xFF, 0xFE, 0x80, 0x00]), vec![-2, -32768]);
}

#[test]
fn round_trip_u16() {
    let vals: Vec<u16> = vec![0, 1, 2, 513, 4660, 65535];
    let mut bytes: Vec<u8> = Vec::new();
    for v in &vals {
        bytes.write_u16::<NetworkEndian>(*v).unwrap();
    }
    let expected: Vec<i32> = vals.iter().map(|v| *v as i32).collect();
    assert_eq!(decode(ElementType::U16, &bytes), expected);
}

#[test]
fn round_trip_i16() {
    let vals: Vec<i16> = vec![0, -1, 1, -32768, 32767, -513];
    let mut bytes: Vec<u8> = Vec::new();
    for v in &vals {
        bytes.write_i16::<NetworkEndian>(*v).unwrap();
    }
    let expected: Vec<i32> = vals.iter().map(|v| *v as i32).collect();
    assert_eq!(decode(ElementType::I16, &bytes), expected);
}

#[test]
fn round_trip_u8_and_i8() {
    let mut bytes: Vec<u8> = Vec::new();
    for v in [0u8, 1, 127, 128, 255] {
        bytes.write_u8(v).unwrap();
    }
    assert_eq!(decode(ElementType::U8, &bytes), vec![0, 1, 127, 128, 255]);

    let mut bytes: Vec<u8> = Vec::new();
    for v in [0i8, 1, -1, 127, -128] {
        bytes.write_i8(v).unwrap();
    }
    assert_eq!(decode(ElementType::I8, &bytes), vec![0, 1, -1, 127, -128]);
}
