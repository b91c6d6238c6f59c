use iamf::error::Error;
use iamf::frames::AudioFrame;
use iamf::leb128::decode;
use iamf::obu::{Obu, ObuIter, ObuType};
use iamf::reader::ByteReader;

/// Every OBU of `data`, or the first error.
fn collect_obus(data: &[u8]) -> Result<Vec<Obu<'_>>, Error> {
    let mut it = ObuIter::new(data);
    let mut out = Vec::new();
    while let Some(r) = it.next() {
        out.push(r?);
    }
    Ok(out)
}

/// Every item the OBU iterator yields.
fn all_results(data: &[u8]) -> Vec<Result<Obu<'_>, Error>> {
    let mut it = ObuIter::new(data);
    let mut out = Vec::new();
    while let Some(r) = it.next() {
        out.push(r);
    }
    out
}

/// Builds an OBU byte sequence: first header byte, leb128 size, body.
fn obu_bytes(first_byte: u8, body: &[u8]) -> Vec<u8> {
    assert!(body.len() < 128, "test helper handles 1-byte sizes only");
    let mut out = vec![first_byte, body.len() as u8];
    out.extend_from_slice(body);
    out
}

#[test]
fn single_byte_values() {
    assert_eq!(decode(&[0x00], 0).unwrap(), (0, 1));
    assert_eq!(decode(&[0x7f], 0).unwrap(), (127, 1));
}

#[test]
fn multi_byte_values() {
    assert_eq!(decode(&[0x80, 0x01], 0).unwrap(), (128, 2));
    assert_eq!(decode(&[0xff, 0x7f], 0).unwrap(), (16383, 2));
    // u32::MAX encoded in 5 bytes.
    assert_eq!(decode(&[0xff, 0xff, 0xff, 0xff, 0x0f], 0).unwrap(), (u32::MAX, 5));
}

#[test]
fn trailing_bytes_ignored() {
    assert_eq!(decode(&[0x05, 0xaa, 0xbb], 0).unwrap(), (5, 1));
}

#[test]
fn truncated_input() {
    assert_eq!(decode(&[], 3), Err(Error::UnexpectedEof { offset: 3 }));
    assert_eq!(decode(&[0x80], 0), Err(Error::UnexpectedEof { offset: 1 }));
}

#[test]
fn overflow_rejected() {
    // Value needs 33 bits.
    assert_eq!(decode(&[0xff, 0xff, 0xff, 0xff, 0x1f], 0), Err(Error::InvalidLeb128 { offset: 0 }));
    // 8 continuation bytes with no terminator.
    assert_eq!(decode(&[0x80; 8], 0), Err(Error::InvalidLeb128 { offset: 0 }));
}

#[test]
fn sequence_header_roundtrip() {
    // obu_type=31, no flags; payload is opaque here.
    let data = obu_bytes(31 << 3, &[0x69, 0x61, 0x6d, 0x66]);
    let obu = Obu::parse(&mut ByteReader::new(&data)).unwrap();
    assert_eq!(obu.header.obu_type, ObuType::SequenceHeader);
    assert!(!obu.header.redundant_copy);
    assert_eq!(obu.payload, b"iamf");
}

#[test]
fn audio_frame_with_trimming() {
    // obu_type=6 (audio frame id 0), trimming flag set; body starts with
    // trim_at_end=64, trim_at_start=0, then two payload bytes.
    let data = obu_bytes((6 << 3) | 0x02, &[0x40, 0x00, 0xde, 0xad]);
    let obu = Obu::parse(&mut ByteReader::new(&data)).unwrap();
    assert_eq!(obu.header.obu_type, ObuType::AudioFrameId(0));
    assert_eq!(obu.header.num_samples_to_trim_at_end, 64);
    assert_eq!(obu.header.num_samples_to_trim_at_start, 0);
    assert_eq!(obu.payload, &[0xde, 0xad]);
}

#[test]
fn extension_header_skipped() {
    // Extension flag set: body = ext_size=2, 2 ext bytes, 1 payload byte.
    let data = obu_bytes((31 << 3) | 0x01, &[0x02, 0xaa, 0xbb, 0xcc]);
    let obu = Obu::parse(&mut ByteReader::new(&data)).unwrap();
    assert_eq!(obu.header.extension_header_size, 2);
    assert_eq!(obu.payload, &[0xcc]);
}

#[test]
fn reserved_type_rejected() {
    let data = obu_bytes(25 << 3, &[]);
    assert!(matches!(
        Obu::parse(&mut ByteReader::new(&data)),
        Err(Error::ReservedObuType { obu_type: 25, .. })
    ));
}

#[test]
fn truncated_body_rejected() {
    // Declares a 4-byte body but provides 1.
    let data = [31 << 3, 0x04, 0xff];
    assert!(matches!(Obu::parse(&mut ByteReader::new(&data)), Err(Error::UnexpectedEof { .. })));
}

#[test]
fn iterator_walks_multiple_obus() {
    let mut data = obu_bytes(31 << 3, &[0x00]);
    data.extend(obu_bytes(0 << 3, &[0x01, 0x02]));
    data.extend(obu_bytes(4 << 3, &[]));
    let obus = collect_obus(&data).unwrap();
    assert_eq!(obus.len(), 3);
    assert_eq!(obus[1].header.obu_type, ObuType::CodecConfig);
    assert_eq!(obus[2].header.obu_type, ObuType::TemporalDelimiter);
}

#[test]
fn iterator_stops_after_error() {
    let mut data = obu_bytes(31 << 3, &[0x00]);
    data.extend([25 << 3, 0x00]); // reserved type
    data.extend(obu_bytes(0 << 3, &[])); // never reached
    let results = all_results(&data);
    assert_eq!(results.len(), 2);
    assert!(results[0].is_ok());
    assert!(results[1].is_err());
}

#[test]
fn implicit_and_explicit_ids() {
    // Type 9 => implicit substream id 3; then type 5 with explicit id 200.
    let mut data = vec![9 << 3, 0x02, 0xaa, 0xbb];
    data.extend([5 << 3, 0x03, 0xc8, 0x01, 0xcc]);
    let obus = collect_obus(&data).unwrap();

    let frame = AudioFrame::from_obu(&obus[0]).unwrap().unwrap();
    assert_eq!(frame.substream_id, 3);
    assert_eq!(frame.data, &[0xaa, 0xbb]);

    let frame = AudioFrame::from_obu(&obus[1]).unwrap().unwrap();
    assert_eq!(frame.substream_id, 200);
    assert_eq!(frame.data, &[0xcc]);
}

#[test]
fn non_audio_frame_is_none() {
    let data = [31 << 3, 0x00];
    let obus = collect_obus(&data).unwrap();
    assert_eq!(AudioFrame::from_obu(&obus[0]).unwrap(), None);
}

#[test]
fn trimming_propagates() {
    // Type 6 (id 0) with trimming flag: trim_end=64, trim_start=312.
    let data = [(6 << 3) | 0x02, 0x04, 0x40, 0xb8, 0x02, 0xff];
    let obus = collect_obus(&data).unwrap();
    let frame = AudioFrame::from_obu(&obus[0]).unwrap().unwrap();
    assert_eq!(frame.num_samples_to_trim_at_end, 64);
    assert_eq!(frame.num_samples_to_trim_at_start, 312);
    assert_eq!(frame.data, &[0xff]);
}
