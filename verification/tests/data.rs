use bytes::Bytes;
use snarkvm_kit::bytes_le::{from_bytes_le, to_bytes_le, BytesError, FromBytes, Reader, ToBytes};
use snarkvm_kit::data::{Data, DATA_ENCODING_OVERHEAD, MAX_DATA_SIZE};
use snarkvm_kit::data_text::{
    buffer_from_opened, buffer_from_text, buffer_to_text, DataForm, OpenedText, TextError, BECH32M_RESIDUE,
};

/// A stand-in for a hash: 256 bits that depend on every bit of the preimage.
fn hash(preimage: &[bool]) -> Vec<bool> {
    let mut state = 0x9e3779b97f4a7c15u64;
    for (i, bit) in preimage.iter().enumerate() {
        state = state.rotate_left(7) ^ ((i as u64) << 1 | *bit as u64);
        state = state.wrapping_mul(0xbf58476d1ce4e5b9);
    }
    let mut out = Vec::new();
    for _ in 0..256 {
        state ^= state << 13;
        state ^= state >> 7;
        state ^= state << 17;
        out.push(state & 1 == 1);
    }
    out
}

#[test]
fn test_to_checksum() {
    for value in [0u32, 1, 255, 256, 0x01020304, u32::MAX] {
        // The object's bytes as a buffer, and the object itself.
        let data_bytes: Data<u32> = Data::Buffer(to_bytes_le(&value).unwrap().into());
        let data: Data<u32> = Data::Object(value);

        // Compute the checksums.
        let checksum_1 = Data::<u32>::to_checksum(&hash(&data_bytes.checksum_preimage().unwrap()), 128);
        let checksum_2 = Data::<u32>::to_checksum(&hash(&data.checksum_preimage().unwrap()), 128);

        // Ensure the checksums are equal.
        assert_eq!(checksum_1, checksum_2);
    }
}

/// A serialized `Data` has to be exactly that much larger than the payload it carries,
/// whichever representation it is in.
#[test]
fn data_encoding_overhead_matches_the_encoding() {
    let payload = to_bytes_le(&0xdeadbeefu32).unwrap();
    let object: Data<u32> = Data::Object(0xdeadbeef);
    let buffer: Data<u32> = Data::Buffer(payload.clone().into());
    for data in [object, buffer] {
        assert_eq!(to_bytes_le(&data).unwrap().len(), payload.len() + DATA_ENCODING_OVERHEAD);
    }
}

#[test]
fn preimage_bits_start_at_the_lowest() {
    let data: Data<u8> = Data::Buffer(Bytes::from(vec![0b0000_0101, 0b1000_0000]));
    let mut expected = vec![true, false, true, false, false, false, false, false];
    expected.extend([false, false, false, false, false, false, false, true]);
    assert_eq!(data.checksum_preimage().unwrap(), expected);
}

#[test]
fn a_checksum_takes_the_first_bits_of_a_hash() {
    let mut bits = vec![false; 256];
    bits[0] = true;
    bits[5] = true;
    bits[127] = true;
    bits[128] = true;
    assert_eq!(Data::<u8>::to_checksum(&bits, 128), 1 + (1 << 5) + (1 << 127));
    assert_eq!(Data::<u8>::to_checksum(&[true; 128], 128), u128::MAX);
    // The width is the network's.
    assert_eq!(Data::<u8>::to_checksum(&bits, 64), 1 + (1 << 5));
    assert_eq!(Data::<u8>::to_checksum(&[true; 256], 64), u64::MAX as u128);
    assert_eq!(Data::<u8>::to_checksum(&bits, 0), 0);
}

#[test]
fn framed_bytes_of_an_object() {
    let data: Data<u32> = Data::Object(0x01020304);
    assert_eq!(to_bytes_le(&data).unwrap(), [1, 4, 0, 0, 0, 4, 3, 2, 1]);
    let long: Data<u8> = Data::Buffer(Bytes::from(vec![7; 0x0203]));
    let bytes = to_bytes_le(&long).unwrap();
    assert_eq!(bytes[..5], [1, 3, 2, 0, 0]);
    assert_eq!(bytes.len(), 5 + 0x0203);
}

#[test]
fn what_was_written_reads_back() {
    let data: Data<u32> = Data::Object(77);
    let mut bytes = to_bytes_le(&data).unwrap();
    bytes.extend([9, 9]);
    let mut reader = Reader::new(&bytes);
    let back = Data::<u32>::read_le(&mut reader).unwrap();
    assert!(back == Data::Buffer(Bytes::from(vec![77, 0, 0, 0])));
    // What stands behind is left.
    assert_eq!(reader.next_byte(), Ok(9));
    assert_eq!(back.clone().deserialize_blocking(), Ok(77));
    // Data can be nested.
    let nested: Data<Data<u32>> = Data::Object(Data::Object(77));
    let bytes = to_bytes_le(&nested).unwrap();
    let outer = from_bytes_le::<Data<Data<u32>>>(&bytes).unwrap();
    let inner = outer.deserialize_blocking().unwrap();
    assert_eq!(inner.deserialize_blocking(), Ok(77));
}

#[test]
fn framed_bytes_that_cannot_be_read() {
    let read = |bytes: &[u8]| from_bytes_le::<Data<u8>>(bytes).err();
    assert_eq!(read(&[]), Some(BytesError::UnexpectedEnd));
    assert_eq!(read(&[2, 0, 0, 0, 0]), Some(BytesError::InvalidVersion));
    assert_eq!(read(&[0]), Some(BytesError::InvalidVersion));
    assert_eq!(read(&[1, 0, 0, 0]), Some(BytesError::UnexpectedEnd));
    let too_many = MAX_DATA_SIZE + 1;
    let mut bytes = vec![1];
    bytes.extend(to_bytes_le(&too_many).unwrap());
    assert_eq!(read(&bytes), Some(BytesError::TooManyBytes(too_many)));
    bytes = vec![1];
    bytes.extend(to_bytes_le(&MAX_DATA_SIZE).unwrap());
    assert_eq!(read(&bytes), None);
}

#[test]
fn a_short_payload_is_taken_as_far_as_it_goes() {
    let back = from_bytes_le::<Data<u8>>(&[1, 10, 0, 0, 0, 5, 6]).unwrap();
    assert!(back == Data::Buffer(Bytes::from(vec![5, 6])));
    let empty = from_bytes_le::<Data<u8>>(&[1, 0, 0, 0, 0, 5]).unwrap();
    assert!(empty == Data::Buffer(Bytes::new()));
}

#[test]
fn objects_and_buffers_serialize_without_framing() {
    let object: Data<u32> = Data::Object(0x0a0b0c0d);
    let buffer: Data<u32> = Data::Buffer(Bytes::from(vec![0x0d, 0x0c, 0x0b, 0x0a]));
    for data in [object, buffer] {
        let mut writer = vec![1, 2];
        data.serialize_blocking_into(&mut writer).unwrap();
        assert_eq!(writer, [1, 2, 0x0d, 0x0c, 0x0b, 0x0a]);
        assert_eq!(data.serialize_blocking().unwrap(), Bytes::from(vec![0x0d, 0x0c, 0x0b, 0x0a]));
    }
}

#[test]
fn deserializing_reports_bytes_that_are_missing() {
    let short: Data<u32> = Data::Buffer(Bytes::from(vec![1, 2, 3]));
    assert_eq!(short.deserialize_blocking(), Err(BytesError::UnexpectedEnd));
    let object: Data<u32> = Data::Object(5);
    assert_eq!(object.deserialize_blocking(), Ok(5));
}

#[test]
fn data_converts_with_its_object() {
    let object: Data<u8> = Data::Object(200);
    let wide: Data<u32> = object.into();
    assert!(wide == Data::Object(200));
    let buffer: Data<u8> = Data::Buffer(Bytes::from(vec![200]));
    let wide: Data<u32> = buffer.into();
    assert!(wide == Data::Buffer(Bytes::from(vec![200])));
}

#[test]
fn numbers_write_their_lowest_byte_first() {
    let mut writer = vec![];
    0x01u8.write_le(&mut writer).unwrap();
    0x02030405u32.write_le(&mut writer).unwrap();
    assert_eq!(writer, [1, 5, 4, 3, 2]);
    assert_eq!(from_bytes_le::<u8>(&writer), Ok(1));
    assert_eq!(from_bytes_le::<u32>(&writer[1..]), Ok(0x02030405));
    assert_eq!(from_bytes_le::<u8>(&[]), Err(BytesError::UnexpectedEnd));
}

#[test]
fn buffers_read_back_from_text() {
    // Longer than a code word that corrects errors could be.
    for n in [1usize, 2, 3, 4, 5, 100, 631, 5000] {
        let buffer = Bytes::from((0..n).map(|i| (i * 31 + 7) as u8).collect::<Vec<u8>>());
        let text = buffer_to_text(&buffer);
        assert!(text.starts_with("data1"));
        assert_eq!(text.len(), 5 + (n * 8 + 4) / 5 + 6);
        assert_eq!(buffer_from_text(&text), Ok(buffer));
    }
}

#[test]
fn text_of_a_buffer_is_bech32m() {
    let bytes = [0u8, 1, 2, 3, 255];
    let hrp = bech32::Hrp::parse("data").unwrap();
    let expected = bech32::encode::<bech32::Bech32m>(hrp, &bytes).unwrap();
    let text = buffer_to_text(&Bytes::from(bytes.to_vec()));
    assert_eq!(text, expected);
    assert_eq!(buffer_from_text(&expected), Ok(Bytes::from(bytes.to_vec())));
}

#[test]
fn text_that_is_no_buffer() {
    let bytes = [9u8, 8, 7];
    let data = bech32::Hrp::parse("data").unwrap();
    let other = bech32::Hrp::parse("date").unwrap();
    let upper = bech32::Hrp::parse("DATA").unwrap();
    // The reason is the parser's own.
    for text in ["", "data", "data1b", "1qqqqqqq"] {
        let reason = bech32::primitives::decode::UncheckedHrpstring::new(text).err().unwrap().to_string();
        assert_eq!(buffer_from_text(text), Err(TextError::Unparsable(reason)));
    }
    assert_eq!(buffer_from_text("data1qqq"), Err(TextError::InvalidLength));
    // Another checksum.
    let text = bech32::encode::<bech32::Bech32>(data, &bytes).unwrap();
    assert_eq!(buffer_from_text(&text), Err(TextError::InvalidResidue));
    // One symbol changed.
    let text = bech32::encode::<bech32::Bech32m>(data, &bytes).unwrap();
    let changed = text.replacen("data1p", "data1q", 1);
    assert_ne!(text, changed);
    assert_eq!(buffer_from_text(&changed), Err(TextError::InvalidResidue));
    // Another human-readable part.
    let text = bech32::encode::<bech32::Bech32m>(other, &bytes).unwrap();
    assert_eq!(buffer_from_text(&text), Err(TextError::InvalidHrp("date".to_string())));
    let text = bech32::encode_upper::<bech32::Bech32m>(upper, &bytes).unwrap();
    assert_eq!(buffer_from_text(&text), Err(TextError::InvalidHrp("DATA".to_string())));
    // No bytes.
    let text = buffer_to_text(&Bytes::new());
    assert_eq!(buffer_from_text(&text), Err(TextError::Empty));
}

#[test]
fn opened_text_is_judged_part_by_part() {
    let opened = |hrp: &str, residue: u32, symbols: usize, data: &[u8]| {
        buffer_from_opened(OpenedText { hrp: hrp.to_string(), residue, symbols, data: data.to_vec() })
    };
    assert_eq!(opened("data", BECH32M_RESIDUE, 8, &[5]), Ok(Bytes::from(vec![5])));
    assert_eq!(opened("data", BECH32M_RESIDUE, 5, &[5]), Err(TextError::InvalidLength));
    assert_eq!(opened("data", 1, 8, &[5]), Err(TextError::InvalidResidue));
    assert_eq!(opened("tada", BECH32M_RESIDUE, 8, &[5]), Err(TextError::InvalidHrp("tada".to_string())));
    assert_eq!(opened("data", BECH32M_RESIDUE, 6, &[]), Err(TextError::Empty));
}

#[test]
fn tags_tell_objects_from_buffers() {
    assert_eq!(DataForm::Object.tag(), "object");
    assert_eq!(DataForm::Buffer.tag(), "buffer");
    assert_eq!(DataForm::from_tag("object".to_string()), Ok(DataForm::Object));
    assert_eq!(DataForm::from_tag("buffer".to_string()), Ok(DataForm::Buffer));
    assert_eq!(DataForm::from_tag("Object".to_string()), Err(TextError::InvalidType("Object".to_string())));
}

#[test]
fn text_errors_have_their_messages() {
    let name = || "x".to_string();
    assert_eq!(TextError::Unparsable(name()).message(), "parse failed");
    assert_eq!(TextError::InvalidLength.message(), "invalid checksum");
    assert_eq!(TextError::InvalidResidue.message(), "invalid checksum");
    assert_eq!(TextError::InvalidHrp(name()).message(), "Invalid data HRP - x");
    assert_eq!(TextError::Empty.message(), "Invalid bech32m data (empty)");
    assert_eq!(TextError::InvalidType(name()).message(), "Invalid data type - x");
}
