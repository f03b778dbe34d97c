use borsh::codec::{
    decode_bool, decode_map, decode_option_u64, decode_string, decode_u32, decode_u64, decode_u8,
    decode_vec_u64, encode_array_u64, encode_bool, encode_map, encode_option_u64,
    encode_string, encode_u32, encode_u64, encode_u8, encode_vec_u64, DecodeError,
};

#[test]
fn u32_is_little_endian() {
    let mut out = Vec::new();
    encode_u32(0x0403_0201, &mut out);
    assert_eq!(out, vec![1, 2, 3, 4]);
    assert_eq!(decode_u32(&out), Ok((0x0403_0201, 4)));
}

#[test]
fn u64_round_trip_and_short_input() {
    let mut out = Vec::new();
    encode_u64(0x0102_0304_0506_0708, &mut out);
    assert_eq!(out, vec![8, 7, 6, 5, 4, 3, 2, 1]);
    out.push(99);
    assert_eq!(decode_u64(&out), Ok((0x0102_0304_0506_0708, 8)));
    for k in 0..8 {
        assert_eq!(decode_u64(&out[..k]), Err(DecodeError::UnexpectedEnd));
    }
}

#[test]
fn u8_round_trip() {
    let mut out = Vec::new();
    encode_u8(200, &mut out);
    assert_eq!(out, vec![200]);
    assert_eq!(decode_u8(&out), Ok((200, 1)));
    assert_eq!(decode_u8(&[]), Err(DecodeError::UnexpectedEnd));
}

#[test]
fn bool_bytes() {
    let mut out = Vec::new();
    encode_bool(true, &mut out);
    encode_bool(false, &mut out);
    assert_eq!(out, vec![1, 0]);
    assert_eq!(decode_bool(&[1]), Ok((true, 1)));
    assert_eq!(decode_bool(&[0]), Ok((false, 1)));
    assert_eq!(decode_bool(&[2]), Err(DecodeError::InvalidData));
    assert_eq!(decode_bool(&[]), Err(DecodeError::UnexpectedEnd));
}

#[test]
fn option_presence_byte() {
    let mut out = Vec::new();
    encode_option_u64(None, &mut out);
    assert_eq!(out, vec![0]);
    let mut out = Vec::new();
    encode_option_u64(Some(5), &mut out);
    assert_eq!(out, vec![1, 5, 0, 0, 0, 0, 0, 0, 0]);
    assert_eq!(decode_option_u64(&out), Ok((Some(5), 9)));
    assert_eq!(decode_option_u64(&out[..4]), Err(DecodeError::UnexpectedEnd));
    assert_eq!(decode_option_u64(&[7]), Err(DecodeError::InvalidData));
}

#[test]
fn vec_round_trip_and_prefixes() {
    let v: Vec<u64> = vec![1, 2, 300];
    let mut out = Vec::new();
    encode_vec_u64(&v, &mut out).unwrap();
    assert_eq!(out.len(), 4 + 24);
    assert_eq!(&out[..4], &[3, 0, 0, 0]);
    assert_eq!(decode_vec_u64(&out), Ok((v.clone(), 28)));
    for k in 0..out.len() {
        assert_eq!(decode_vec_u64(&out[..k]), Err(DecodeError::UnexpectedEnd));
    }
}

#[test]
fn vec_oversized_count_is_unexpected_end() {
    let bytes = [0xff, 0xff, 0xff, 0xff, 1, 2, 3];
    assert_eq!(decode_vec_u64(&bytes), Err(DecodeError::UnexpectedEnd));
}

#[test]
fn empty_vec_is_four_zero_bytes() {
    let mut out = Vec::new();
    encode_vec_u64(&Vec::new(), &mut out).unwrap();
    assert_eq!(out, vec![0, 0, 0, 0]);
    assert_eq!(decode_vec_u64(&out), Ok((Vec::new(), 4)));
}

#[test]
fn string_round_trip_and_invalid_utf8() {
    let mut out = Vec::new();
    encode_string("héllo", &mut out).unwrap();
    assert_eq!(&out[..4], &[6, 0, 0, 0]);
    assert_eq!(decode_string(&out), Ok(("héllo".to_string(), 10)));
    assert_eq!(decode_string(&out[..7]), Err(DecodeError::UnexpectedEnd));
    assert_eq!(decode_string(&[2, 0, 0, 0, 0xff, 0xfe]), Err(DecodeError::InvalidData));
}

#[test]
fn fixed_array_has_no_prefix() {
    let a = [7u64; 32];
    let mut out = Vec::new();
    encode_array_u64(&a, &mut out);
    assert_eq!(out.len(), 256);
    assert_eq!(&out[..8], &[7, 0, 0, 0, 0, 0, 0, 0]);
}

#[test]
fn two_field_struct_bytes() {
    let mut out = Vec::new();
    encode_u32(1, &mut out);
    encode_string("x", &mut out).unwrap();
    assert_eq!(out, vec![1, 0, 0, 0, 1, 0, 0, 0, 0x78]);
}

#[test]
fn second_variant_is_tagged_one() {
    let mut out = Vec::new();
    encode_u8(1, &mut out);
    encode_u64(9, &mut out);
    assert_eq!(out, vec![1, 9, 0, 0, 0, 0, 0, 0, 0]);
}

#[test]
fn map_order_does_not_matter() {
    let mut a = Vec::new();
    encode_map(&vec![(2, "b".to_string()), (1, "a".to_string())], &mut a).unwrap();
    let mut b = Vec::new();
    encode_map(&vec![(1, "a".to_string()), (2, "b".to_string())], &mut b).unwrap();
    assert_eq!(a, b);
    assert_eq!(
        a,
        vec![2, 0, 0, 0, 1, 0, 0, 0, 0, 0, 0, 0, 1, 0, 0, 0, b'a', 2, 0, 0, 0, 0, 0, 0, 0, 1, 0, 0, 0, b'b']
    );
    assert_eq!(
        decode_map(&a),
        Ok((vec![(1, "a".to_string()), (2, "b".to_string())], a.len()))
    );
}

#[test]
fn map_out_of_order_is_invalid() {
    let bytes = vec![
        2, 0, 0, 0, 2, 0, 0, 0, 0, 0, 0, 0, 1, 0, 0, 0, b'b', 1, 0, 0, 0, 0, 0, 0, 0, 1, 0, 0, 0,
        b'a',
    ];
    assert_eq!(decode_map(&bytes), Err(DecodeError::InvalidData));
    let dup = vec![
        2, 0, 0, 0, 1, 0, 0, 0, 0, 0, 0, 0, 1, 0, 0, 0, b'a', 1, 0, 0, 0, 0, 0, 0, 0, 1, 0, 0, 0,
        b'a',
    ];
    assert_eq!(decode_map(&dup), Err(DecodeError::InvalidData));
}
