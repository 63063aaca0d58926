use cddl_gen::codec::{
    mcbor_dec_array, mcbor_dec_bool, mcbor_dec_bytes, mcbor_dec_map, mcbor_enc_array,
    mcbor_enc_bool, mcbor_enc_bytes, mcbor_enc_bytes_len, mcbor_enc_i16, mcbor_enc_i32,
    mcbor_enc_i64, mcbor_enc_i8, mcbor_enc_map, mcbor_enc_null, mcbor_enc_simple, mcbor_enc_str,
    mcbor_enc_str_len, mcbor_enc_u16, mcbor_enc_u32, mcbor_enc_u64, mcbor_enc_u8,
    mcbor_enc_undefined,
};
use minicbor::Encoder;

#[test]
fn test_mcbor_enc_u8() {
    let mut actual: Vec<u8> = vec![0; 1];
    let mut expect: Vec<u8> = vec![0; 1];
    let ret = mcbor_enc_u8(&mut actual, 2);
    Encoder::new(expect.as_mut_slice()).u8(2).unwrap();
    assert_eq!(1, ret);
    assert_eq!(expect, actual);
}

#[test]
fn test_mcbor_enc_i8() {
    let mut actual: Vec<u8> = vec![0; 1];
    let mut expect: Vec<u8> = vec![0; 1];
    let ret = mcbor_enc_i8(&mut actual, 2);
    Encoder::new(expect.as_mut_slice()).i8(2).unwrap();
    assert_eq!(1, ret);
    assert_eq!(expect, actual);
}

#[test]
fn test_mcbor_enc_u16() {
    let mut actual: Vec<u8> = vec![0; 1];
    let mut expect: Vec<u8> = vec![0; 1];
    let ret = mcbor_enc_u16(&mut actual, 2);
    Encoder::new(expect.as_mut_slice()).u16(2).unwrap();
    assert_eq!(1, ret);
    assert_eq!(expect, actual);
}

#[test]
fn test_mcbor_enc_i16() {
    let mut actual: Vec<u8> = vec![0; 1];
    let mut expect: Vec<u8> = vec![0; 1];
    let ret = mcbor_enc_i16(&mut actual, 2);
    Encoder::new(expect.as_mut_slice()).i16(2).unwrap();
    assert_eq!(1, ret);
    assert_eq!(expect, actual);
}

#[test]
fn test_mcbor_enc_u32() {
    let mut actual: Vec<u8> = vec![0; 1];
    let mut expect: Vec<u8> = vec![0; 1];
    let ret = mcbor_enc_u32(&mut actual, 2);
    Encoder::new(expect.as_mut_slice()).u32(2).unwrap();
    assert_eq!(1, ret);
    assert_eq!(expect, actual);
}

#[test]
fn test_mcbor_enc_i32() {
    let mut actual: Vec<u8> = vec![0; 1];
    let mut expect: Vec<u8> = vec![0; 1];
    let ret = mcbor_enc_i32(&mut actual, 2);
    Encoder::new(expect.as_mut_slice()).i32(2).unwrap();
    assert_eq!(1, ret);
    assert_eq!(expect, actual);
}

#[test]
fn test_mcbor_enc_u64() {
    let mut actual: Vec<u8> = vec![0; 1];
    let mut expect: Vec<u8> = vec![0; 1];
    let ret = mcbor_enc_u64(&mut actual, 2);
    Encoder::new(expect.as_mut_slice()).u64(2).unwrap();
    assert_eq!(1, ret);
    assert_eq!(expect, actual);
}

#[test]
fn test_mcbor_enc_i64() {
    let mut actual: Vec<u8> = vec![0; 1];
    let mut expect: Vec<u8> = vec![0; 1];
    let ret = mcbor_enc_i64(&mut actual, 2);
    Encoder::new(expect.as_mut_slice()).i64(2).unwrap();
    assert_eq!(1, ret);
    assert_eq!(expect, actual);
}

#[test]
fn test_mcbor_enc_null() {
    let mut actual: Vec<u8> = vec![0; 1];
    let mut expect: Vec<u8> = vec![0; 1];
    let ret = mcbor_enc_null(&mut actual);
    Encoder::new(expect.as_mut_slice()).null().unwrap();
    assert_eq!(1, ret);
    assert_eq!(expect, actual);
}

#[test]
fn test_mcbor_enc_undefined() {
    let mut actual: Vec<u8> = vec![0; 1];
    let mut expect: Vec<u8> = vec![0; 1];
    let ret = mcbor_enc_undefined(&mut actual);
    Encoder::new(expect.as_mut_slice()).undefined().unwrap();
    assert_eq!(1, ret);
    assert_eq!(expect, actual);
}

#[test]
fn test_mcbor_enc_simple() {
    let mut actual: Vec<u8> = vec![0; 1];
    let mut expect: Vec<u8> = vec![0; 1];
    let ret = mcbor_enc_simple(&mut actual, 2);
    Encoder::new(expect.as_mut_slice()).simple(2).unwrap();
    assert_eq!(1, ret);
    assert_eq!(expect, actual);
}

#[test]
fn test_mcbor_enc_bytes() {
    let dat: Vec<u8> = vec![0, 1, 2, 3];
    let enclen = mcbor_enc_bytes_len(&dat);
    let mut actual: Vec<u8> = vec![0; enclen as usize];
    let ret = mcbor_enc_bytes(&mut actual, &dat);
    assert_eq!(enclen, ret as u32);
    assert_eq!(
        vec![0, 1, 2, 3],
        minicbor::decode::<&minicbor::bytes::ByteSlice>(actual.as_ref())
            .unwrap()
            .to_vec()
    );
}

#[test]
fn test_mcbor_enc_str() {
    let enclen = mcbor_enc_str_len("hello");
    let mut actual: Vec<u8> = vec![0; enclen as usize];
    let ret = mcbor_enc_str(&mut actual, "hello");
    assert_eq!(enclen, ret as u32);
    assert_eq!("hello", minicbor::decode::<&str>(actual.as_ref()).unwrap());
}

#[test]
fn test_mcbor_enc_array() {
    let mut actual: Vec<u8> = vec![0; 3];
    let ret = mcbor_enc_array(&mut actual, 2);
    assert_eq!(1, ret);
    let mut one: Vec<u8> = vec![0; 1];
    let ret = mcbor_enc_u8(&mut one, 4);
    assert_eq!(1, ret);
    actual[1] = one[0];
    let ret = mcbor_enc_u8(&mut one, 2);
    assert_eq!(1, ret);
    actual[2] = one[0];
    assert_eq!([4, 2], minicbor::decode::<[u8; 2]>(&actual).unwrap());
}

#[test]
fn test_mcbor_enc_map() {
    let mut actual: Vec<u8> = vec![0; 3];
    let ret = mcbor_enc_map(&mut actual, 2);
    assert_eq!(1, ret);
    let mut one: Vec<u8> = vec![0; 1];
    let ret = mcbor_enc_u8(&mut one, 4);
    assert_eq!(1, ret);
    actual[1] = one[0];
    let ret = mcbor_enc_u8(&mut one, 2);
    assert_eq!(1, ret);
    actual[2] = one[0];
    let mut decoder = minicbor::decode::Decoder::new(&actual);
    assert!(decoder.map().is_ok());
    assert_eq!(4, decoder.u8().unwrap());
    assert_eq!(2, decoder.u8().unwrap());
}

#[test]
fn test_mcbor_dec_bool() {
    let mut buf: Vec<u8> = vec![0; 1];
    let mut uut = false;
    let ret = mcbor_enc_bool(&mut buf, true);
    assert_eq!(1, ret);
    let ret = mcbor_dec_bool(&mut uut, &buf);
    assert_eq!(1, ret);
    assert_eq!(true, uut);

    let ret = mcbor_enc_bool(&mut buf, false);
    assert_eq!(1, ret);
    let ret = mcbor_dec_bool(&mut uut, &buf);
    assert_eq!(1, ret);
    assert_eq!(false, uut);
}

#[test]
fn test_mcbor_dec_map() {
    let mut buf: Vec<u8> = vec![0; 1];
    let ret = mcbor_enc_map(&mut buf, 2);
    assert_eq!(1, ret);

    let ret = mcbor_dec_map(&buf);
    assert_eq!(2, ret);
}

#[test]
fn test_mcbor_dec_array() {
    let mut buf: Vec<u8> = vec![0; 1];
    let ret = mcbor_enc_array(&mut buf, 2);
    assert_eq!(1, ret);

    let ret = mcbor_dec_array(&buf);
    assert_eq!(2, ret);
}

#[test]
fn test_mcbor_dec_bytes() {
    let mut actual: Vec<u8> = vec![0; 3];
    let mut data: Vec<u8> = vec![0; 4];
    Encoder::new(data.as_mut_slice()).bytes(&[0, 1, 2]).unwrap();
    let ret = mcbor_dec_bytes(&mut actual, &data);
    assert_eq!(3, ret);
    assert_eq!(vec![0, 1, 2], actual);
}

#[test]
fn test_mcbor_enc_too_small() {
    let mut actual: Vec<u8> = vec![0; 1];
    let before = actual.clone();
    let ret = mcbor_enc_u16(&mut actual, 0x1234);
    assert_eq!(-1, ret);
    assert_eq!(before, actual);
}

#[test]
fn test_mcbor_enc_wide_values() {
    let mut actual: Vec<u8> = vec![0; 9];
    let mut expect: Vec<u8> = vec![0; 9];
    let ret = mcbor_enc_u64(&mut actual, 0x1_0000_0000);
    let mut enc = Encoder::new(expect.as_mut_slice());
    enc.u64(0x1_0000_0000).unwrap();
    assert_eq!(9, ret);
    assert_eq!(expect, actual);

    let mut actual: Vec<u8> = vec![0; 2];
    let mut expect: Vec<u8> = vec![0; 2];
    let ret = mcbor_enc_i8(&mut actual, -100);
    Encoder::new(expect.as_mut_slice()).i8(-100).unwrap();
    assert_eq!(2, ret);
    assert_eq!(expect, actual);
}

#[test]
fn test_mcbor_dec_wrong_kind() {
    let mut buf: Vec<u8> = vec![0; 1];
    let ret = mcbor_enc_array(&mut buf, 2);
    assert_eq!(1, ret);
    assert_eq!(-1, mcbor_dec_map(&buf));
    let mut uut = false;
    assert_eq!(-1, mcbor_dec_bool(&mut uut, &buf));
}

#[test]
fn test_mcbor_dec_str() {
    let mut actual: Vec<u8> = vec![0; 3];
    let mut data: Vec<u8> = vec![0; 4];
    Encoder::new(data.as_mut_slice()).str("hii").unwrap();
    let ret = cddl_gen::codec::mcbor_dec_str(&mut actual, &data);
    assert_eq!(3, ret);
    assert_eq!("hii".as_bytes(), actual);
}
