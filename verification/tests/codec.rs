use kvbench::digits::{u64_to_dec_string, i32_to_dec_string, usize_to_dec_string};
use kvbench::errors::BenchError;
use kvbench::fix_sized_key::{DefaultParams, FixSizedKey, FixSizedKeyParams};
use kvbench::quick_istr::QuickIStr;
use std::cmp::Ordering;

#[test]
fn fix_sized_key_works() {
    let params = DefaultParams::params();
    let k1 = FixSizedKey::from_raw(&"hello", &params).unwrap();
    let k2 = FixSizedKey::from_raw(&"world", &params).unwrap();
    let k3 = k1.clone();
    assert_eq!(k1, k3);
    assert_ne!(k1, k2);
    assert!(k1 > k2);
    println!("{}", k1.to_str().unwrap());
    println!("{}", k2.to_str().unwrap());
}

#[test]
fn quick_istr_works() {
    let v = QuickIStr::new(10024);
    println!("{:?}", v.to_string());
    println!("{:?}", v.clone().to_string());
}

#[test]
fn quick_istr_digits() {
    assert_eq!(QuickIStr::new(10024).to_string(), "10024");
    assert_eq!(QuickIStr::new(7).to_string(), "7");
    // Zero has no digits under the buffer converter's convention.
    assert_eq!(QuickIStr::new(0).to_string(), "");
}

#[test]
fn dec_strings() {
    assert_eq!(u64_to_dec_string(0), "0");
    assert_eq!(u64_to_dec_string(18446744073709551615), "18446744073709551615");
    assert_eq!(i32_to_dec_string(-2147483648), "-2147483648");
    assert_eq!(i32_to_dec_string(2147483647), "2147483647");
    assert_eq!(i32_to_dec_string(0), "0");
    assert_eq!(usize_to_dec_string(42), "42");
}

#[test]
fn round_trip() {
    let params = DefaultParams::params();
    let k = FixSizedKey::from_raw(&"hello", &params).unwrap();
    assert_eq!(k.decode_bytes(), b"hello".to_vec());
    assert_eq!(k.to_str().unwrap(), "hello");
    // A full-width key round-trips too.
    let k = FixSizedKey::from_raw(&"0123456789abcdef", &params).unwrap();
    assert_eq!(k.to_str().unwrap(), "0123456789abcdef");
}

#[test]
fn key_too_large() {
    let params = DefaultParams::params();
    let r = FixSizedKey::from_raw(&"0123456789abcdefg", &params);
    assert_eq!(r.unwrap_err(), BenchError::KeyTooLarge);
}

#[test]
fn invalid_utf8_payload() {
    let params = DefaultParams::params();
    let k = FixSizedKey::from_bytes(&[0xff, 0xfe], &params).unwrap();
    assert_eq!(k.to_str().unwrap_err(), BenchError::InvalidUtf8);
    assert_eq!(k.decode_bytes(), vec![0xff, 0xfe]);
}

#[test]
fn bytewise_ordering() {
    let params = FixSizedKeyParams { key_size: 16, allow_int_cmp: false };
    let ab = FixSizedKey::from_raw(&"ab", &params).unwrap();
    let abc = FixSizedKey::from_raw(&"abc", &params).unwrap();
    let abd = FixSizedKey::from_raw(&"abd", &params).unwrap();
    assert_eq!(ab.cmp(&abc), Ordering::Less);
    assert_eq!(abc.cmp(&abd), Ordering::Less);
    assert_eq!(abd.cmp(&abc), Ordering::Greater);
    assert_eq!(abc.cmp(&abc.clone()), Ordering::Equal);
    assert!(ab < abc);
}

#[test]
fn wordwise_differs_from_bytewise() {
    // Little-endian words weigh the eighth byte highest, so the two modes
    // can order the same buffers differently.
    let mut lo = [0u8; 16];
    let mut hi = [0u8; 16];
    lo[0] = 1;
    lo[7] = 2;
    hi[0] = 2;
    hi[7] = 1;
    let byte_params = FixSizedKeyParams { key_size: 16, allow_int_cmp: false };
    let word_params = FixSizedKeyParams { key_size: 16, allow_int_cmp: true };
    let a = FixSizedKey::from_bytes(&lo, &byte_params).unwrap();
    let b = FixSizedKey::from_bytes(&hi, &byte_params).unwrap();
    assert_eq!(a.cmp(&b), Ordering::Less);
    let a = FixSizedKey::from_bytes(&lo, &word_params).unwrap();
    let b = FixSizedKey::from_bytes(&hi, &word_params).unwrap();
    assert_eq!(a.cmp(&b), Ordering::Greater);
}

#[test]
fn incompatible_keys_do_not_order() {
    let word_params = FixSizedKeyParams { key_size: 16, allow_int_cmp: true };
    let byte_params = FixSizedKeyParams { key_size: 16, allow_int_cmp: false };
    let a = FixSizedKey::from_raw(&"a", &word_params).unwrap();
    let b = FixSizedKey::from_raw(&"a", &byte_params).unwrap();
    assert_eq!(a.partial_cmp(&b), None);
    assert_ne!(a, b);
}
