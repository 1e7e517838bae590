use seeyuj::codec::{dec_i32, dec_opt_u32, dec_str, dec_u64, put_i32, put_opt_u32, put_str, put_u64};

#[test]
fn u64_roundtrip() {
    let mut buf: Vec<u8> = Vec::new();
    put_u64(&mut buf, 0xDEAD_BEEF_0123_4567);
    let (x, end) = dec_u64(&buf, 0).unwrap();
    assert_eq!(x, 0xDEAD_BEEF_0123_4567);
    assert_eq!(end, 8);
    assert!(dec_u64(&buf, 1).is_none());
}

#[test]
fn i32_roundtrip_negative() {
    let mut buf: Vec<u8> = Vec::new();
    put_i32(&mut buf, -123456);
    let (x, _end) = dec_i32(&buf, 0).unwrap();
    assert_eq!(x, -123456);
}

#[test]
fn str_roundtrip() {
    let mut buf: Vec<u8> = Vec::new();
    put_str(&mut buf, "hello wörld");
    let (s, end) = dec_str(&buf, 0).unwrap();
    assert_eq!(s, "hello wörld");
    assert_eq!(end, buf.len());
}

#[test]
fn str_decode_rejects_invalid_utf8() {
    // A length-prefixed byte string whose payload is not UTF-8.
    let mut buf: Vec<u8> = Vec::new();
    put_u64(&mut buf, 2);
    buf.push(0xff);
    buf.push(0xfe);
    assert!(dec_str(&buf, 0).is_none());
}

#[test]
fn opt_u32_roundtrip() {
    let mut buf: Vec<u8> = Vec::new();
    put_opt_u32(&mut buf, &None);
    put_opt_u32(&mut buf, &Some(7));
    let (a, o1) = dec_opt_u32(&buf, 0).unwrap();
    assert_eq!(a, None);
    let (b, _o2) = dec_opt_u32(&buf, o1).unwrap();
    assert_eq!(b, Some(7));
}
