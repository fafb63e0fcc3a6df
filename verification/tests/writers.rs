use facet_wire::msgpack::write_i16;
use facet_wire::msgpack::write_i32;
use facet_wire::msgpack::write_i64;
use facet_wire::msgpack::write_i8;
use facet_wire::msgpack::write_map_len;
use facet_wire::msgpack::write_str;
use facet_wire::msgpack::write_u16;
use facet_wire::msgpack::write_u32;
use facet_wire::msgpack::write_u64;
use facet_wire::msgpack::write_u8;

fn u8_bytes(n: u8) -> Vec<u8> {
    let mut out = Vec::new();
    write_u8(&mut out, n);
    out
}

fn u16_bytes(n: u16) -> Vec<u8> {
    let mut out = Vec::new();
    write_u16(&mut out, n);
    out
}

fn u32_bytes(n: u32) -> Vec<u8> {
    let mut out = Vec::new();
    write_u32(&mut out, n);
    out
}

fn u64_bytes(n: u64) -> Vec<u8> {
    let mut out = Vec::new();
    write_u64(&mut out, n);
    out
}

fn i8_bytes(n: i8) -> Vec<u8> {
    let mut out = Vec::new();
    write_i8(&mut out, n);
    out
}

fn i16_bytes(n: i16) -> Vec<u8> {
    let mut out = Vec::new();
    write_i16(&mut out, n);
    out
}

fn i32_bytes(n: i32) -> Vec<u8> {
    let mut out = Vec::new();
    write_i32(&mut out, n);
    out
}

fn i64_bytes(n: i64) -> Vec<u8> {
    let mut out = Vec::new();
    write_i64(&mut out, n);
    out
}

fn str_bytes(s: &str) -> Vec<u8> {
    let mut out = Vec::new();
    write_str(&mut out, s);
    out
}

fn map_len_bytes(n: usize) -> Vec<u8> {
    let mut out = Vec::new();
    write_map_len(&mut out, n);
    out
}

#[test]
fn unsigned_minimal_width() {
    assert_eq!(u8_bytes(0), vec![0x00]);
    assert_eq!(u8_bytes(127), vec![0x7f]);
    assert_eq!(u8_bytes(128), vec![0xcc, 0x80]);
    assert_eq!(u8_bytes(255), vec![0xcc, 0xff]);
    assert_eq!(u16_bytes(256), vec![0xcd, 0x01, 0x00]);
    assert_eq!(u16_bytes(65535), vec![0xcd, 0xff, 0xff]);
    assert_eq!(u32_bytes(65536), vec![0xce, 0x00, 0x01, 0x00, 0x00]);
    assert_eq!(u32_bytes(4294967295), vec![0xce, 0xff, 0xff, 0xff, 0xff]);
    assert_eq!(
        u64_bytes(4294967296),
        vec![0xcf, 0x00, 0x00, 0x00, 0x01, 0x00, 0x00, 0x00, 0x00]
    );
    assert_eq!(
        u64_bytes(u64::MAX),
        vec![0xcf, 0xff, 0xff, 0xff, 0xff, 0xff, 0xff, 0xff, 0xff]
    );
}

#[test]
fn signed_minimal_width() {
    assert_eq!(i8_bytes(-1), vec![0xff]);
    assert_eq!(i8_bytes(-32), vec![0xe0]);
    assert_eq!(i8_bytes(-33), vec![0xd0, 0xdf]);
    assert_eq!(i8_bytes(-128), vec![0xd0, 0x80]);
    assert_eq!(i8_bytes(127), vec![0x7f]);
    assert_eq!(i16_bytes(-129), vec![0xd1, 0xff, 0x7f]);
    assert_eq!(i16_bytes(-32768), vec![0xd1, 0x80, 0x00]);
    assert_eq!(i16_bytes(300), vec![0xcd, 0x01, 0x2c]);
    assert_eq!(i32_bytes(-32769), vec![0xd2, 0xff, 0xff, 0x7f, 0xff]);
    assert_eq!(i32_bytes(i32::MIN), vec![0xd2, 0x80, 0x00, 0x00, 0x00]);
    assert_eq!(
        i64_bytes(-2147483649),
        vec![0xd3, 0xff, 0xff, 0xff, 0xff, 0x7f, 0xff, 0xff, 0xff]
    );
    assert_eq!(
        i64_bytes(i64::MIN),
        vec![0xd3, 0x80, 0x00, 0x00, 0x00, 0x00, 0x00, 0x00, 0x00]
    );
    assert_eq!(
        i64_bytes(i64::MAX),
        vec![0xcf, 0x7f, 0xff, 0xff, 0xff, 0xff, 0xff, 0xff, 0xff]
    );
}

#[test]
fn shared_positive_fixint_across_widths() {
    assert_eq!(u8_bytes(5), u64_bytes(5));
    assert_eq!(u16_bytes(200), u32_bytes(200));
    assert_eq!(i64_bytes(5), u8_bytes(5));
    assert_eq!(i16_bytes(255), u8_bytes(255));
    assert_eq!(i32_bytes(70000), u32_bytes(70000));
    assert_eq!(i8_bytes(-1), i64_bytes(-1));
    assert_eq!(i16_bytes(-128), i32_bytes(-128));
}

#[test]
fn string_headers() {
    assert_eq!(str_bytes(""), vec![0xa0]);
    assert_eq!(str_bytes("Ada"), vec![0xa3, b'A', b'd', b'a']);
    let s31: String = "a".repeat(31);
    assert_eq!(str_bytes(&s31)[0], 0xbf);
    assert_eq!(str_bytes(&s31).len(), 32);
    let s32: String = "a".repeat(32);
    assert_eq!(&str_bytes(&s32)[..2], &[0xd9, 32]);
    let s256: String = "a".repeat(256);
    assert_eq!(&str_bytes(&s256)[..3], &[0xda, 0x01, 0x00]);
    let s65536: String = "a".repeat(65536);
    assert_eq!(&str_bytes(&s65536)[..5], &[0xdb, 0x00, 0x01, 0x00, 0x00]);
    assert_eq!(str_bytes(&s65536).len(), 65541);
}

#[test]
fn string_bytes_are_utf8() {
    let b = str_bytes("héllo");
    assert_eq!(b[0], 0xa0 | 6);
    assert_eq!(&b[1..], "héllo".as_bytes());
}

#[test]
fn map_headers() {
    assert_eq!(map_len_bytes(0), vec![0x80]);
    assert_eq!(map_len_bytes(2), vec![0x82]);
    assert_eq!(map_len_bytes(15), vec![0x8f]);
    assert_eq!(map_len_bytes(16), vec![0xde, 0x00, 0x10]);
    assert_eq!(map_len_bytes(65535), vec![0xde, 0xff, 0xff]);
    assert_eq!(map_len_bytes(65536), vec![0xdf, 0x00, 0x01, 0x00, 0x00]);
}

#[test]
fn writers_append_to_existing_buffer() {
    let mut out = vec![0xaa];
    write_u8(&mut out, 1);
    write_u8(&mut out, 200);
    assert_eq!(out, vec![0xaa, 0x01, 0xcc, 0xc8]);
}
