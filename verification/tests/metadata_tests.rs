use tar_split::metadata::{SplitMetadata, encode_split_metadata, parse_split_metadata};

fn record(path: &[u8], off: u32, csz: u32, tot: u64) -> SplitMetadata {
    SplitMetadata { path: path.to_vec(), start_offset: off, chunk_size: csz, total_size: tot }
}

#[test]
fn encode_is_the_json_object() {
    let m = record(b"a/big.img", 1_000_000, 500_000, 2_500_000);
    let b = encode_split_metadata(&m);
    assert_eq!(
        b.as_slice(),
        br#"{"path":"a/big.img","start_offset":1000000,"chunk_size":500000,"total_size":2500000}"#
    );
}

#[test]
fn encode_escapes_quote_backslash_and_controls() {
    let m = record(b"a\"b\\c\x01", 0, 1, 1);
    let b = encode_split_metadata(&m);
    assert_eq!(
        b.as_slice(),
        br#"{"path":"a\"b\\c\u0001","start_offset":0,"chunk_size":1,"total_size":1}"#
    );
}

#[test]
fn round_trip_plain_path() {
    let m = record(b"dir/file.bin", 42, 7, 4_294_967_295);
    let b = encode_split_metadata(&m);
    let back = parse_split_metadata(&b).unwrap();
    assert_eq!(back.path.as_slice(), b"dir/file.bin");
    assert_eq!(back.start_offset, 42);
    assert_eq!(back.chunk_size, 7);
    assert_eq!(back.total_size, 4_294_967_295);
}

#[test]
fn round_trip_escaped_path() {
    let m = record(b"we\"ird\\pa\x1fth", 0, 4_294_967_295, 18_446_744_073_709_551_615);
    let b = encode_split_metadata(&m);
    let back = parse_split_metadata(&b).unwrap();
    assert_eq!(back.path.as_slice(), b"we\"ird\\pa\x1fth");
    assert_eq!(back.start_offset, 0);
    assert_eq!(back.chunk_size, 4_294_967_295);
    assert_eq!(back.total_size, 18_446_744_073_709_551_615);
}

#[test]
fn round_trip_empty_path() {
    let m = record(b"", 0, 0, 0);
    let b = encode_split_metadata(&m);
    assert_eq!(b.as_slice(), br#"{"path":"","start_offset":0,"chunk_size":0,"total_size":0}"#);
    let back = parse_split_metadata(&b).unwrap();
    assert_eq!(back.path.as_slice(), b"");
    assert_eq!(back.total_size, 0);
}

#[test]
fn parse_rejects_truncation() {
    let m = record(b"p", 1, 2, 3);
    let b = encode_split_metadata(&m);
    for cut in 0..b.len() {
        assert!(parse_split_metadata(&b[..cut]).is_none());
    }
}

#[test]
fn parse_rejects_trailing_bytes() {
    let m = record(b"p", 1, 2, 3);
    let mut b = encode_split_metadata(&m);
    b.push(b' ');
    assert!(parse_split_metadata(&b).is_none());
}

#[test]
fn parse_rejects_wrong_field_name() {
    let b = br#"{"path":"p","start_offsez":1,"chunk_size":2,"total_size":3}"#;
    assert!(parse_split_metadata(b).is_none());
}

#[test]
fn parse_rejects_leading_zeros() {
    let b = br#"{"path":"p","start_offset":01,"chunk_size":2,"total_size":3}"#;
    assert!(parse_split_metadata(b).is_none());
}

#[test]
fn parse_rejects_out_of_range_offset() {
    let b = br#"{"path":"p","start_offset":4294967296,"chunk_size":2,"total_size":3}"#;
    assert!(parse_split_metadata(b).is_none());
}

#[test]
fn parse_rejects_oversized_total() {
    let b = br#"{"path":"p","start_offset":1,"chunk_size":2,"total_size":18446744073709551616}"#;
    assert!(parse_split_metadata(b).is_none());
}

#[test]
fn parse_rejects_unescaped_control_byte() {
    let b = b"{\"path\":\"a\x01b\",\"start_offset\":1,\"chunk_size\":2,\"total_size\":3}";
    assert!(parse_split_metadata(b).is_none());
}

#[test]
fn decimal_parser_bounds() {
    assert_eq!(tar_split::num::parse_u64_dec(b"0"), Some(0));
    assert_eq!(tar_split::num::parse_u64_dec(b"007"), Some(7));
    assert_eq!(tar_split::num::parse_u64_dec(b"18446744073709551615"), Some(u64::MAX));
    assert_eq!(tar_split::num::parse_u64_dec(b"18446744073709551616"), None);
    assert_eq!(tar_split::num::parse_u64_dec(b""), None);
    assert_eq!(tar_split::num::parse_u64_dec(b"12a"), None);
    assert_eq!(tar_split::num::parse_u64_dec(b"-1"), None);
}
