use tar_split::digest::Sha256Stream;
use tar_split::hex::hex_lower;

#[test]
fn hex_encoding_is_lowercase_two_digits_per_byte() {
    assert_eq!(hex_lower(&[]).as_slice(), b"");
    assert_eq!(hex_lower(&[0x00, 0x0f, 0xa5, 0xff]).as_slice(), b"000fa5ff");
}

#[test]
fn sha256_of_known_input() {
    let mut s = Sha256Stream::new();
    s.update(b"abc");
    assert_eq!(
        s.hex_digest().as_slice(),
        b"ba7816bf8f01cfea414140de5dae2223b00361a396177a9cb410ff61f20015ad".as_slice()
    );
}

#[test]
fn sha256_accumulates_across_updates() {
    // The sink hashes the whole stream, however it was sliced into writes.
    let mut a = Sha256Stream::new();
    a.update(b"hello ");
    a.update(b"world");
    let mut b = Sha256Stream::new();
    b.update(b"hello world");
    assert_eq!(a.hex_digest(), b.hex_digest());
    assert_eq!(
        a.hex_digest().as_slice(),
        b"b94d27b9934d3e08a52e52d7da7dabfac484efe37a5380ee9088f7ace2efcde9".as_slice()
    );
}

#[test]
fn sha256_of_empty_stream() {
    let s = Sha256Stream::new();
    assert_eq!(
        s.hex_digest().as_slice(),
        b"e3b0c44298fc1c149afbf4c8996fb92427ae41e4649b934ca495991b7852b855".as_slice()
    );
}

#[test]
fn digest_differs_when_stream_differs() {
    let mut a = Sha256Stream::new();
    a.update(b"archive one");
    let mut b = Sha256Stream::new();
    b.update(b"archive two");
    assert_ne!(a.hex_digest(), b.hex_digest());
}
