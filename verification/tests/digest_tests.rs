use file_info::digest::{md5_hex, md5_hex_of_chunks, Digester};
use file_info::hex::hex_lower;

#[test]
fn hex_renders_bytes_as_lowercase_pairs() {
    assert_eq!(hex_lower(&vec![]), "");
    assert_eq!(hex_lower(&vec![0x00u8, 0xff, 0x1a, 0x09]), "00ff1a09");
    assert_eq!(hex_lower(&vec![0xabu8, 0xcd, 0xef]), "abcdef");
}

#[test]
fn md5_of_empty_input_is_the_defined_value() {
    assert_eq!(md5_hex(b""), "d41d8cd98f00b204e9800998ecf8427e");
}

#[test]
fn md5_of_hello_matches_known_value() {
    assert_eq!(md5_hex(b"hello"), "5d41402abc4b2a76b9719d911017c592");
}

#[test]
fn digest_is_deterministic_across_runs() {
    let first = md5_hex(b"some file content\n");
    let second = md5_hex(b"some file content\n");
    assert_eq!(first, second);
}

#[test]
fn chunked_feeding_matches_whole_input() {
    let whole = md5_hex(b"hello world");
    let mut d = Digester::new();
    d.update(b"hel");
    d.update(b"lo ");
    d.update(b"world");
    assert_eq!(d.finalize_hex(), whole);
}

#[test]
fn chunk_vector_matches_whole_input() {
    let whole = md5_hex(b"abcdef");
    let chunks: Vec<Vec<u8>> = vec![b"ab".to_vec(), b"".to_vec(), b"cdef".to_vec()];
    assert_eq!(md5_hex_of_chunks(&chunks), whole);
}

#[test]
fn empty_digester_matches_empty_digest() {
    let d = Digester::new();
    assert_eq!(d.finalize_hex(), "d41d8cd98f00b204e9800998ecf8427e");
}
