use tellme::store::blobs::{hash_hex, BlobStore};

#[test]
fn write_is_content_addressed_and_idempotent() {
    let h1 = hash_hex("add free shipping over $50");
    let h2 = hash_hex("add free shipping over $50");
    assert_eq!(h1, h2);
    assert_eq!(h1.len(), 64);
}

#[test]
fn distinct_content_distinct_hash() {
    assert_ne!(hash_hex("a"), hash_hex("b"));
}

#[test]
fn known_digest() {
    assert_eq!(
        hash_hex(""),
        "e3b0c44298fc1c149afbf4c8996fb92427ae41e4649b934ca495991b7852b855"
    );
    assert_eq!(
        hash_hex("abc"),
        "ba7816bf8f01cfea414140de5dae2223b00361a396177a9cb410ff61f20015ad"
    );
}

#[test]
fn blob_path_is_under_the_dir() {
    let b = BlobStore::at("/r/.tellme/blobs".to_string());
    assert_eq!(b.path_of("abcd"), "/r/.tellme/blobs/abcd");
}
