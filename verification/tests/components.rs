use aurion::cacheindex::CacheIndex;
use aurion::cachekey::{cache_key, invocation_encoding};
use aurion::cas::{Cas, CasError};
use aurion::keys::{is_valid_key, key_of};

fn v(s: &str) -> Vec<u8> {
    s.as_bytes().to_vec()
}

#[test]
fn cas_put_get_round_trip() {
    let mut cas = Cas::new();
    let data = v("raw tool output bytes");
    let key = cas.put(&data);
    assert_eq!(cas.get(&key), Ok(data.clone()));
    let empty: Vec<u8> = Vec::new();
    let key2 = cas.put(&empty);
    assert_eq!(cas.get(&key2), Ok(empty));
}

#[test]
fn cas_get_unknown_is_not_found() {
    let cas = Cas::new();
    let key = vec![0x30u8; 64];
    assert_eq!(cas.get(&key), Err(CasError::NotFound));
    assert!(!cas.has(&key));
}

#[test]
fn cas_put_idempotent_no_growth() {
    let mut cas = Cas::new();
    let data = v("same bytes");
    let k1 = cas.put(&data);
    assert_eq!(cas.num_blobs(), 1);
    let k2 = cas.put(&data);
    assert_eq!(k1, k2);
    assert_eq!(cas.num_blobs(), 1);
    let other = v("other bytes");
    cas.put(&other);
    assert_eq!(cas.num_blobs(), 2);
}

#[test]
fn content_keys_are_valid_hex() {
    let key = key_of(&v("anything"));
    assert_eq!(key.len(), 64);
    assert!(is_valid_key(&key));
    assert!(!is_valid_key(&v("not a key")));
    let mut bad = key.clone();
    bad[0] = b'G';
    assert!(!is_valid_key(&bad));
}

#[test]
fn content_keys_differ_for_different_bytes() {
    assert_ne!(key_of(&v("a")), key_of(&v("b")));
    assert_ne!(key_of(&v("")), key_of(&v("a")));
}

#[test]
fn cache_key_deterministic() {
    let opts = vec![v("-sV"), v("-p80")];
    let k1 = cache_key(&v("nmap"), &v("7.95"), &v("10.0.0.1"), 80, &opts);
    let k2 = cache_key(&v("nmap"), &v("7.95"), &v("10.0.0.1"), 80, &opts);
    assert_eq!(k1, k2);
    assert!(is_valid_key(&k1));
}

#[test]
fn cache_key_differs_when_params_differ() {
    let opts = vec![v("-sV")];
    let base = cache_key(&v("nmap"), &v("7.95"), &v("10.0.0.1"), 80, &opts);
    assert_ne!(base, cache_key(&v("nmap"), &v("7.95"), &v("10.0.0.1"), 81, &opts));
    assert_ne!(base, cache_key(&v("nmap"), &v("7.96"), &v("10.0.0.1"), 80, &opts));
    assert_ne!(base, cache_key(&v("zmap"), &v("7.95"), &v("10.0.0.1"), 80, &opts));
    assert_ne!(base, cache_key(&v("nmap"), &v("7.95"), &v("10.0.0.2"), 80, &opts));
    let more = vec![v("-sV"), v("-O")];
    assert_ne!(base, cache_key(&v("nmap"), &v("7.95"), &v("10.0.0.1"), 80, &more));
}

#[test]
fn invocation_encoding_unambiguous_across_field_moves() {
    // The same bytes split differently between fields must not collide.
    let a = invocation_encoding(&v("ab"), &v("c"), &v("t"), 1, &vec![]);
    let b = invocation_encoding(&v("a"), &v("bc"), &v("t"), 1, &vec![]);
    assert_ne!(a, b);
    let c = invocation_encoding(&v("x"), &v(""), &v("t"), 1, &vec![v("yz")]);
    let d = invocation_encoding(&v("x"), &v(""), &v("t"), 1, &vec![v("y"), v("z")]);
    assert_ne!(c, d);
}

#[test]
fn cache_index_lookup_and_record() {
    let mut idx = CacheIndex::new();
    let k = vec![0x61u8; 64];
    assert_eq!(idx.lookup(&k), None);
    idx.record(&k, 7);
    assert_eq!(idx.lookup(&k), Some(7));
    // First writer wins: a later record under the same key changes nothing.
    idx.record(&k, 9);
    assert_eq!(idx.lookup(&k), Some(7));
}
