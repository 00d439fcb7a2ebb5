use wpipe::descriptor::DataFormat;
use wpipe::fsrepo::DirectoryRepo;
use wpipe::repo::RepoError;
use wpipe::sys;

const ECHO_SIDECAR: &str = "{\"human_name\":\"Echo\",\"description\":\"d\",\"category\":\"c\",\"inputs\":{\"in\":{\"name\":\"in\",\"data_format\":\"Tick\"}},\"outputs\":{\"out\":{\"name\":\"out\",\"data_format\":\"Tick\"}}}";

#[test]
fn fingerprint_is_the_sha256_hex_of_the_bytes() {
    let bytes: Vec<u8> = b"hello".to_vec();
    let fp = sys::sha256_hex_of(&bytes);
    assert_eq!(fp, "2cf24dba5fb0a30e26e83b2ac5b9e29e1b161e5c1fa7425e73043362938b9824");
    let again = sys::sha256_hex_of(&bytes);
    assert_eq!(fp, again);
}

#[test]
fn lookup_is_idempotent_for_unchanged_bytes() {
    let mut repo = DirectoryRepo::new("/nonexistent".to_string());
    let bytes: Vec<u8> = ECHO_SIDECAR.as_bytes().to_vec();
    let id = "echo_tick".to_string();
    let (d1, fp1) = repo.lookup_bytes(&id, &bytes).expect("first lookup parses");
    let (d2, fp2) = repo.lookup_bytes(&id, &bytes).expect("second lookup hits the cache");
    assert_eq!(fp1, fp2);
    assert_eq!(d1.human_name, d2.human_name);
    assert_eq!(d1.description, d2.description);
    assert_eq!(d1.category, d2.category);
    assert_eq!(d1.inputs.len(), d2.inputs.len());
    assert_eq!(d1.outputs.len(), d2.outputs.len());
    assert_eq!(fp1, sys::sha256_hex_of(&bytes));
}

#[test]
fn lookup_sees_changed_bytes() {
    let mut repo = DirectoryRepo::new("/nonexistent".to_string());
    let id = "echo_tick".to_string();
    let b1: Vec<u8> = ECHO_SIDECAR.as_bytes().to_vec();
    let changed = ECHO_SIDECAR.replace("\"human_name\":\"Echo\"", "\"human_name\":\"Echo2\"");
    let b2: Vec<u8> = changed.as_bytes().to_vec();
    let (d1, fp1) = repo.lookup_bytes(&id, &b1).expect("first lookup parses");
    assert_eq!(d1.human_name, "Echo");
    let (d2, fp2) = repo.lookup_bytes(&id, &b2).expect("changed bytes parse");
    assert_ne!(fp1, fp2, "a changed sidecar carries a new fingerprint");
    assert_eq!(d2.human_name, "Echo2", "the descriptor reflects the new bytes");
    // And the refreshed slot now serves the new content.
    let (d3, fp3) = repo.lookup_bytes(&id, &b2).expect("cache hit on the new bytes");
    assert_eq!(fp3, fp2);
    assert_eq!(d3.human_name, "Echo2");
}

#[test]
fn malformed_bytes_are_a_typed_error_and_do_not_poison_the_cache() {
    let mut repo = DirectoryRepo::new("/nonexistent".to_string());
    let id = "p".to_string();
    let bad: Vec<u8> = b"{\"not\":\"a descriptor\"}".to_vec();
    assert!(matches!(repo.lookup_bytes(&id, &bad), Err(RepoError::MalformedDescriptor)));
    let good: Vec<u8> = ECHO_SIDECAR.as_bytes().to_vec();
    let (d, _) = repo.lookup_bytes(&id, &good).expect("good bytes still parse");
    assert_eq!(d.human_name, "Echo");
}

#[test]
fn invalid_utf8_is_malformed() {
    let mut repo = DirectoryRepo::new("/nonexistent".to_string());
    let id = "p".to_string();
    let bad: Vec<u8> = vec![0xff, 0xfe, 0x00, 0x80];
    assert!(matches!(repo.lookup_bytes(&id, &bad), Err(RepoError::MalformedDescriptor)));
}

#[test]
fn utf8_wrapper_matches_validity() {
    assert_eq!(sys::utf8_to_string(&b"abc".to_vec()), Some("abc".to_string()));
    assert!(sys::utf8_to_string(&vec![0xff, 0xff]).is_none());
}

#[test]
fn schema_text_survives_the_cache() {
    let mut repo = DirectoryRepo::new("/nonexistent".to_string());
    let id = "j".to_string();
    let text = "{\"human_name\":\"J\",\"description\":\"d\",\"category\":\"c\",\"inputs\":{\"x\":{\"name\":\"x\",\"data_format\":{\"Json\":{\"type\":\"object\"}}}},\"outputs\":{}}";
    let bytes: Vec<u8> = text.as_bytes().to_vec();
    let (d1, _) = repo.lookup_bytes(&id, &bytes).expect("parses");
    let (d2, _) = repo.lookup_bytes(&id, &bytes).expect("cache hit");
    for d in [&d1, &d2] {
        assert!(matches!(d.inputs[0].1.data_format,
            DataFormat::Json(ref s) if s == "{\"type\":\"object\"}"));
    }
}
