use ank_kernel::citadel::{generate_public_tenant_id, sanitize_error, CitadelError};
use ank_kernel::server::{hash_password, password_matches};

#[test]
fn test_tenant_id_obfuscation() {
    let root_key = b"Aegis_Master_Secret";
    let tenant_id = "tenant-42";

    let hash1 = generate_public_tenant_id(tenant_id, root_key).expect("Should generate hash");
    let hash2 = generate_public_tenant_id(tenant_id, root_key).expect("Should be deterministic");

    assert_eq!(hash1, hash2);
    assert!(!hash1.contains(tenant_id));
    assert!(!hash1.is_empty());
}

#[test]
fn test_grpc_error_leakage() {
    let private = "tenant-leak-007";
    let public = "REDACTED-HASH-XYZ";
    let msg = format!("Critical error: database /data/{}/main.db is locked", private);

    let sanitized = sanitize_error(&msg, private, public);

    assert!(!sanitized.contains(private));
    assert!(sanitized.contains(public));
}

#[test]
fn public_tenant_id_is_url_safe_base64_of_the_hmac() {
    let id = generate_public_tenant_id("tenant-42", b"Aegis_Master_Secret").unwrap();
    assert_eq!(id, "otAHKDOGoVvJWXe1TfomrNyDmbjToPmbWisy3QrbBMA");
    assert_eq!(id.len(), 43);
}

#[test]
fn public_tenant_id_depends_on_the_key() {
    let a = generate_public_tenant_id("tenant-42", b"key-a").unwrap();
    let b = generate_public_tenant_id("tenant-42", b"key-b").unwrap();
    assert_ne!(a, b);
}

#[test]
fn sanitize_replaces_every_occurrence() {
    assert_eq!(sanitize_error("t1 and t1", "t1", "P"), "P and P");
    assert_eq!(sanitize_error("nothing here", "t1", "P"), "nothing here");
    assert_eq!(sanitize_error("ab", "", "-"), "-a-b-");
}

#[test]
fn redaction_of_overlapping_text_is_left_to_right() {
    // `str::replace` scans from the left without overlap: the private id can
    // reappear where the replacement meets what follows.
    assert_eq!(sanitize_error("aab", "ab", "b"), "ab");
}

#[test]
fn password_hash_is_lowercase_hex_sha256() {
    assert_eq!(
        hash_password("haxor"),
        "368daac18feedae1d56dedc1035ef6ec00082340df1da41f0e1ef7d32e40414c"
    );
    assert_eq!(
        hash_password(""),
        "e3b0c44298fc1c149afbf4c8996fb92427ae41e4649b934ca495991b7852b855"
    );
}

#[test]
fn stored_hash_accepts_its_passphrase_only() {
    let stored = hash_password("haxor");
    assert!(password_matches(&stored, "haxor"));
    assert!(!password_matches(&stored, "Haxor"));
    assert!(!password_matches("not-a-hash", "haxor"));
}

#[test]
fn redaction_leaves_no_private_id_when_ids_do_not_overlap_at_their_starts() {
    let private = "tenant-leak-007";
    let public = "REDACTED-HASH-XYZ";
    let messages = [
        "tenant-leak-007tenant-leak-007",
        "ttenant-leak-007enant-leak-007",
        "prefix tenant-leak-00tenant-leak-0077 suffix",
        "no id here",
        "",
    ];
    for m in messages.iter() {
        let out = sanitize_error(m, private, public);
        assert!(!out.contains(private), "{:?}", out);
    }
}

#[test]
fn public_ids_use_the_url_safe_alphabet() {
    for (tenant, key) in [("tenant-42", "k1"), ("ñandú", "k2"), ("", "k3"), ("a/b+c", "k4")].iter() {
        let id = generate_public_tenant_id(tenant, key.as_bytes()).unwrap();
        assert_eq!(id.len(), 43);
        assert!(id.chars().all(|c| c.is_ascii_alphanumeric() || c == '-' || c == '_'), "{}", id);
    }
}

#[test]
fn citadel_error_messages() {
    assert_eq!(CitadelError::MissingRootKey.message(), "Missing AEGIS_ROOT_KEY environment variable");
    assert_eq!(CitadelError::CryptoError("x".to_string()).message(), "Cryptographic error: x");
}
