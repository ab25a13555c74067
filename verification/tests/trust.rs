use shadowenv::trust::{
    ensure_dir_tree_trusted, fingerprint, gitignore_addition, is_dir_trusted,
    load_or_generate_signer, run, trust_dir, trust_file, write_gitignore, InvalidKeyLength,
    NoShadowenv, NotTrusted, TrustProbe,
};

#[test]
fn test_load_or_generate_signer() {
    let (signer, is_new) = load_or_generate_signer(&None).unwrap();
    assert_eq!(signer.len(), 32);
    assert!(is_new);
    let (other, _) = load_or_generate_signer(&None).unwrap();
    assert_ne!(signer, other);
}

#[test]
fn stored_key_is_its_first_32_bytes() {
    let stored: Vec<u8> = (0u8..64).collect();
    let (key, is_new) = load_or_generate_signer(&Some(stored.clone())).unwrap();
    assert_eq!(key.to_vec(), stored[..32].to_vec());
    assert!(!is_new);
    let (key, _) = load_or_generate_signer(&Some(stored[..32].to_vec())).unwrap();
    assert_eq!(key.to_vec(), stored[..32].to_vec());
    assert_eq!(load_or_generate_signer(&Some(stored[..31].to_vec())), Err(InvalidKeyLength));
    assert_eq!(load_or_generate_signer(&Some(vec![])), Err(InvalidKeyLength));
}

#[test]
fn test_is_dir_trusted() {
    let (signer, _) = load_or_generate_signer(&None).unwrap();
    let path = "/tmp/some/.shadowenv.d";
    assert!(!is_dir_trusted(&signer, path, &None));

    let token = trust_dir(&signer, path);
    assert!(is_dir_trusted(&signer, path, &Some(token.signature.clone())));
    // another directory, another key, a damaged token
    assert!(!is_dir_trusted(&signer, "/tmp/other/.shadowenv.d", &Some(token.signature.clone())));
    let (stranger, _) = load_or_generate_signer(&None).unwrap();
    assert!(!is_dir_trusted(&stranger, path, &Some(token.signature.clone())));
    let mut damaged = token.signature.clone();
    damaged[0] ^= 1;
    assert!(!is_dir_trusted(&signer, path, &Some(damaged)));
    assert!(!is_dir_trusted(&signer, path, &Some(token.signature[..63].to_vec())));
    assert!(!is_dir_trusted(&signer, path, &Some(vec![])));
}

#[test]
fn test_run_no_shadowenv() {
    let (signer, _) = load_or_generate_signer(&None).unwrap();
    let result = run(&signer, &vec![]);
    assert!(result.is_err());
    assert_eq!(result.unwrap_err(), NoShadowenv);
    assert_eq!(NoShadowenv.to_string(), "no shadowenv found");
}

#[test]
fn run_trusts_the_nearest_directory() {
    let signer = [3u8; 32];
    let roots = vec!["/a/b/.shadowenv.d".to_string(), "/a/.shadowenv.d".to_string()];
    let token = run(&signer, &roots).unwrap();
    assert_eq!(token, trust_dir(&signer, "/a/b/.shadowenv.d"));
    assert!(is_dir_trusted(&signer, "/a/b/.shadowenv.d", &Some(token.signature)));
}

#[test]
fn test_write_gitignore() {
    assert_eq!(write_gitignore(""), Some("/.*\n!/.gitignore\n"));
    assert_eq!(write_gitignore("target\n"), Some("/.*\n!/.gitignore\n"));
    for ignored in ["*", "/*", ".*", "/.*"] {
        assert_eq!(write_gitignore(ignored), None);
        assert_eq!(write_gitignore(&format!("target\n{}\nother\n", ignored)), None);
    }
    assert_eq!(write_gitignore("/.*\n!/.gitignore\n"), None);
    assert_eq!(write_gitignore("a*\n"), Some("/.*\n!/.gitignore\n"));
    assert_eq!(gitignore_addition(None), Some("/.*\n!/.gitignore\n"));
    assert_eq!(gitignore_addition(Some(false)), Some("/.*\n!/.gitignore\n"));
    assert_eq!(gitignore_addition(Some(true)), None);
}

#[test]
fn test_ensure_dir_tree_trusted() {
    let (signer, _) = load_or_generate_signer(&None).unwrap();
    let result = ensure_dir_tree_trusted(
        &signer,
        &vec![TrustProbe { root: "/tmp/x".to_string(), token: None }],
    );
    assert!(result.is_err());
}

#[test]
fn every_untrusted_directory_is_named() {
    let signer = [9u8; 32];
    let good = trust_dir(&signer, "/a/.shadowenv.d").signature;
    let probes = vec![
        TrustProbe { root: "/a/b/c/.shadowenv.d".to_string(), token: None },
        TrustProbe { root: "/a/.shadowenv.d".to_string(), token: Some(good.clone()) },
        TrustProbe { root: "/a/b/.shadowenv.d".to_string(), token: Some(good) },
    ];
    let err = ensure_dir_tree_trusted(&signer, &probes).unwrap_err();
    assert_eq!(
        err,
        NotTrusted {
            untrusted_directories: vec![
                "/a/b/c/.shadowenv.d".to_string(),
                "/a/b/.shadowenv.d".to_string()
            ]
        }
    );
    assert_eq!(
        err.to_string(),
        "The following directories contain untrusted shadowenv programs (see `shadowenv help trust` to learn more):\n/a/b/c/.shadowenv.d\n/a/b/.shadowenv.d"
    );
    assert_eq!(ensure_dir_tree_trusted(&signer, &vec![]), Ok(()));
}

#[test]
fn test_trust_dir() {
    let (signer, _) = load_or_generate_signer(&None).unwrap();
    let token = trust_dir(&signer, "/tmp/x");
    assert_eq!(token.signature.len(), 64);
    assert_eq!(token.path, format!("/tmp/x/.trust-{}", fingerprint(&signer)));
}

#[test]
fn token_is_an_ed25519_signature_over_the_path() {
    use_dalek();
}

fn use_dalek() {
    let secret = [5u8; 32];
    let key = ed25519_dalek::SigningKey::from_bytes(&secret);
    let token = trust_dir(&secret, "/w/.shadowenv.d");
    let mut bytes = [0u8; 64];
    bytes.copy_from_slice(&token.signature);
    let signature = ed25519_dalek::Signature::from_bytes(&bytes);
    assert!(key.verifying_key().verify_strict(b"/w/.shadowenv.d", &signature).is_ok());
    assert_eq!(fingerprint(&secret), hex::encode(&key.verifying_key().as_bytes()[0..4]));
    assert_eq!(fingerprint(&secret).len(), 8);
    let public = key.verifying_key().to_bytes();
    assert_eq!(
        fingerprint(&secret),
        format!("{:02x}{:02x}{:02x}{:02x}", public[0], public[1], public[2], public[3])
    );
    assert_eq!(
        trust_file("/w/.shadowenv.d", "0a1b2c3d".to_string()),
        "/w/.shadowenv.d/.trust-0a1b2c3d"
    );
}
