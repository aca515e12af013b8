//! Key derivation and the selection of the packet cipher.
use kcptun_std::crypt::{
    crypt_key, crypt_methods, derive_pass, select_block_crypt, SelectedCrypt, PBKDF2_ITER, SALT,
};

/// Builds a cipher, or fails as the ciphers do on a key of the wrong size.
fn build(method: &str, key: &[u8]) -> Result<Option<&'static str>, String> {
    let n = key.len();
    match method {
        "null" => Ok(None),
        "tea" if n != 16 => Err("tea: incorrect key size".to_string()),
        "xtea" if n != 16 => Err(format!("crypto/xtea: invalid key size {n}")),
        "cast5" if n != 16 => Err("CAST5: keys must be 16 bytes".to_string()),
        "sm4" if n != 16 => Err(format!("SM4: invalid key size {n}")),
        "3des" if n != 24 => Err(format!("crypto/des: invalid key size {n}")),
        "twofish" if ![16, 24, 32].contains(&n) => {
            Err(format!("crypto/twofish: invalid key size {n}"))
        }
        "aes" | "aes-128" | "aes-192" | "aes-128-gcm" if ![16, 24, 32].contains(&n) => {
            Err(format!("crypto/aes: invalid key size {n}"))
        }
        _ => Ok(Some("a cipher")),
    }
}

/// Selects a cipher, building what is asked for.
fn select(method: &str, pass: &[u8]) -> SelectedCrypt<&'static str> {
    let (known, key) = crypt_key(method, pass);
    let built = build(known.unwrap_or("aes"), key);
    let fallback = match (&built, known) {
        (Err(_), Some(_)) => build("aes", pass).unwrap_or(None),
        _ => None,
    };
    select_block_crypt(method, built, fallback)
}

#[test]
fn select_odd_pass_lengths_match_go() {
    let cases: &[(usize, &str, &str, bool, Option<&str>)] = &[
        (
            5,
            "3des",
            "aes",
            true,
            Some(
                "crypt: failed to create 3des cipher: crypto/des: invalid key size 5, falling back to aes",
            ),
        ),
        (
            5,
            "bogus",
            "aes",
            true,
            Some("crypt: failed to create default aes cipher: crypto/aes: invalid key size 5"),
        ),
        (
            5,
            "tea",
            "aes",
            true,
            Some(
                "crypt: failed to create tea cipher: tea: incorrect key size, falling back to aes",
            ),
        ),
        (
            5,
            "cast5",
            "aes",
            true,
            Some(
                "crypt: failed to create cast5 cipher: CAST5: keys must be 16 bytes, falling back to aes",
            ),
        ),
        (
            5,
            "sm4",
            "aes",
            true,
            Some(
                "crypt: failed to create sm4 cipher: SM4: invalid key size 5, falling back to aes",
            ),
        ),
        (
            5,
            "aes-128",
            "aes",
            true,
            Some(
                "crypt: failed to create aes-128 cipher: crypto/aes: invalid key size 5, falling back to aes",
            ),
        ),
        (
            5,
            "aes-192",
            "aes",
            true,
            Some(
                "crypt: failed to create aes-192 cipher: crypto/aes: invalid key size 5, falling back to aes",
            ),
        ),
        (
            5,
            "xtea",
            "aes",
            true,
            Some(
                "crypt: failed to create xtea cipher: crypto/xtea: invalid key size 5, falling back to aes",
            ),
        ),
        (5, "blowfish", "blowfish", false, None),
        (
            5,
            "twofish",
            "aes",
            true,
            Some(
                "crypt: failed to create twofish cipher: crypto/twofish: invalid key size 5, falling back to aes",
            ),
        ),
        (5, "salsa20", "salsa20", false, None),
        (5, "xor", "xor", false, None),
        (5, "null", "null", true, None),
        (
            5,
            "aes-128-gcm",
            "aes",
            true,
            Some(
                "crypt: failed to create aes-128-gcm cipher: crypto/aes: invalid key size 5, falling back to aes",
            ),
        ),
        (
            20,
            "3des",
            "aes",
            true,
            Some(
                "crypt: failed to create 3des cipher: crypto/des: invalid key size 20, falling back to aes",
            ),
        ),
        (
            20,
            "bogus",
            "aes",
            true,
            Some("crypt: failed to create default aes cipher: crypto/aes: invalid key size 20"),
        ),
        (20, "tea", "tea", false, None),
        (20, "cast5", "cast5", false, None),
        (20, "sm4", "sm4", false, None),
        (20, "aes-128", "aes-128", false, None),
        (
            20,
            "aes-192",
            "aes",
            true,
            Some(
                "crypt: failed to create aes-192 cipher: crypto/aes: invalid key size 20, falling back to aes",
            ),
        ),
        (20, "xtea", "xtea", false, None),
        (20, "blowfish", "blowfish", false, None),
        (
            20,
            "twofish",
            "aes",
            true,
            Some(
                "crypt: failed to create twofish cipher: crypto/twofish: invalid key size 20, falling back to aes",
            ),
        ),
        (20, "salsa20", "salsa20", false, None),
        (20, "xor", "xor", false, None),
        (20, "null", "null", true, None),
        (20, "aes-128-gcm", "aes-128-gcm", false, None),
        (24, "aes-128-gcm", "aes-128-gcm", false, None),
    ];
    for &(n, method, effective, is_nil, warning) in cases {
        let pass: Vec<u8> = (1..=n as u8).collect();
        let sel = select(method, &pass);
        assert_eq!(sel.method, effective, "{method} n={n}");
        assert_eq!(sel.block.is_none(), is_nil, "{method} n={n}");
        assert_eq!(sel.warning.as_deref(), warning, "{method} n={n}");
    }
}

/// The names and key sizes of the methods.
#[test]
fn crypt_methods_table_matches_go() {
    let want = [
        ("null", 0),
        ("sm4", 16),
        ("tea", 16),
        ("xor", 0),
        ("none", 0),
        ("aes-128", 16),
        ("aes-192", 24),
        ("blowfish", 0),
        ("twofish", 0),
        ("cast5", 16),
        ("3des", 24),
        ("xtea", 16),
        ("salsa20", 0),
        ("aes-128-gcm", 16),
    ];
    let got: Vec<_> = crypt_methods().iter().map(|m| (m.name, m.key_size)).collect();
    assert_eq!(got, want);
    // "aes" itself is not in the table: it is the unknown-name default.
    assert!(crypt_methods().iter().all(|m| m.name != "aes"));
}

/// Names are matched exactly: no case folding or trimming.
#[test]
fn select_is_case_sensitive() {
    let pass = derive_pass("it's a secrect");
    for name in ["AES-128", "Salsa20", " xor", "null ", "NONE"] {
        let sel = select(name, &pass);
        assert_eq!(sel.method, "aes", "{name:?}");
        assert!(sel.warning.is_none());
        assert!(sel.block.is_some());
    }
}

#[test]
fn derive_pass_default_key() {
    // The default `-key` value (sic).
    assert_eq!(
        derive_pass("it's a secrect"),
        [
            0x25, 0xd7, 0xd7, 0xbd, 0x51, 0x05, 0x07, 0x42, 0xd8, 0xd7, 0x91, 0xf2, 0xb6, 0x53,
            0xc6, 0xc8, 0xb2, 0x36, 0x6b, 0x7e, 0x25, 0xa1, 0x24, 0xcf, 0x7a, 0x2e, 0x12, 0xea,
            0xf4, 0xff, 0xa4, 0x44,
        ]
    );
}

/// A method is given as much of the pass as it takes.
#[test]
fn a_method_is_given_its_part_of_the_pass() {
    let pass: Vec<u8> = (0..32).collect();
    assert_eq!(crypt_key("aes-128", &pass), (Some("aes-128"), &pass[..16]));
    assert_eq!(crypt_key("3des", &pass), (Some("3des"), &pass[..24]));
    assert_eq!(crypt_key("salsa20", &pass), (Some("salsa20"), &pass[..]));
    assert_eq!(crypt_key("aes", &pass), (None, &pass[..]));
    assert_eq!(crypt_key("", &pass), (None, &pass[..]));
    assert_eq!(crypt_key("aes-192", &pass[..20]), (Some("aes-192"), &pass[..20]));
}

/// A fallback that can be built is used, under its own name.
#[test]
fn a_cipher_that_cannot_be_built_falls_back() {
    let sel = select_block_crypt("xtea", Err("no".to_string()), Some("aes cipher"));
    assert_eq!(sel.block, Some("aes cipher"));
    assert_eq!(sel.method, "aes");
    assert_eq!(
        sel.warning.as_deref(),
        Some("crypt: failed to create xtea cipher: no, falling back to aes")
    );
    let sel = select_block_crypt("null", Ok(None::<()>), None);
    assert_eq!((sel.block, sel.method, sel.warning), (None, "null", None));
}

#[test]
fn the_derivation_depends_on_the_key() {
    assert_eq!((SALT, PBKDF2_ITER), ("kcp-go", 4096));
    assert_ne!(derive_pass("a"), derive_pass("b"));
    assert_eq!(derive_pass("é"), derive_pass("é"));
}
