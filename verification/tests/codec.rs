use rsa::pkcs1::EncodeRsaPrivateKey;
use password_vault::crypt::{DecryptionError, KeyPair};
use password_vault::data::{TableCell, TableRow, VaultTable};
use password_vault::hexcode::{hex_decode, hex_encode};

fn test_keypair() -> KeyPair {
    let private = rsa::RsaPrivateKey::new(&mut rand::rngs::OsRng, 512).unwrap();
    let pem = private.to_pkcs1_pem(rsa::pkcs8::LineEnding::LF).unwrap();
    KeyPair::new(&pem).unwrap()
}

#[test]
fn hex_round_trip() {
    let bytes: Vec<u8> = vec![0, 1, 0xab, 0xff, 16];
    let h = hex_encode(&bytes);
    assert_eq!(h, "0001abff10");
    assert_eq!(hex_decode(&h), Some(bytes));
}

#[test]
fn hex_decode_rejects_garbage() {
    assert_eq!(hex_decode("zz"), None);
    assert_eq!(hex_decode("abc"), None);
    assert_eq!(hex_decode("ABCD"), Some(vec![0xab, 0xcd]));
    assert_eq!(hex_decode(""), Some(vec![]));
}

#[test]
fn encrypt_then_decrypt_restores_plaintext() {
    let kp = test_keypair();
    let ct = kp.encrypt_string_to_hex("s3cret").unwrap();
    assert_ne!(ct, "s3cret");
    assert!(ct.bytes().all(|b| b.is_ascii_hexdigit()));
    assert_eq!(kp.decrypt_string_from_hex(&ct).unwrap(), "s3cret");
}

#[test]
fn ciphertexts_differ_but_decryptions_agree() {
    let kp = test_keypair();
    let c1 = kp.encrypt_string_to_hex("same value").unwrap();
    let c2 = kp.encrypt_string_to_hex("same value").unwrap();
    // Randomized padding: the ciphertext bytes may differ...
    assert_ne!(c1, c2);
    // ...but both decrypt to the same plaintext.
    assert_eq!(kp.decrypt_string_from_hex(&c1).unwrap(), "same value");
    assert_eq!(kp.decrypt_string_from_hex(&c2).unwrap(), "same value");
}

#[test]
fn ciphertext_is_one_modulus_of_hex_digits() {
    // A 512-bit modulus is 64 bytes, so the hex ciphertext is 128 digits.
    let kp = test_keypair();
    let ct = kp.encrypt_string_to_hex("x").unwrap();
    assert_eq!(ct.len(), 128);
    let boundary = "y".repeat(53);
    assert!(kp.encrypt_string_to_hex(&boundary).is_ok());
    let over = "y".repeat(54);
    assert!(kp.encrypt_string_to_hex(&over).is_err());
}

#[test]
fn encrypt_rejects_oversized_plaintext() {
    let kp = test_keypair();
    // A 512-bit key with PKCS#1 v1.5 padding takes at most 53 bytes.
    let long = "x".repeat(200);
    assert!(kp.encrypt_string_to_hex(&long).is_err());
}

#[test]
fn decrypt_reports_each_failing_step() {
    let kp = test_keypair();
    assert_eq!(
        kp.decrypt_string_from_hex("not hex at all"),
        Err(DecryptionError::ParseHex)
    );
    // Valid hex, but not a ciphertext of this key.
    assert_eq!(
        kp.decrypt_string_from_hex("deadbeef"),
        Err(DecryptionError::Rsa)
    );
}

#[test]
fn decrypt_table_leaves_garbage_cells_untouched() {
    let kp = test_keypair();
    let good = kp.encrypt_string_to_hex("hidden").unwrap();
    let mut table = VaultTable {
        id: 1,
        name: "T".to_string(),
        columns: vec![],
        rows: vec![TableRow {
            id: 1,
            cells: vec![
                TableCell { data: "plain".to_string(), encrypted: false },
                TableCell { data: "!!not-hex!!".to_string(), encrypted: true },
                TableCell { data: good, encrypted: true },
            ],
        }],
    };
    table.decrypt(&kp);
    assert_eq!(table.rows[0].cells[0].data, "plain");
    // The bad cell keeps its ciphertext; no error escapes the pass.
    assert_eq!(table.rows[0].cells[1].data, "!!not-hex!!");
    assert_eq!(table.rows[0].cells[2].data, "hidden");
    assert!(table.rows[0].cells[1].encrypted);
}
