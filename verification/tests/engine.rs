use rsa::pkcs1::EncodeRsaPrivateKey;
use password_vault::crypt::KeyPair;
use password_vault::database::{resolve_row, VaultDb};
use password_vault::errors::VaultError;
use password_vault::naming::gen_vault_table_name;

fn test_keypair() -> KeyPair {
    let private = rsa::RsaPrivateKey::new(&mut rand::rngs::OsRng, 512).unwrap();
    let pem = private.to_pkcs1_pem(rsa::pkcs8::LineEnding::LF).unwrap();
    KeyPair::new(&pem).unwrap()
}

fn pairs(data: &[(&str, &str)]) -> Vec<(String, String)> {
    data.iter().map(|(k, v)| (k.to_string(), v.to_string())).collect()
}

#[test]
fn created_table_has_canonical_columns() {
    let mut db = VaultDb::new();
    let id = db
        .create_vault_table("T", "Key", "Pass", &vec!["A".to_string(), "B".to_string()])
        .unwrap();
    let cols = db.fetch_column_index(&gen_vault_table_name(id));
    assert_eq!(cols.len(), 4);
    assert_eq!(cols[0].column_name, "key_");
    assert_eq!(cols[0].ui_name, "Key");
    assert!(cols[0].required && !cols[0].encrypted);
    assert_eq!(cols[1].column_name, "password");
    assert_eq!(cols[1].ui_name, "Pass");
    assert!(cols[1].required && cols[1].encrypted);
    assert_eq!(cols[2].column_name, "extra_0");
    assert_eq!(cols[2].ui_name, "A");
    assert!(!cols[2].required && !cols[2].encrypted);
    assert_eq!(cols[3].column_name, "extra_1");
    assert_eq!(cols[3].ui_name, "B");
    assert!(!cols[3].required && !cols[3].encrypted);
    assert_eq!(db.fetch_column_index_by_id(id).len(), 4);
}

#[test]
fn duplicate_label_is_a_storage_error() {
    let mut db = VaultDb::new();
    db.create_vault_table("T", "Key", "Pass", &vec![]).unwrap();
    assert_eq!(
        db.create_vault_table("T", "K2", "P2", &vec![]),
        Err(VaultError::StorageError)
    );
    assert_eq!(db.fetch_table_index().len(), 1);
}

#[test]
fn insert_then_fetch_then_decrypt_round_trip() {
    let kp = test_keypair();
    let mut db = VaultDb::new();
    let id = db.create_vault_table("T", "Key", "Pass", &vec![]).unwrap();
    db.insert_row(&kp, id, &pairs(&[("Key", "alice"), ("Pass", "s3cret")]))
        .unwrap();
    let mut table = db.fetch_table(id, &None).unwrap();
    assert_eq!(table.rows.len(), 1);
    assert_eq!(table.rows[0].cells[0].data, "alice");
    assert!(!table.rows[0].cells[0].encrypted);
    // The password cell still holds ciphertext after the fetch.
    assert!(table.rows[0].cells[1].encrypted);
    assert_ne!(table.rows[0].cells[1].data, "s3cret");
    table.decrypt(&kp);
    assert_eq!(table.rows[0].cells[1].data, "s3cret");
}

#[test]
fn insert_row_drops_unknown_labels_and_defaults_extras() {
    let kp = test_keypair();
    let mut db = VaultDb::new();
    let id = db
        .create_vault_table("T", "Key", "Pass", &vec!["Note".to_string()])
        .unwrap();
    db.insert_row(
        &kp,
        id,
        &pairs(&[("Key", "k"), ("Pass", "p"), ("Bogus", "dropped")]),
    )
    .unwrap();
    let mut table = db.fetch_table(id, &None).unwrap();
    table.decrypt(&kp);
    assert_eq!(table.rows[0].cells.len(), 3);
    assert_eq!(table.rows[0].cells[0].data, "k");
    assert_eq!(table.rows[0].cells[1].data, "p");
    // The unfed extra column holds the storage default.
    assert_eq!(table.rows[0].cells[2].data, "");
}

#[test]
fn insert_row_requires_required_columns() {
    let kp = test_keypair();
    let mut db = VaultDb::new();
    let id = db.create_vault_table("T", "Key", "Pass", &vec![]).unwrap();
    assert_eq!(
        db.insert_row(&kp, id, &pairs(&[("Key", "only the key")])),
        Err(VaultError::StorageError)
    );
    assert_eq!(
        db.insert_row(&kp, 99, &pairs(&[("Key", "k"), ("Pass", "p")])),
        Err(VaultError::NotFound)
    );
}

#[test]
fn insert_vault_data_is_keyed_by_column_name() {
    let mut db = VaultDb::new();
    let id = db.create_vault_table("T", "Key", "Pass", &vec![]).unwrap();
    let row_id = db
        .insert_vault_data(id, &pairs(&[("key_", "k"), ("password", "ciphertext")]))
        .unwrap();
    assert_eq!(row_id, 1);
    assert_eq!(
        db.insert_vault_data(id, &pairs(&[("nope", "x")])),
        Err(VaultError::StorageError)
    );
    assert_eq!(
        db.insert_vault_data(id, &pairs(&[("key_", "k")])),
        Err(VaultError::StorageError)
    );
}

#[test]
fn oversized_password_is_a_crypto_error() {
    // A 512-bit key takes at most 53 plaintext bytes under PKCS#1 v1.5.
    let kp = test_keypair();
    let mut db = VaultDb::new();
    let id = db.create_vault_table("T", "Key", "Pass", &vec![]).unwrap();
    let long = "x".repeat(200);
    assert_eq!(
        db.insert_row(&kp, id, &pairs(&[("Key", "k"), ("Pass", &long)])),
        Err(VaultError::CryptoError)
    );
    // Nothing was committed.
    assert_eq!(db.fetch_table(id, &None).unwrap().rows.len(), 0);
    // A fitting plaintext must succeed.
    db.insert_row(&kp, id, &pairs(&[("Key", "k"), ("Pass", "fits")]))
        .unwrap();
    assert_eq!(db.fetch_table(id, &None).unwrap().rows.len(), 1);
}

#[test]
fn resolve_row_builds_the_store_pairs() {
    let kp = test_keypair();
    let mut db = VaultDb::new();
    let id = db
        .create_vault_table("T", "Key", "Pass", &vec!["Note".to_string()])
        .unwrap();
    let columns = db.fetch_column_index_by_id(id);
    let resolved = resolve_row(
        &kp,
        &columns,
        &pairs(&[("Key", "alice"), ("Pass", "s3cret"), ("Bogus", "dropped")]),
    )
    .unwrap();
    // One pair per fed column, keyed by physical name; the unknown label
    // is gone and the unfed extra column contributes nothing.
    assert_eq!(resolved.len(), 2);
    assert_eq!(resolved[0].0, "key_");
    assert_eq!(resolved[0].1, "alice");
    assert_eq!(resolved[1].0, "password");
    assert_ne!(resolved[1].1, "s3cret");
    assert_eq!(kp.decrypt_string_from_hex(&resolved[1].1).unwrap(), "s3cret");
    // An oversized value for the encrypted column fails, exactly like the
    // insert itself.
    let long = "x".repeat(200);
    assert_eq!(
        resolve_row(&kp, &columns, &pairs(&[("Key", "k"), ("Pass", &long)])),
        Err(VaultError::CryptoError)
    );
}

#[test]
fn search_fetch_filters_rows_case_insensitively() {
    let kp = test_keypair();
    let mut db = VaultDb::new();
    let id = db.create_vault_table("T", "Key", "Pass", &vec![]).unwrap();
    for key in ["Alice", "alicia", "Bob"] {
        db.insert_row(&kp, id, &pairs(&[("Key", key), ("Pass", "p")]))
            .unwrap();
    }
    let found = db.fetch_table(id, &Some("ALIC".to_string())).unwrap();
    assert_eq!(found.rows.len(), 2);
    assert_eq!(found.rows[0].cells[0].data, "Alice");
    assert_eq!(found.rows[1].cells[0].data, "alicia");
    let none = db.fetch_table(id, &Some("zed".to_string())).unwrap();
    assert_eq!(none.rows.len(), 0);
}

#[test]
fn delete_row_removes_exactly_one_row() {
    let kp = test_keypair();
    let mut db = VaultDb::new();
    let id = db.create_vault_table("T", "Key", "Pass", &vec![]).unwrap();
    let r1 = db.insert_row(&kp, id, &pairs(&[("Key", "a"), ("Pass", "p")])).unwrap();
    let r2 = db.insert_row(&kp, id, &pairs(&[("Key", "b"), ("Pass", "p")])).unwrap();
    db.delete_vault_row(id, r1).unwrap();
    let table = db.fetch_table(id, &None).unwrap();
    assert_eq!(table.rows.len(), 1);
    assert_eq!(table.rows[0].id, r2);
    // Deleting an absent row is a no-op that succeeds.
    db.delete_vault_row(id, 999).unwrap();
    assert_eq!(db.fetch_table(id, &None).unwrap().rows.len(), 1);
    assert_eq!(db.delete_vault_row(77, r2), Err(VaultError::NotFound));
}

#[test]
fn deleted_table_is_gone_from_every_view() {
    let mut db = VaultDb::new();
    let id = db.create_vault_table("T", "Key", "Pass", &vec![]).unwrap();
    db.delete_vault_table(id).unwrap();
    assert!(db.fetch_table(id, &None).is_none());
    assert!(db.fetch_table_index_entry(id).is_none());
    assert_eq!(db.fetch_column_index(&gen_vault_table_name(id)).len(), 0);
    assert_eq!(db.delete_vault_table(id), Err(VaultError::NotFound));
}

#[test]
fn table_index_lists_every_table_in_creation_order() {
    let mut db = VaultDb::new();
    let a = db.create_vault_table("A", "K", "P", &vec![]).unwrap();
    let b = db.create_vault_table("B", "K", "P", &vec![]).unwrap();
    let index = db.fetch_table_index();
    assert_eq!(index.len(), 2);
    assert_eq!((index[0].id, index[0].ui_name.as_str()), (a, "A"));
    assert_eq!((index[1].id, index[1].ui_name.as_str()), (b, "B"));
    assert_eq!(db.fetch_table_index_entry(b).unwrap().ui_name, "B");
}
