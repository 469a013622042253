use rsa::pkcs1::EncodeRsaPrivateKey;
use password_vault::crypt::KeyPair;
use password_vault::csvio::{encode_records, import_csv, import_csv_bytes, parse_csv};
use password_vault::database::VaultDb;
use password_vault::errors::VaultError;
use password_vault::strutil::{chars_to_string, str_to_chars};

fn test_keypair() -> KeyPair {
    let private = rsa::RsaPrivateKey::new(&mut rand::rngs::OsRng, 512).unwrap();
    let pem = private.to_pkcs1_pem(rsa::pkcs8::LineEnding::LF).unwrap();
    KeyPair::new(&pem).unwrap()
}

fn pairs(data: &[(&str, &str)]) -> Vec<(String, String)> {
    data.iter().map(|(k, v)| (k.to_string(), v.to_string())).collect()
}

fn records(data: &[&[&str]]) -> Vec<Vec<String>> {
    data.iter().map(|r| r.iter().map(|f| f.to_string()).collect()).collect()
}

#[test]
fn csv_writer_quotes_only_when_needed() {
    let text = chars_to_string(&encode_records(&records(&[
        &["plain", "with,comma"],
        &["with\"quote", "with\nnewline"],
    ])));
    assert_eq!(
        text,
        "plain,\"with,comma\"\n\"with\"\"quote\",\"with\nnewline\"\n"
    );
}

#[test]
fn csv_parser_reads_quoted_fields() {
    let (recs, err) = parse_csv(&str_to_chars(
        "a,b\n\"x,y\",\"he said \"\"hi\"\"\"\r\nlast,row",
    ));
    assert!(!err);
    assert_eq!(
        recs,
        records(&[&["a", "b"], &["x,y", "he said \"hi\""], &["last", "row"]])
    );
}

#[test]
fn csv_parser_reports_ragged_quoting() {
    // A closed quote followed by junk before the next comma is malformed.
    let (recs, err) = parse_csv(&str_to_chars("ok,fine\n\"bad\"junk,x\n"));
    assert!(err);
    assert_eq!(recs, records(&[&["ok", "fine"]]));
    // An unterminated quote is malformed too.
    let (recs2, err2) = parse_csv(&str_to_chars("\"never closed"));
    assert!(err2);
    assert_eq!(recs2.len(), 0);
}

#[test]
fn csv_codec_round_trips() {
    let original = records(&[
        &["Key", "Pass", "Note"],
        &["a,b", "he said \"hi\"", "line\nbreak"],
        &["", "plain", "x"],
    ]);
    let text = encode_records(&original);
    let (back, err) = parse_csv(&text);
    assert!(!err);
    assert_eq!(back, original);
}

#[test]
fn export_then_import_reproduces_plaintext() {
    let kp = test_keypair();
    let mut db = VaultDb::new();
    let first = db
        .create_vault_table("One", "Key", "Pass", &vec!["Note".to_string()])
        .unwrap();
    db.insert_row(
        &kp,
        first,
        &pairs(&[("Key", "alice"), ("Pass", "s3cret"), ("Note", "a,comma")]),
    )
    .unwrap();
    db.insert_row(
        &kp,
        first,
        &pairs(&[("Key", "bob"), ("Pass", "pw\"2"), ("Note", "")]),
    )
    .unwrap();
    let mut exported = db.fetch_table(first, &None).unwrap();
    exported.decrypt(&kp);
    let text = exported.export_csv();
    assert!(text.starts_with("Key,Pass,Note\n"));

    // A fresh table with the identical shape; the caller strips the header.
    let second = db
        .create_vault_table("Two", "Key", "Pass", &vec!["Note".to_string()])
        .unwrap();
    let body = text.splitn(2, '\n').nth(1).unwrap();
    import_csv(&mut db, &kp, second, body).unwrap();

    let mut imported = db.fetch_table(second, &None).unwrap();
    // Ciphertext bytes may differ from the first table's...
    assert!(imported.rows[0].cells[1].encrypted);
    imported.decrypt(&kp);
    // ...but the decrypted values are stable.
    let values = |t: &password_vault::data::VaultTable| -> Vec<Vec<String>> {
        t.rows
            .iter()
            .map(|r| r.cells.iter().map(|c| c.data.clone()).collect())
            .collect()
    };
    assert_eq!(values(&imported), values(&exported));
}

#[test]
fn import_stops_at_short_record_keeping_earlier_rows() {
    let kp = test_keypair();
    let mut db = VaultDb::new();
    let id = db.create_vault_table("T", "Key", "Pass", &vec![]).unwrap();
    let r = import_csv(&mut db, &kp, id, "a,pw1\nb,pw2\nonly-one-field\nc,pw4\n");
    assert_eq!(r, Err(VaultError::ColumnMismatch));
    let mut table = db.fetch_table(id, &None).unwrap();
    table.decrypt(&kp);
    // Records one and two are committed; record three onward is not.
    assert_eq!(table.rows.len(), 2);
    assert_eq!(table.rows[0].cells[0].data, "a");
    assert_eq!(table.rows[0].cells[1].data, "pw1");
    assert_eq!(table.rows[1].cells[0].data, "b");
    assert_eq!(table.rows[1].cells[1].data, "pw2");
}

#[test]
fn import_stops_at_oversized_password_keeping_earlier_rows() {
    let kp = test_keypair();
    let mut db = VaultDb::new();
    let id = db.create_vault_table("T", "Key", "Pass", &vec![]).unwrap();
    let long = "x".repeat(200);
    let text = format!("a,pw1\nb,{}\nc,pw3\n", long);
    assert_eq!(import_csv(&mut db, &kp, id, &text), Err(VaultError::CryptoError));
    // The first record is committed; the failing one and everything after
    // is not.
    let mut table = db.fetch_table(id, &None).unwrap();
    table.decrypt(&kp);
    assert_eq!(table.rows.len(), 1);
    assert_eq!(table.rows[0].cells[0].data, "a");
    assert_eq!(table.rows[0].cells[1].data, "pw1");
}

#[test]
fn import_reports_malformed_text_after_good_records() {
    let kp = test_keypair();
    let mut db = VaultDb::new();
    let id = db.create_vault_table("T", "Key", "Pass", &vec![]).unwrap();
    let r = import_csv(&mut db, &kp, id, "a,pw1\n\"broken,row\n");
    assert_eq!(r, Err(VaultError::ValidationError));
    assert_eq!(db.fetch_table(id, &None).unwrap().rows.len(), 1);
}

#[test]
fn import_into_unknown_table_is_not_found() {
    let kp = test_keypair();
    let mut db = VaultDb::new();
    assert_eq!(
        import_csv(&mut db, &kp, 5, "a,b\n"),
        Err(VaultError::NotFound)
    );
}

#[test]
fn import_rejects_invalid_utf8() {
    let kp = test_keypair();
    let mut db = VaultDb::new();
    let id = db.create_vault_table("T", "Key", "Pass", &vec![]).unwrap();
    let bad = vec![b'a', b',', 0xff, 0xfe, b'\n'];
    assert_eq!(
        import_csv_bytes(&mut db, &kp, id, &bad),
        Err(VaultError::ValidationError)
    );
    assert_eq!(db.fetch_table(id, &None).unwrap().rows.len(), 0);
    let good = b"k,p\n".to_vec();
    import_csv_bytes(&mut db, &kp, id, &good).unwrap();
    assert_eq!(db.fetch_table(id, &None).unwrap().rows.len(), 1);
}

#[test]
fn our_csv_matches_the_csv_crate() {
    // Differential check against the csv crate on quoting-heavy records.
    let data = records(&[
        &["plain", "with,comma", "with\"quote"],
        &["multi\nline", "", "tail"],
    ]);
    let ours = chars_to_string(&encode_records(&data));
    let mut w = csv::WriterBuilder::new()
        .has_headers(false)
        .from_writer(vec![]);
    for r in &data {
        w.write_record(r).unwrap();
    }
    let theirs = String::from_utf8(w.into_inner().unwrap()).unwrap();
    assert_eq!(ours, theirs);

    let mut rd = csv::ReaderBuilder::new()
        .has_headers(false)
        .from_reader(ours.as_bytes());
    let mut theirs_back: Vec<Vec<String>> = Vec::new();
    for rec in rd.records() {
        let rec = rec.unwrap();
        theirs_back.push(rec.iter().map(|f| f.to_string()).collect());
    }
    assert_eq!(theirs_back, data);
}
