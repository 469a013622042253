use password_vault::config::{
    default_name, default_private_key, default_public_key, default_static_dir,
    default_token_length, default_token_validity, VaultConfig,
};
use password_vault::sessions::{
    authenticate, SessionManager, SessionMetadata, TokenAuth, TokenAuthError, WithCookie,
    SESSION_TOKEN_COOKIE,
};
use password_vault::sql;

#[test]
fn session_lifecycle() {
    let mut manager = SessionManager::new();
    let now = 1000u64;
    let (token, meta) = manager.generate_session(32, 600, true, now);
    assert_eq!(token.len(), 32);
    assert!(token.chars().all(|c| c.is_ascii_alphanumeric()));
    assert_eq!(meta.expires, 1600);
    assert!(meta.admin);
    let (stored_token, stored_meta) = manager.get_session(&token).unwrap();
    assert_eq!(stored_token, token);
    assert_eq!(stored_meta, meta);
    assert_eq!(manager.is_admin_session(&token), Some(true));
    assert_eq!(manager.is_session_valid(&token, 1599), Some(true));
    assert_eq!(manager.is_session_valid(&token, 1600), Some(false));
    assert_eq!(manager.is_session_valid("unknown", 0), None);
    assert_eq!(manager.is_admin_session("unknown"), None);
}

#[test]
fn session_metadata_fields() {
    let meta = SessionMetadata::new(5, false);
    assert_eq!(meta.expires, 5);
    assert!(!meta.admin);
}

#[test]
fn authenticate_decides_from_store_and_clock() {
    let mut manager = SessionManager::new();
    let (token, _) = manager.generate_session(16, 100, false, 0);
    let auth = authenticate(&manager, Some(token.clone()), 50).unwrap();
    assert_eq!(auth.token(), token);
    let failure = |r: Result<_, TokenAuthError>| match r {
        Ok(_) => panic!("expected an authentication failure"),
        Err(e) => e,
    };
    assert_eq!(
        failure(authenticate(&manager, None, 50)),
        TokenAuthError::NoTokenSpecified
    );
    assert_eq!(
        failure(authenticate(&manager, Some("missing".to_string()), 50)),
        TokenAuthError::NoSuchToken
    );
    assert_eq!(
        failure(authenticate(&manager, Some(token), 100)),
        TokenAuthError::ExpiredToken
    );
}

#[test]
fn token_auth_carries_its_token() {
    let auth: TokenAuth<WithCookie> = TokenAuth::new("abc".to_string());
    assert_eq!(auth.token(), "abc");
    assert_eq!(SESSION_TOKEN_COOKIE, "_session_token");
}

#[test]
fn config_defaults() {
    assert_eq!(default_name(), "Password Vault");
    assert_eq!(default_static_dir(), "public/static");
    assert_eq!(default_token_length(), 32);
    assert_eq!(default_token_validity(), 86400);
    assert_eq!(default_public_key(), "keys/rsapubkey.pem");
    assert_eq!(default_private_key(), "keys/rsakey.pem");
    let config = VaultConfig::with_db_url("mysql://localhost/vault".to_string());
    assert_eq!(config.db_url, "mysql://localhost/vault");
    assert_eq!(config.name, "Password Vault");
    assert_eq!(config.token_length, 32);
}

#[test]
fn generated_sql_statements() {
    assert_eq!(
        sql::create_vault_table_sql(3, 2),
        "CREATE TABLE vault_3 (id int UNSIGNED PRIMARY KEY AUTO_INCREMENT, \
         key_ varchar(256) NOT NULL, password text NOT NULL, extra_0 text, extra_1 text)"
    );
    assert_eq!(
        sql::create_vault_table_sql(1, 0),
        "CREATE TABLE vault_1 (id int UNSIGNED PRIMARY KEY AUTO_INCREMENT, \
         key_ varchar(256) NOT NULL, password text NOT NULL)"
    );
    let cols = vec!["key_".to_string(), "password".to_string(), "extra_0".to_string()];
    assert_eq!(
        sql::insert_vault_data_sql(7, &cols),
        "INSERT INTO vault_7 (key_, password, extra_0) VALUES (?, ?, ?)"
    );
    assert_eq!(
        sql::fetch_table_sql(2, false),
        "SELECT * FROM vault_2"
    );
    assert_eq!(
        sql::fetch_table_sql(2, true),
        "SELECT DISTINCT * FROM vault_2 WHERE LOWER(key_) LIKE LOWER(?) ESCAPE '!'"
    );
    assert_eq!(sql::delete_vault_row_sql(4), "DELETE FROM vault_4 WHERE id = ?");
    assert_eq!(sql::drop_vault_table_sql(4), "DROP TABLE vault_4");
    assert_eq!(
        sql::insert_table_index_entry_sql(),
        "INSERT INTO table_index (ui_name) VALUES (?)"
    );
    assert_eq!(
        sql::fetch_column_index_sql(),
        "SELECT * FROM column_index WHERE table_name = ?"
    );
    assert!(sql::create_table_index_sql().starts_with("CREATE TABLE IF NOT EXISTS table_index"));
    assert!(sql::create_column_index_sql().starts_with("CREATE TABLE IF NOT EXISTS column_index"));
    assert!(sql::fetch_table_index_sql().starts_with("SELECT * FROM table_index"));
    assert_eq!(
        sql::fetch_table_index_entry_sql(),
        "SELECT * FROM table_index WHERE id = ?"
    );
    assert_eq!(
        sql::delete_column_index_sql(),
        "DELETE FROM column_index WHERE table_name = ?"
    );
    assert_eq!(
        sql::delete_table_index_entry_sql(),
        "DELETE FROM table_index WHERE id = ?"
    );
    assert_eq!(
        sql::insert_column_index_entry_sql(),
        "INSERT INTO column_index (table_name, column_name, ui_name, required, encrypted) VALUES (?, ?, ?, ?, ?)"
    );
}
