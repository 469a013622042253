//! The process configuration and the defaults its optional entries fall
//! back to.

use vstd::prelude::*;

verus! {

/// Everything the process is configured with; entries other than the
/// store's URL fall back to the defaults below.
#[derive(Debug)]
pub struct VaultConfig {
    /// The instance's display name.
    pub name: String,
    /// The URL of the relational store.
    pub db_url: String,
    /// Where the static web assets live.
    pub static_dir: String,
    /// The length of a generated session token.
    pub token_length: u32,
    /// For how many seconds a session stays valid.
    pub token_validity_duration_secs: u64,
    /// The path of the public key file.
    pub public_key_path: String,
    /// The path of the private key file.
    pub private_key_path: String,
}

/// The default display name.
pub fn default_name() -> (r: String)
    ensures
        r@ == "Password Vault"@,
{
    String::from_str("Password Vault")
}

/// The default static-assets directory.
pub fn default_static_dir() -> (r: String)
    ensures
        r@ == "public/static"@,
{
    String::from_str("public/static")
}

/// The default session-token length.
pub fn default_token_length() -> (r: u32)
    ensures
        r == 32,
{
    32
}

/// The default session validity, in seconds.
pub fn default_token_validity() -> (r: u64)
    ensures
        r == 86400,
{
    86400
}

/// The default public-key path.
pub fn default_public_key() -> (r: String)
    ensures
        r@ == "keys/rsapubkey.pem"@,
{
    String::from_str("keys/rsapubkey.pem")
}

/// The default private-key path.
pub fn default_private_key() -> (r: String)
    ensures
        r@ == "keys/rsakey.pem"@,
{
    String::from_str("keys/rsakey.pem")
}

impl VaultConfig {
    /// A configuration with the given store URL and every default.
    pub fn with_db_url(db_url: String) -> (r: Self)
        ensures
            r.db_url@ == db_url@,
            r.name@ == "Password Vault"@,
            r.static_dir@ == "public/static"@,
            r.token_length == 32,
            r.token_validity_duration_secs == 86400,
            r.public_key_path@ == "keys/rsapubkey.pem"@,
            r.private_key_path@ == "keys/rsakey.pem"@,
    {
        VaultConfig {
            name: default_name(),
            db_url,
            static_dir: default_static_dir(),
            token_length: default_token_length(),
            token_validity_duration_secs: default_token_validity(),
            public_key_path: default_public_key(),
            private_key_path: default_private_key(),
        }
    }
}

} // verus!
