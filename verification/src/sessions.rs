//! The session store: tokens mapped to their expiry instant and admin
//! flag.  Time is a plain tick count supplied by the caller, so that every
//! decision about a session is a function of the store and the clock
//! reading alone.

use vstd::prelude::*;
#[allow(unused_imports)]
use rand::Rng;

verus! {

/// The cookie under which the web layer keeps the session token.
pub const SESSION_TOKEN_COOKIE: &'static str = "_session_token";

/// What the store remembers about one session.
#[derive(Clone, Copy, Debug, PartialEq, Eq, Structural)]
pub struct SessionMetadata {
    /// The tick at which the session stops being valid.
    pub expires: u64,
    /// Whether the session carries admin rights.
    pub admin: bool,
}

impl SessionMetadata {
    /// A session that expires at the given tick.
    pub fn new(expires: u64, admin: bool) -> (r: Self)
        ensures
            r.expires == expires,
            r.admin == admin,
    {
        SessionMetadata { expires, admin }
    }
}

/// Whether a character may occur in a generated session token: an ASCII
/// letter or digit.
pub open spec fn spec_is_token_char(c: char) -> bool {
    ||| ('0' <= c && c <= '9')
    ||| ('a' <= c && c <= 'z')
    ||| ('A' <= c && c <= 'Z')
}

/// Relies on `rand::thread_rng` sampling the `Alphanumeric` distribution:
/// taking `len` draws yields exactly `len` characters, each an ASCII
/// letter or digit.  Which ones come out is up to the randomness.
#[verifier::external_body]
fn gen_random_token(len: usize) -> (r: String)
    ensures
        r@.len() == len,
        forall|i: int| 0 <= i < r@.len() ==> spec_is_token_char(#[trigger] r@[i]),
{
    rand::thread_rng().sample_iter(&rand::distributions::Alphanumeric).take(len).map(
        char::from,
    ).collect()
}

/// The metadata the first entry with the given token carries, if any.
pub open spec fn spec_sessions_get(
    s: Seq<(String, SessionMetadata)>,
    key: Seq<char>,
) -> Option<SessionMetadata>
    decreases s.len(),
{
    if s.len() == 0 {
        Option::None
    } else if s[0].0@ == key {
        Option::Some(s[0].1)
    } else {
        spec_sessions_get(s.drop_first(), key)
    }
}

/// The session store itself.
pub struct SessionManager {
    sessions: Vec<(String, SessionMetadata)>,
}

impl SessionManager {
    /// The metadata stored under a token, if any.
    pub closed spec fn spec_get(self, key: Seq<char>) -> Option<SessionMetadata> {
        spec_sessions_get(self.sessions@, key)
    }

    /// An empty store.
    pub fn new() -> (r: Self)
        ensures
            forall|k: Seq<char>| r.spec_get(k) is None,
    {
        SessionManager { sessions: Vec::new() }
    }

    /// Creates a session: a fresh random token of the requested length,
    /// valid for `validity_duration` ticks from `now`, stored and
    /// returned.  Whatever token the randomness yields, it maps to the new
    /// metadata afterwards and every other token keeps its entry.
    pub fn generate_session(
        &mut self,
        token_len: usize,
        validity_duration: u64,
        admin: bool,
        now: u64,
    ) -> (r: (String, SessionMetadata))
        requires
            now + validity_duration <= u64::MAX,
        ensures
            r.0@.len() == token_len,
            forall|i: int| 0 <= i < r.0@.len() ==> spec_is_token_char(#[trigger] r.0@[i]),
            r.1.expires == now + validity_duration,
            r.1.admin == admin,
            final(self).spec_get(r.0@) == Some(r.1),
            forall|k: Seq<char>| k != r.0@ ==> final(self).spec_get(k) == old(self).spec_get(k),
    {
        let token = gen_random_token(token_len);
        let meta = SessionMetadata::new(now + validity_duration, admin);
        let stored = token.clone();
        self.sessions.insert(0, (stored, meta));
        proof {
            assert(self.sessions@[0].0@ == token@);
            assert(self.sessions@[0].1 == meta);
            assert(self.sessions@.drop_first() =~= old(self).sessions@);
        }
        (token, meta)
    }

    /// The entry stored under a token: the token back, with its metadata.
    pub fn get_session(&self, key: &str) -> (r: Option<(String, SessionMetadata)>)
        ensures
            match r {
                Some(p) => p.0@ == key@ && self.spec_get(key@) == Some(p.1),
                None => self.spec_get(key@) is None,
            },
    {
        let owned = String::from_str(key);
        let mut i: usize = 0;
        proof {
            assert(self.sessions@.skip(0) =~= self.sessions@);
        }
        while i < self.sessions.len()
            invariant
                owned@ == key@,
                i <= self.sessions@.len(),
                spec_sessions_get(self.sessions@, key@) == spec_sessions_get(
                    self.sessions@.skip(i as int),
                    key@,
                ),
            decreases self.sessions@.len() - i,
        {
            let ghost s = self.sessions@.skip(i as int);
            proof {
                assert(s[0] == self.sessions@[i as int]);
                assert(s.drop_first() =~= self.sessions@.skip(i + 1 as int));
            }
            if self.sessions[i].0 == owned {
                let meta = self.sessions[i].1;
                return Some((String::from_str(key), meta));
            }
            i = i + 1;
        }
        proof {
            assert(self.sessions@.skip(self.sessions@.len() as int).len() == 0);
        }
        None
    }

    /// Whether the session under a token has admin rights; nothing when
    /// the token is unknown.
    pub fn is_admin_session(&self, key: &str) -> (r: Option<bool>)
        ensures
            r == match self.spec_get(key@) {
                Option::Some(m) => Option::Some(m.admin),
                Option::None => Option::<bool>::None,
            },
    {
        match self.get_session(key) {
            Some(p) => Some(p.1.admin),
            None => None,
        }
    }

    /// Whether the session under a token is still valid at tick `now`;
    /// nothing when the token is unknown.
    pub fn is_session_valid(&self, key: &str, now: u64) -> (r: Option<bool>)
        ensures
            r == match self.spec_get(key@) {
                Option::Some(m) => Option::Some(m.expires > now),
                Option::None => Option::<bool>::None,
            },
    {
        match self.get_session(key) {
            Some(p) => Some(p.1.expires > now),
            None => None,
        }
    }
}

/// What a token-authenticated request carries: the token, tagged with the
/// retrieval method.
pub struct TokenAuth<M> {
    token: String,
    method: core::marker::PhantomData<M>,
}

impl<M> TokenAuth<M> {
    /// The token's characters, for contracts.
    pub closed spec fn spec_token(&self) -> Seq<char> {
        self.token@
    }

    /// Wraps a retrieved token.
    pub fn new(token: String) -> (r: Self)
        ensures
            r.spec_token() == token@,
    {
        TokenAuth { token, method: core::marker::PhantomData }
    }

    /// The token itself.
    pub fn token(&self) -> (r: &str)
        ensures
            r@ == self.spec_token(),
    {
        self.token.as_str()
    }
}

/// Why token authentication failed.
#[derive(Clone, Copy, Debug, PartialEq, Eq, Structural)]
pub enum TokenAuthError {
    /// The request carried no token.
    NoTokenSpecified,
    /// The token is not in the session store.
    NoSuchToken,
    /// The token's session has expired.
    ExpiredToken,
    /// No session store is available.
    NoSessionManager,
}

impl TokenAuthError {
    /// The HTTP status the web layer answers with: a missing token is a
    /// bad request, an unknown or expired token is unauthorized, and a
    /// missing session store is the server's own fault.
    pub fn status_code(&self) -> (r: u16)
        ensures
            r == match self {
                TokenAuthError::NoTokenSpecified => 400u16,
                TokenAuthError::NoSuchToken => 401u16,
                TokenAuthError::ExpiredToken => 401u16,
                TokenAuthError::NoSessionManager => 500u16,
            },
    {
        match self {
            TokenAuthError::NoTokenSpecified => 400,
            TokenAuthError::NoSuchToken => 401,
            TokenAuthError::ExpiredToken => 401,
            TokenAuthError::NoSessionManager => 500,
        }
    }
}

/// Marker: the token travels in the session cookie.
pub struct WithCookie;

/// Marker: the token travels in the Authorization header.
pub struct WithHeader;

/// The authentication decision the request guard makes once the store has
/// been asked: a missing token, an unknown token and an expired session
/// each fail with their own error.
pub fn authenticate(manager: &SessionManager, token: Option<String>, now: u64) -> (r: Result<
    TokenAuth<WithCookie>,
    TokenAuthError,
>)
    ensures
        match r {
            Ok(auth) => {
                &&& token matches Some(t) && auth.spec_token() == t@
                &&& manager.spec_get(auth.spec_token()) matches Some(m) && m.expires > now
            },
            Err(e) => match e {
                TokenAuthError::NoTokenSpecified => token is None,
                TokenAuthError::NoSuchToken => token matches Some(t) && manager.spec_get(t@)
                    is None,
                TokenAuthError::ExpiredToken => token matches Some(t) && (manager.spec_get(t@)
                    matches Some(m) && m.expires <= now),
                TokenAuthError::NoSessionManager => false,
            },
        },
{
    match token {
        None => Err(TokenAuthError::NoTokenSpecified),
        Some(t) => match manager.is_session_valid(t.as_str(), now) {
            None => Err(TokenAuthError::NoSuchToken),
            Some(valid) => {
                if valid {
                    Ok(TokenAuth::new(t))
                } else {
                    Err(TokenAuthError::ExpiredToken)
                }
            },
        },
    }
}

} // verus!
