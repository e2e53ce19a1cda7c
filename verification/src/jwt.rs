use vstd::prelude::*;
use vstd::string::*;

use crate::errors::KubeCTFError;

verus! {

/// How long an issued token stays valid, in hours.
pub const JWT_EXPIRY_HOURS: i64 = 24;

/// The caller's role: a regular user, or an administrator who may see
/// hidden challenges.
#[derive(Clone, Copy, Debug, PartialEq, Eq, Structural)]
pub enum UserRole {
    User,
    Admin,
}

/// The authenticated caller identity carried by a token: user, role, and
/// the issue/expiry timestamps in seconds.
#[derive(Clone, Copy, Debug, PartialEq, Eq, Structural)]
pub struct Claims {
    pub user_id: i32,
    pub role: UserRole,
    pub iat: i64,
    pub exp: i64,
}

impl Claims {
    /// Fresh claims issued at `now`, expiring one token lifetime later.
    pub fn new(user_id: i32, role: UserRole, now: i64) -> (r: Claims)
        requires
            now + JWT_EXPIRY_HOURS * 3600 <= i64::MAX,
        ensures
            r.user_id == user_id,
            r.role == role,
            r.iat == now,
            r.exp == now + JWT_EXPIRY_HOURS * 3600,
    {
        Claims { user_id, role, iat: now, exp: now + JWT_EXPIRY_HOURS * 3600 }
    }
}

/// The authorization header as the transport layer hands it over: absent,
/// present but not decodable as text, or its text.
pub enum AuthHeader {
    Missing,
    Undecodable,
    Value(String),
}

/// The bearer token inside an authorization header value: the characters
/// between the first space and the next space or the end. A value without
/// any space has no token.
pub open spec fn spec_bearer_token(s: Seq<char>) -> Option<Seq<char>> {
    match s.index_of_first(' ') {
        Option::None => Option::None,
        Option::Some(i) => {
            let rest = s.skip(i + 1);
            match rest.index_of_first(' ') {
                Option::None => Option::Some(rest),
                Option::Some(j) => Option::Some(rest.take(j)),
            }
        },
    }
}

fn find_space(s: &str, from: usize) -> (r: Option<usize>)
    requires
        from <= s@.len(),
    ensures
        (match r {
            Some(i) => {
                &&& from <= i < s@.len()
                &&& s@[i as int] == ' '
                &&& forall|j: int| from <= j < i ==> s@[j] != ' '
            },
            None => forall|j: int| from <= j < s@.len() ==> s@[j] != ' ',
        }),
{
    let len = s.unicode_len();
    let mut i: usize = from;
    while i < len
        invariant
            from <= i <= s@.len(),
            len == s@.len(),
            forall|j: int| from <= j < i ==> s@[j] != ' ',
        decreases s@.len() - i,
    {
        if s.get_char(i) == ' ' {
            return Some(i);
        }
        i = i + 1;
    }
    None
}

/// Extracts the bearer token out of an authorization header value, or
/// reports the malformed format.
pub fn bearer_token(value: &str) -> (r: core::result::Result<String, KubeCTFError>)
    ensures
        (match spec_bearer_token(value@) {
            Option::Some(t) => r matches Ok(s) && s@ == t,
            Option::None => r matches Err(e) && e is ShitHappened && e.spec_message()
                == "Wrong authorization Bearer format"@,
        }),
{
    proof {
        value@.index_of_first_ensures(' ');
    }
    let first = find_space(value, 0);
    match first {
        None => {
            assert(!value@.contains(' ')) by {
                if value@.contains(' ') {
                    let k = choose|k: int| 0 <= k < value@.len() && value@[k] == ' ';
                }
            }
            Err(KubeCTFError::ShitHappened(String::from_str("Wrong authorization Bearer format")))
        },
        Some(i) => {
            assert(value@.contains(' '));
            assert(value@.index_of_first(' ') == Some(i as int)) by {
                match value@.index_of_first(' ') {
                    Option::Some(k) => {
                        if k < i {
                            assert(value@[k] != ' ');
                        }
                        if k > i {
                        }
                    },
                    Option::None => {},
                }
            }
            let ghost rest = value@.skip(i + 1);
            proof {
                rest.index_of_first_ensures(' ');
            }
            let len = value.unicode_len();
            let second = find_space(value, i + 1);
            let end = match second {
                Some(j) => j,
                None => len,
            };
            proof {
                match second {
                    Some(j) => {
                        assert(rest.index_of_first(' ') == Some(j - i - 1)) by {
                            assert(rest[j - i - 1] == ' ');
                            match rest.index_of_first(' ') {
                                Option::Some(k) => {
                                    if k < j - i - 1 {
                                        assert(value@[k + i + 1] == rest[k]);
                                    }
                                    if k > j - i - 1 {
                                    }
                                },
                                Option::None => {
                                    assert(rest.contains(' ')) by {
                                        assert(rest[j - i - 1] == ' ');
                                    }
                                },
                            }
                        }
                    },
                    None => {
                        assert(rest.index_of_first(' ') is None) by {
                            match rest.index_of_first(' ') {
                                Option::Some(k) => {
                                    assert(value@[k + i + 1] == rest[k]);
                                },
                                Option::None => {},
                            }
                        }
                    },
                }
            }
            let token = value.substring_char(i + 1, end);
            assert(token@ =~= (match spec_bearer_token(value@) {
                Option::Some(t) => t,
                Option::None => Seq::<char>::empty(),
            }));
            Ok(String::from_str(token))
        },
    }
}

/// Pulls the bearer token out of the request's authorization header: a
/// missing header is forbidden, an undecodable or space-less value is a
/// format error, otherwise the token is handed back for signature
/// validation.
pub fn claims_token_from_header(header: &AuthHeader) -> (r: core::result::Result<String, KubeCTFError>)
    ensures
        (match header {
            AuthHeader::Missing => r matches Err(e) && e is Forbidden && e.spec_message()
                == "No authorization token was found"@,
            AuthHeader::Undecodable => r matches Err(e) && e is ShitHappened && e.spec_message()
                == "Wrong authorization Bearer format"@,
            AuthHeader::Value(s) => (match spec_bearer_token(s@) {
                Option::Some(t) => r matches Ok(tok) && tok@ == t,
                Option::None => r matches Err(e) && e is ShitHappened && e.spec_message()
                    == "Wrong authorization Bearer format"@,
            }),
        }),
{
    match header {
        AuthHeader::Missing => Err(
            KubeCTFError::Forbidden(String::from_str("No authorization token was found")),
        ),
        AuthHeader::Undecodable => Err(
            KubeCTFError::ShitHappened(String::from_str("Wrong authorization Bearer format")),
        ),
        AuthHeader::Value(s) => bearer_token(s.as_str()),
    }
}

/// Relies on fastrand::u8: a random byte; nothing is promised of it.
#[verifier::external_body]
fn random_u8() -> u8 {
    fastrand::u8(..)
}

/// A buffer of random bytes of the asked-for length.
pub fn generate_bytes(number: usize) -> (r: Vec<u8>)
    ensures
        r@.len() == number,
{
    let mut out: Vec<u8> = Vec::new();
    let mut i: usize = 0;
    while i < number
        invariant
            0 <= i <= number,
            out@.len() == i,
        decreases number - i,
    {
        out.push(random_u8());
        i = i + 1;
    }
    out
}

/// The encoded hash that the password-hashing scheme produces for a
/// password and a salt, under the fixed original configuration.
pub uninterp spec fn argon2_hash_of(password: Seq<u8>, salt: Seq<u8>) -> Seq<char>;

/// Whether an encoded hash matches a password.
pub uninterp spec fn argon2_verifies(hash: Seq<char>, password: Seq<u8>) -> bool;

/// Relies on argon2::hash_encoded with argon2::Config::original: the
/// encoded hash is a function of the password and the salt alone, and the
/// call succeeds whenever the salt has at least its minimum length and
/// both inputs are within the scheme's (32-bit) size bounds.
#[verifier::external_body]
fn argon2_hash_encoded(password: &[u8], salt: &Vec<u8>) -> (r: core::result::Result<String, KubeCTFError>)
    requires
        password@.len() <= 0xFFFF_FFFF,
        8 <= salt@.len() <= 0xFFFF_FFFF,
    ensures
        r is Ok,
        r matches Ok(h) ==> h@ == argon2_hash_of(password@, salt@),
{
    let config = argon2::Config::original();
    argon2::hash_encoded(password, salt.as_slice(), &config)
        .map_err(|e| KubeCTFError::HashingError(e.to_string()))
}

/// Relies on argon2::verify_encoded: whether the password matches the
/// encoded hash depends on the two alone; a hash that does not decode as
/// an encoded hash is an error.
#[verifier::external_body]
fn argon2_verify_encoded(hash: &str, password: &[u8]) -> (r: core::result::Result<bool, KubeCTFError>)
    ensures
        (r matches Ok(b) ==> b == argon2_verifies(hash@, password@)),
        (r matches Err(e) ==> e is HashingError),
{
    argon2::verify_encoded(hash, password).map_err(|e| KubeCTFError::HashingError(e.to_string()))
}

/// The password-hashing facade backed by the scheme's original
/// configuration.
pub struct Argon;

impl Argon {
    /// Hashes a password under a fresh random 16-byte salt.
    pub fn hash_password(password: &[u8]) -> (r: core::result::Result<String, KubeCTFError>)
        requires
            password@.len() <= 0xFFFF_FFFF,
        ensures
            r matches Ok(h) && (exists|salt: Seq<u8>| salt.len() == 16 && h@ == argon2_hash_of(password@, salt)),
    {
        let salt = generate_bytes(16);
        let r = argon2_hash_encoded(password, &salt);
        proof {
            if r is Ok {
                assert(salt@.len() == 16 && (r matches Ok(h) && h@ == argon2_hash_of(password@, salt@)));
            }
        }
        r
    }

    /// Checks a password against an encoded hash.
    pub fn verify(password: &[u8], hash: &str) -> (r: core::result::Result<bool, KubeCTFError>)
        ensures
            (r matches Ok(b) ==> b == argon2_verifies(hash@, password@)),
            (r matches Err(e) ==> e is HashingError),
    {
        argon2_verify_encoded(hash, password)
    }
}

} // verus!
