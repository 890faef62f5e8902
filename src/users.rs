//! The account store: password hashes and per-account settings, keyed by account name.
use vstd::prelude::*;
use crate::keys::{name_key, seg};
use crate::store::{
    decode_all, decode_strings, decoded, entries, io_error, is_utf8, keys_desc, scan_keys_desc,
    string_views, lemma_decoded_of_encoding, lemma_encoding_injective, opt_bytes, stored_at, text_of, text_outcome, tree_contains, tree_get, tree_insert, utf8_string, StoreError,
};

verus! {

/// Bytes of salt drawn for each new account.
pub const SALT_LEN: usize = 32;

/// The encoded hash that Argon2 with its default configuration gives for a password and a salt.
pub uninterp spec fn argon2_encoded(password: Seq<u8>, salt: Seq<u8>) -> Seq<char>;

/// Whether Argon2 verification accepts a password against an encoded hash.
pub uninterp spec fn argon2_accepts(hash: Seq<char>, password: Seq<u8>) -> bool;

/// Relies on getrandom::getrandom: `n` bytes from the system's random source,
/// or none when the source fails.
#[verifier::external_body]
fn random_bytes(n: usize) -> (r: Option<Vec<u8>>)
    ensures
        r matches Some(b) ==> b@.len() == n,
{
    let mut b = vec![0u8; n];
    getrandom::getrandom(&mut b).ok().map(|_| b)
}

/// Relies on argon2::hash_encoded with the default configuration: the encoded
/// hash of the password with the salt, which argon2::verify_encoded accepts
/// for that same password; none when hashing fails.
#[verifier::external_body]
fn hash_password(password: &[u8], salt: &[u8]) -> (r: Option<String>)
    ensures
        r matches Some(h) ==> h@ == argon2_encoded(password@, salt@),
        r matches Some(h) ==> argon2_accepts(h@, password@),
{
    argon2::hash_encoded(password, salt, &argon2::Config::default()).ok()
}

/// Relies on argon2::verify_encoded: whether it accepts the password against the hash.
#[verifier::external_body]
fn check_password(hash: &str, password: &[u8]) -> (r: bool)
    ensures
        r == argon2_accepts(hash@, password@),
{
    argon2::verify_encoded(hash, password).unwrap_or(false)
}

/// Handles to the maps of the account store, each keyed by the account name.
/// Each field must be a tree of its own, and no other handle or thread may
/// write to it while these handles are in use: the contracts describe the
/// trees as this value alone changes them.
pub struct UserTree {
    pub username_password: sled::Tree,
    pub username_standard_gear: sled::Tree,
    pub username_heartrate_rest: sled::Tree,
    pub username_heartrate_max: sled::Tree,
}

/// `new` is `old` with account `u` holding the hash of `pw` with a fresh salt,
/// a hash that verification accepts for `pw`.
pub open spec fn created(old: Map<Seq<u8>, Seq<u8>>, new: Map<Seq<u8>, Seq<u8>>, u: Seq<char>, pw: Seq<char>) -> bool {
    &&& exists|salt: Seq<u8>|
        salt.len() == SALT_LEN && new == old.insert(seg(u), seg(#[trigger] argon2_encoded(seg(pw), salt)))
    &&& argon2_accepts(decoded(new[seg(u)]), seg(pw))
}

/// What checking `pw` against what is stored for an account gives: `NotFound`
/// for nothing stored, `Corrupt` for bytes that are not UTF-8, `true` when
/// Argon2 accepts the password, and `IncorrectPassword` otherwise.
pub open spec fn verify_outcome(stored: Option<Seq<u8>>, pw: Seq<u8>) -> Result<bool, StoreError> {
    match stored {
        None => Err(StoreError::NotFound),
        Some(b) => if !is_utf8(b) {
            Err(StoreError::Corrupt)
        } else if argon2_accepts(decoded(b), pw) {
            Ok(true)
        } else {
            Err(StoreError::IncorrectPassword)
        },
    }
}

/// What `verify_hash` owes for a stored-hash map `m`, account key `k` and password `pw`.
pub open spec fn verify_result(r: Result<bool, StoreError>, m: Map<Seq<u8>, Seq<u8>>, k: Seq<u8>, pw: Seq<u8>) -> bool {
    r == verify_outcome(stored_at(m, k), pw) || r == Err::<bool, StoreError>(StoreError::Io)
}

/// The heart-rate pair that the stored values give: a pair only when both
/// are present, `Corrupt` when both are present and one is not one byte.
pub open spec fn heartrate_outcome(rest: Option<Seq<u8>>, max: Option<Seq<u8>>) -> Result<Option<(u8, u8)>, StoreError> {
    match (rest, max) {
        (Some(a), Some(b)) => if a.len() != 1 || b.len() != 1 {
            Err(StoreError::Corrupt)
        } else {
            Ok(Some((a[0], b[0])))
        },
        _ => Ok(None),
    }
}

/// What `get_heartrate` owes: the pair that the stored values give, or an engine failure.
pub open spec fn heartrate_result(
    r: Result<Option<(u8, u8)>, StoreError>,
    rest: Map<Seq<u8>, Seq<u8>>,
    max: Map<Seq<u8>, Seq<u8>>,
    k: Seq<u8>,
) -> bool {
    r == heartrate_outcome(stored_at(rest, k), stored_at(max, k)) || r == Err::<Option<(u8, u8)>, StoreError>(
        StoreError::Io,
    )
}

/// Checks `password` against the hash stored for an account, if any.
pub fn verify_stored(stored: Option<Vec<u8>>, password: &str) -> (r: Result<bool, StoreError>)
    ensures
        r == verify_outcome(opt_bytes(stored), seg(password@)),
{
    let stored = match stored {
        Some(v) => v,
        None => return Err(StoreError::NotFound),
    };
    let ghost b = stored@;
    let hash = match utf8_string(stored) {
        Some(h) => h,
        None => return Err(StoreError::Corrupt),
    };
    proof {
        lemma_encoding_injective(hash@, decoded(b));
    }
    if check_password(hash.as_str(), password.as_bytes()) {
        Ok(true)
    } else {
        Err(StoreError::IncorrectPassword)
    }
}

/// The heart-rate pair that the stored resting and maximum values give.
pub fn heartrate_of(rest: Option<Vec<u8>>, max: Option<Vec<u8>>) -> (r: Result<Option<(u8, u8)>, StoreError>)
    ensures
        r == heartrate_outcome(opt_bytes(rest), opt_bytes(max)),
{
    match (rest, max) {
        (Some(x), Some(y)) => {
            if x.len() != 1 || y.len() != 1 {
                Err(StoreError::Corrupt)
            } else {
                Ok(Some((x[0], y[0])))
            }
        },
        _ => Ok(None),
    }
}

impl UserTree {
    /// Whether an account named `id` exists.
    pub fn contains(&self, id: &str) -> (r: Result<bool, StoreError>)
        ensures
            r matches Ok(b) ==> b == entries(self.username_password).contains_key(seg(id@)),
            r matches Err(e) ==> e == StoreError::Io,
    {
        match tree_contains(&self.username_password, &name_key(id)) {
            Ok(b) => Ok(b),
            Err(e) => Err(io_error(e)),
        }
    }

    /// Creates account `username`: draws a fresh salt and stores the encoded
    /// Argon2 hash of `password` with it.
    pub fn insert(&mut self, username: &str, password: &str) -> (r: Result<(), StoreError>)
        ensures
            r is Ok ==> created(entries(old(self).username_password), entries(final(self).username_password), username@, password@),
            r == Err::<(), StoreError>(StoreError::Crypto) ==> entries(final(self).username_password) == entries(
                old(self).username_password,
            ),
            r matches Err(e) ==> e == StoreError::Io || e == StoreError::Crypto,
    {
        let salt = match random_bytes(SALT_LEN) {
            Some(s) => s,
            None => return Err(StoreError::Crypto),
        };
        let hash = match hash_password(password.as_bytes(), salt.as_slice()) {
            Some(h) => h,
            None => return Err(StoreError::Crypto),
        };
        let k = name_key(username);
        match tree_insert(&mut self.username_password, &k, hash.as_str().as_bytes()) {
            Ok(()) => {
                proof {
                    lemma_decoded_of_encoding(hash@);
                }
                Ok(())
            },
            Err(e) => Err(io_error(e)),
        }
    }

    /// Checks `password` against the hash stored for account `id`.
    pub fn verify_hash(&self, id: &str, password: &str) -> (r: Result<bool, StoreError>)
        ensures
            verify_result(r, entries(self.username_password), seg(id@), seg(password@)),
    {
        match tree_get(&self.username_password, &name_key(id)) {
            Ok(o) => verify_stored(o, password),
            Err(e) => Err(io_error(e)),
        }
    }

    /// Sets the standard gear of account `username`.
    pub fn set_standard_gear(&mut self, username: &str, gear: &str) -> (r: Result<(), StoreError>)
        ensures
            r is Ok ==> entries(final(self).username_standard_gear) == entries(
                old(self).username_standard_gear,
            ).insert(seg(username@), seg(gear@)),
            r matches Err(e) ==> e == StoreError::Io,
    {
        match tree_insert(&mut self.username_standard_gear, &name_key(username), gear.as_bytes()) {
            Ok(()) => Ok(()),
            Err(e) => Err(io_error(e)),
        }
    }

    /// The standard gear of account `username`; none when none is set.
    pub fn get_standard_gear(&self, username: &str) -> (r: Result<Option<String>, StoreError>)
        ensures
            text_outcome(r, stored_at(entries(self.username_standard_gear), seg(username@)))
                || r == Err::<Option<String>, StoreError>(StoreError::Io),
    {
        match tree_get(&self.username_standard_gear, &name_key(username)) {
            Ok(o) => text_of(o),
            Err(e) => Err(io_error(e)),
        }
    }

    /// Stores the resting and maximum heart rate of account `username`, one byte each.
    pub fn set_heartrate(&mut self, username: &str, heartrate: (u8, u8)) -> (r: Result<(), StoreError>)
        ensures
            r is Ok ==> entries(final(self).username_heartrate_rest) == entries(
                old(self).username_heartrate_rest,
            ).insert(seg(username@), seq![heartrate.0]),
            r is Ok ==> entries(final(self).username_heartrate_max) == entries(
                old(self).username_heartrate_max,
            ).insert(seg(username@), seq![heartrate.1]),
            r matches Err(e) ==> e == StoreError::Io,
    {
        let k = name_key(username);
        let rest = vec![heartrate.0];
        let max = vec![heartrate.1];
        match tree_insert(&mut self.username_heartrate_rest, &k, rest.as_slice()) {
            Ok(()) => {},
            Err(e) => return Err(io_error(e)),
        }
        proof {
            assert(rest@ == seq![heartrate.0]);
            assert(max@ == seq![heartrate.1]);
        }
        match tree_insert(&mut self.username_heartrate_max, &k, max.as_slice()) {
            Ok(()) => Ok(()),
            Err(e) => Err(io_error(e)),
        }
    }

    /// The resting and maximum heart rate of account `username`, when both are set.
    pub fn get_heartrate(&self, username: &str) -> (r: Result<Option<(u8, u8)>, StoreError>)
        ensures
            heartrate_result(
                r,
                entries(self.username_heartrate_rest),
                entries(self.username_heartrate_max),
                seg(username@),
            ),
    {
        let k = name_key(username);
        let rest = match tree_get(&self.username_heartrate_rest, &k) {
            Ok(o) => o,
            Err(e) => return Err(io_error(e)),
        };
        let max = match tree_get(&self.username_heartrate_max, &k) {
            Ok(o) => o,
            Err(e) => return Err(io_error(e)),
        };
        heartrate_of(rest, max)
    }

    /// The names of all accounts, in descending order, leaving out names that are not UTF-8.
    pub fn iter_id(&self) -> (r: Result<Vec<String>, StoreError>)
        ensures
            r matches Ok(v) ==> exists|ks: Seq<Seq<u8>>|
                keys_desc(ks, entries(self.username_password), seq![]) && string_views(v@) == #[trigger] decode_all(ks),
            r matches Err(e) ==> e == StoreError::Io,
    {
        let ks = scan_keys_desc(&self.username_password, &Vec::new())?;
        Ok(decode_strings(ks))
    }
}

} // verus!
