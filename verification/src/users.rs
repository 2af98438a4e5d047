use vstd::prelude::*;

verus! {

/// Whether bcrypt accepts `password` against the salted hash
/// `hash`.  bcrypt recomputes the digest from the salt and cost
/// carried inside the hash itself, so the answer is a function of
/// the two texts alone; a text that is no bcrypt hash accepts
/// nothing.
pub uninterp spec fn bcrypt_accepts(hash: Seq<char>, password: Seq<char>) -> bool;

/// Relies on `bcrypt::verify`: it parses the salt and cost out of
/// the hash, recomputes the digest of `password`, and compares; an
/// unparsable hash reports an error, which counts as a rejection
/// here.
#[verifier::external_body]
fn check(expected_password_hash: &str, password: &str) -> (r: bool)
    ensures
        r == bcrypt_accepts(expected_password_hash@, password@),
{
    match bcrypt::verify(password, expected_password_hash) {
        Ok(accepted) => accepted,
        Err(_) => false,
    }
}

/// An account of the administrative service: a name, the bcrypt
/// hash of its password, its team memberships, and the admin flag.
pub struct User {
    pub username: String,
    pub password_hash: String,
    pub teams: Vec<String>,
    pub admin: bool,
}

impl User {
    /// Whether the offered password is the account's password, as
    /// bcrypt judges it against the stored hash.
    pub fn is_valid(&self, password: &str) -> (r: bool)
        ensures
            r == bcrypt_accepts(self.password_hash@, password@),
    {
        check(self.password_hash.as_str(), password)
    }
}

} // verus!
