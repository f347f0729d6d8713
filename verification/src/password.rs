use vstd::prelude::*;

verus! {

#[verifier::external_type_specification]
#[verifier::external_body]
pub struct ExPwhashError(pwhash::error::Error);

/// What `pwhash::bcrypt::verify` returns for a password and a stored hash.
pub uninterp spec fn bcrypt_verifies(password: Seq<char>, hash: Seq<char>) -> bool;

/// Every character is printable ASCII, space to tilde.
pub open spec fn printable_ascii(s: Seq<char>) -> bool {
    forall|i: int| 0 <= i < s.len() ==> 0x20u32 <= (#[trigger] s[i] as u32) && (s[i] as u32) <= 0x7eu32
}

/// A character of bcrypt's base-64 alphabet: `.`, `/`, an ASCII letter or
/// digit.
pub open spec fn bcrypt_char(c: char) -> bool {
    ||| c == '.'
    ||| c == '/'
    ||| (65u32 <= (c as u32) && (c as u32) <= 90u32)
    ||| (97u32 <= (c as u32) && (c as u32) <= 122u32)
    ||| (48u32 <= (c as u32) && (c as u32) <= 57u32)
}

/// The form of a hash made by `pwhash::bcrypt::hash`: `$2b$10$`, then the
/// 22-character salt and the 31-character checksum, in bcrypt's alphabet.
pub open spec fn bcrypt_shape(h: Seq<char>) -> bool {
    &&& h.len() == 60
    &&& h[0] == '$'
    &&& h[1] == '2'
    &&& h[2] == 'b'
    &&& h[3] == '$'
    &&& h[4] == '1'
    &&& h[5] == '0'
    &&& h[6] == '$'
    &&& forall|i: int| 7 <= i < 60 ==> bcrypt_char(#[trigger] h[i])
}

/// A hash of bcrypt's form is printable ASCII.
pub proof fn lemma_bcrypt_shape_printable(h: Seq<char>)
    requires
        bcrypt_shape(h),
    ensures
        printable_ascii(h),
{
    assert forall|i: int| 0 <= i < h.len() implies 0x20u32 <= (#[trigger] h[i] as u32) && (
    h[i] as u32) <= 0x7eu32 by {
        if i >= 7 {
            assert(bcrypt_char(h[i]));
        }
    }
}

/// Calls `pwhash::bcrypt::verify` on the bytes of `password` and on `hash`.
/// The contract claims that the answer is a function of the two strings,
/// named `bcrypt_verifies`, and nothing of its value. `verify` decodes the
/// salt part of `hash` through a table indexed by each character's code less
/// 0x20: a character below space underflows and one above 0x7f reads past the
/// table, and a character beyond ASCII can split a byte slice of the parser.
/// The `requires` keeps `hash` to printable ASCII, where none of these occur.
#[verifier::external_body]
pub(crate) fn verify_password(password: &String, hash: &String) -> (b: bool)
    requires
        printable_ascii(hash@),
    ensures
        b == bcrypt_verifies(password@, hash@),
{
    pwhash::bcrypt::verify(password.as_str(), hash.as_str())
}

/// Calls `pwhash::bcrypt::hash` on the bytes of `password`. The salt is
/// random, so the hash is not named. The contract claims what the source
/// shows of every outcome: `hash` ends in `Ok` (its last step, `do_bcrypt`,
/// returns `Ok` on every path); the hash is `$2b$10$` followed by the 16-byte
/// salt and the 23-byte checksum in bcrypt's base 64 (22 and 31 characters);
/// and `verify` accepts the password against the hash it made (the hash
/// string carries the variant, cost and salt that `verify` parses back to
/// recompute the same string).
#[verifier::external_body]
fn bcrypt_hash(password: &String) -> (r: Result<String, pwhash::error::Error>)
    ensures
        r is Ok,
        r matches Ok(h) ==> bcrypt_shape(h@) && bcrypt_verifies(password@, h@),
{
    pwhash::bcrypt::hash(password.as_str())
}

/// Whether `s` is printable ASCII, the form every stored hash must have
/// before it is checked.
pub fn is_printable_ascii(s: &String) -> (b: bool)
    ensures
        b == printable_ascii(s@),
{
    let t = s.as_str();
    let n = t.unicode_len();
    let mut i: usize = 0;
    while i < n
        invariant
            n == s@.len(),
            t@ == s@,
            i <= n,
            forall|j: int| 0 <= j < i ==> 0x20u32 <= (#[trigger] s@[j] as u32) && (s@[j] as u32)
                <= 0x7eu32,
        decreases n - i,
    {
        let c = t.get_char(i);
        let code = c as u32;
        if code < 0x20 || code > 0x7e {
            assert(s@[i as int] == c);
            return false;
        }
        i = i + 1;
    }
    true
}

/// A salted bcrypt hash of `password`.
pub fn hash_password(password: &String) -> (h: String)
    ensures
        bcrypt_shape(h@),
        printable_ascii(h@),
        bcrypt_verifies(password@, h@),
{
    match bcrypt_hash(password) {
        Ok(h) => {
            proof {
                lemma_bcrypt_shape_printable(h@);
            }
            h
        },
        Err(_) => vstd::pervasive::unreached(),
    }
}

} // verus!
