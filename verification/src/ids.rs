use vstd::prelude::*;

verus! {

/// The length of a record id.
pub const NID_LEN: usize = 21;

/// A character of nanoid's default alphabet: `_`, `-`, an ASCII digit or an
/// ASCII letter.
pub open spec fn nid_char(c: char) -> bool {
    ||| c == '_'
    ||| c == '-'
    ||| (48u32 <= (c as u32) && (c as u32) <= 57u32)
    ||| (97u32 <= (c as u32) && (c as u32) <= 122u32)
    ||| (65u32 <= (c as u32) && (c as u32) <= 90u32)
}

/// `s` has `size` characters, each of nanoid's default alphabet.
pub open spec fn nid_shape(s: Seq<char>, size: nat) -> bool {
    &&& s.len() == size
    &&& forall|i: int| 0 <= i < s.len() ==> nid_char(#[trigger] s[i])
}

/// Calls `nanoid::format` with nanoid's default random source
/// (`nanoid::rngs::default`) and default alphabet (`nanoid::alphabet::SAFE`),
/// which is what `nanoid!(size)` expands to. The id is random: the contract
/// claims only what `format` shows of every outcome, that the id has `size`
/// characters, each taken from the alphabet. `format` loops for ever when
/// `size` is 0, hence the lower bound; the upper one keeps `8 * size` in range.
#[verifier::external_body]
fn generate_nid(size: usize) -> (id: String)
    requires
        1 <= size <= 1000,
    ensures
        nid_shape(id@, size as nat),
{
    nanoid::format(nanoid::rngs::default, &nanoid::alphabet::SAFE, size)
}

/// A fresh random record id of `NID_LEN` characters.
pub fn new_nid() -> (id: String)
    ensures
        nid_shape(id@, NID_LEN as nat),
{
    generate_nid(NID_LEN)
}

} // verus!
