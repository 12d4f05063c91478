use rand::Rng;
use vstd::prelude::*;

verus! {

/// The number of characters in a boundary token.
pub const BOUNDARY_LEN: usize = 16;

/// Whether `c` is an ASCII letter or an ASCII digit.
pub open spec fn is_alphanumeric(c: char) -> bool {
    ('a' <= c && c <= 'z') || ('A' <= c && c <= 'Z') || ('0' <= c && c <= '9')
}

/// Whether `token` has the shape of a generated boundary: `BOUNDARY_LEN`
/// characters, each an ASCII letter or digit.
pub open spec fn is_boundary_token(token: Seq<char>) -> bool {
    &&& token.len() == BOUNDARY_LEN
    &&& forall|i: int| 0 <= i < token.len() ==> is_alphanumeric(#[trigger] token[i])
}

/// `String::push` of the standard library: the character is appended to the
/// end of the string.
pub assume_specification[ String::push ](s: &mut String, ch: char)
    ensures
        final(s)@ == old(s)@.push(ch),
;

/// Draws one byte from `rand::distributions::Alphanumeric` with the generator
/// of the current thread (`rand::thread_rng`). Which byte comes is left open;
/// the contract only repeats what the distribution documents and its source
/// shows: the byte is taken from the sixty-two ASCII letters and digits.
#[verifier::external_body]
fn sample_alphanumeric() -> (b: u8)
    ensures
        is_alphanumeric(b as char),
{
    rand::thread_rng().sample(rand::distributions::Alphanumeric)
}

/// A fresh boundary token. Tokens are drawn at random and not compared with
/// the content of any field: that a token occurs in no field is likely, not
/// certain.
pub fn gen_boundary() -> (token: String)
    ensures
        is_boundary_token(token@),
{
    let mut token = String::new();
    let mut i: usize = 0;
    while i < BOUNDARY_LEN
        invariant
            i <= BOUNDARY_LEN,
            token@.len() == i,
            forall|k: int| 0 <= k < token@.len() ==> is_alphanumeric(#[trigger] token@[k]),
        decreases BOUNDARY_LEN - i,
    {
        let b = sample_alphanumeric();
        token.push(b as char);
        i += 1;
    }
    token
}

} // verus!
