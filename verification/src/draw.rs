//! What the gateway draws from the machine: fresh identifiers and the time.

use crate::text::concat;
use vstd::prelude::*;

verus! {

pub open spec fn is_hex_digit(c: char) -> bool {
    '0' as int <= c as int <= '9' as int || 'a' as int <= c as int <= 'f' as int
}

/// Thirty-two lower case hexadecimal digits.
pub open spec fn is_hex32(s: Seq<char>) -> bool {
    s.len() == 32 && forall|i: int| 0 <= i < s.len() ==> is_hex_digit(#[trigger] s[i])
}

/// `prefix` and thirty-two hexadecimal digits.
pub open spec fn is_fresh_id(s: Seq<char>, prefix: Seq<char>) -> bool {
    prefix.is_prefix_of(s) && is_hex32(s.skip(prefix.len() as int))
}

/// `uuid::Uuid::new_v4` in its `simple` form: thirty-two lower case hexadecimal
/// digits. Which ones is chance.
#[verifier::external_body]
pub(crate) fn random_hex() -> (r: String)
    ensures
        is_hex32(r@),
{
    uuid::Uuid::new_v4().simple().to_string()
}

/// A fresh identifier under a prefix.
pub fn fresh_id(prefix: &str) -> (r: String)
    ensures
        is_fresh_id(r@, prefix@),
{
    let hex = random_hex();
    let r = concat(prefix, hex.as_str());
    assert(r@.skip(prefix@.len() as int) =~= hex@);
    assert(prefix@ =~= r@.take(prefix@.len() as int));
    r
}

/// Fresh identifiers under a prefix, `n` of them.
pub fn fresh_ids(prefix: &str, n: usize) -> (r: Vec<String>)
    ensures
        r@.len() == n,
        forall|i: int| 0 <= i < n ==> is_fresh_id((#[trigger] r@[i])@, prefix@),
{
    let mut out: Vec<String> = Vec::new();
    for i in 0..n
        invariant
            out@.len() == i,
            forall|j: int| 0 <= j < i ==> is_fresh_id((#[trigger] out@[j])@, prefix@),
    {
        let id = fresh_id(prefix);
        out.push(id);
    }
    out
}

/// `chrono::Utc::now` as a Unix timestamp in seconds. What it is, the clock says.
#[verifier::external_body]
pub(crate) fn unix_now() -> (r: i64) {
    chrono::Utc::now().timestamp()
}

} // verus!
