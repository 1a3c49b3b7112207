//! Fresh identifiers and timestamps. Both come from outside crates and
//! differ from call to call; the contracts state only what holds of every
//! outcome.
use vstd::prelude::*;

use crate::scrivener::scrivx::is_hyphenated_uuid;

verus! {

/// A fresh random (version 4) UUID in its hyphenated text form. Calls
/// `Uuid::new_v4` and formats it with `to_string`, which the uuid crate
/// writes as 36 lowercase characters with hyphens at positions 8, 13, 18 and
/// 23; the contract claims that form and nothing about the value.
#[verifier::external_body]
pub(crate) fn new_uuid() -> (r: String)
    ensures
        is_hyphenated_uuid(r@),
        forall|k: int| 0 <= k < r@.len() ==> #[trigger] r@[k] != '-' ==> ('0' <= r@[k] <= '9' || 'a' <= r@[k] <= 'f'),
{
    uuid::Uuid::new_v4().to_string()
}

/// A fresh random (version 4) UUID in its simple text form. Calls
/// `Uuid::new_v4` and formats it through `simple()`, which the uuid crate
/// writes as 32 lowercase hexadecimal digits with no hyphens; the contract
/// claims that form and nothing about the value.
#[verifier::external_body]
pub(crate) fn new_simple_uuid() -> (r: String)
    ensures
        r@.len() == 32,
        forall|k: int| 0 <= k < 32 ==> ('0' <= #[trigger] r@[k] <= '9' || 'a' <= r@[k] <= 'f'),
{
    uuid::Uuid::new_v4().simple().to_string()
}

/// The current time in RFC 3339 form. Calls `Utc::now` and formats it with
/// `to_rfc3339`; nothing is claimed of the text.
#[verifier::external_body]
pub(crate) fn now_rfc3339() -> (r: String) {
    chrono::Utc::now().to_rfc3339()
}

/// The uppercase form of a hexadecimal digit; other characters unchanged.
pub open spec fn hex_upper(c: char) -> char {
    if c == 'a' { 'A' } else if c == 'b' { 'B' } else if c == 'c' { 'C' } else if c == 'd' { 'D' }
    else if c == 'e' { 'E' } else if c == 'f' { 'F' } else { c }
}

fn to_hex_upper(c: char) -> (r: char)
    ensures
        r == hex_upper(c),
{
    if c == 'a' { 'A' } else if c == 'b' { 'B' } else if c == 'c' { 'C' } else if c == 'd' { 'D' }
    else if c == 'e' { 'E' } else if c == 'f' { 'F' } else { c }
}

/// A fresh UUID in uppercase hyphenated form. The text of a UUID holds
/// only hexadecimal digits and hyphens, so uppercasing it only changes the
/// digits `a` to `f`.
pub fn new_uuid_upper() -> (r: String)
    ensures
        is_hyphenated_uuid(r@),
{
    let lower = new_uuid();
    let cs = crate::text::chars_of(lower.as_str());
    let mut out: Vec<char> = Vec::new();
    let mut i: usize = 0;
    while i < cs.len()
        invariant
            i <= cs.len(),
            cs@ == lower@,
            is_hyphenated_uuid(lower@),
            forall|k: int| 0 <= k < lower@.len() ==> #[trigger] lower@[k] != '-' ==> ('0' <= lower@[k] <= '9' || 'a' <= lower@[k] <= 'f'),
            out@.len() == i,
            forall|k: int| 0 <= k < i ==> #[trigger] out@[k] == hex_upper(cs@[k]),
        decreases cs.len() - i,
    {
        let c = cs[i];
        out.push(to_hex_upper(c));
        i = i + 1;
    }
    let r = crate::text::string_of(&out);
    proof {
        assert forall|k: int| 0 <= k < 36 implies #[trigger] crate::scrivener::scrivx::uuid_char_ok(k, r@[k]) by {
            assert(crate::scrivener::scrivx::uuid_char_ok(k, lower@[k]));
        }
    }
    r
}

} // verus!
