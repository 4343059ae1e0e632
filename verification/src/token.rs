//! Random session ids and api keys.
use vstd::prelude::*;

verus! {

/// Whether `c` is a lower-case hexadecimal digit.
pub open spec fn is_lower_hex(c: char) -> bool {
    (48 <= (c as u32) <= 57) || (97 <= (c as u32) <= 102)
}

/// Whether `s` is a version-4 UUID in its hyphenated lower-case form:
/// 36 characters, hyphens at 8, 13, 18 and 23, lower-case hex digits
/// elsewhere, the version digit `4` at 14 and a variant digit among
/// `8`, `9`, `a`, `b` at 19.
pub open spec fn is_v4_token(s: Seq<char>) -> bool {
    &&& s.len() == 36
    &&& forall|i: int|
        0 <= i < 36 ==> if i == 8 || i == 13 || i == 18 || i == 23 {
            #[trigger] s[i] == '-'
        } else {
            is_lower_hex(s[i])
        }
    &&& s[14] == '4'
    &&& (s[19] == '8' || s[19] == '9' || s[19] == 'a' || s[19] == 'b')
}

/// A fresh random token: `uuid::Uuid::new_v4()` rendered by its `Display`
/// impl. The crate masks the random bits with the version (4) and the
/// RFC 4122 variant, and `Display` writes the hyphenated lower-case form;
/// the contract states that shape. Which of the possible tokens comes out
/// is chance, so nothing else is stated (two calls may also collide).
#[verifier::external_body]
pub(crate) fn random_token() -> (s: String)
    ensures
        is_v4_token(s@),
{
    uuid::Uuid::new_v4().to_string()
}

} // verus!
