use vstd::prelude::*;

verus! {

pub open spec fn is_lower_hex(c: char) -> bool {
    ('0' <= c && c <= '9') || ('a' <= c && c <= 'f')
}

/// The simple text form of a UUID: 32 lower-case hexadecimal digits.
pub open spec fn is_simple_uuid(s: Seq<char>) -> bool {
    s.len() == 32 && forall|i: int| 0 <= i < s.len() ==> is_lower_hex(#[trigger] s[i])
}

/// The hyphenated text form of a UUID: 36 characters, hyphens at positions
/// 8, 13, 18 and 23, lower-case hexadecimal digits elsewhere.
pub open spec fn is_hyphenated_uuid(s: Seq<char>) -> bool {
    &&& s.len() == 36
    &&& forall|i: int|
        0 <= i < s.len() ==> if i == 8 || i == 13 || i == 18 || i == 23 {
            #[trigger] s[i] == '-'
        } else {
            is_lower_hex(s[i])
        }
}

/// Relies on uuid's `Uuid::new_v4` for 122 random bits from the system's
/// source, and on the `Display` of `Uuid::to_simple`, which writes the 16
/// bytes as 32 lower-case hexadecimal digits.
#[verifier::external_body]
pub(crate) fn fresh_uuid() -> (r: String)
    ensures
        is_simple_uuid(r@),
{
    uuid::Uuid::new_v4().to_simple().to_string()
}

/// Relies on uuid's `Uuid::new_v4` for 122 random bits from the system's
/// source, and on the `Display` of `Uuid::to_hyphenated`, which writes the 16
/// bytes as lower-case hexadecimal digits in groups of 8, 4, 4, 4 and 12,
/// joined by hyphens.
#[verifier::external_body]
pub(crate) fn fresh_hyphenated_uuid() -> (r: String)
    ensures
        is_hyphenated_uuid(r@),
{
    uuid::Uuid::new_v4().to_hyphenated().to_string()
}

} // verus!
