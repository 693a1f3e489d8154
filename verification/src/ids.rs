//! Ids of rules and of files that are written aside.
use vstd::prelude::*;
use vstd::string::*;

verus! {

/// The digits in which an id is written.
pub open spec fn is_lower_hex(c: char) -> bool {
    ('0' <= c <= '9') || ('a' <= c <= 'f')
}

/// The places of the hyphens in an id.
pub open spec fn is_hyphen_place(i: int) -> bool {
    i == 8 || i == 13 || i == 18 || i == 23
}

/// A random id in its usual form: groups of lower-case hexadecimal digits with
/// hyphens between them, the third group beginning with the version.
pub open spec fn is_uuid_text(s: Seq<char>) -> bool {
    &&& s.len() == 36
    &&& forall|i: int|
        0 <= i < 36 ==> if is_hyphen_place(i) {
            #[trigger] s[i] == '-'
        } else {
            is_lower_hex(s[i])
        }
    &&& s[14] == '4'
}

/// Calls `uuid::Uuid::new_v4` and writes the id down: hyphenated, in lower
/// case, of version 4. Which id it is depends on chance.
#[verifier::external_body]
fn uuid_v4() -> (r: String)
    ensures
        is_uuid_text(r@),
{
    uuid::Uuid::new_v4().to_string()
}

/// A fresh random id.
pub fn new_id() -> (r: String)
    ensures
        is_uuid_text(r@),
{
    uuid_v4()
}

/// A fresh id is never blank.
pub proof fn fresh_id_is_not_blank(s: Seq<char>)
    requires
        is_uuid_text(s),
    ensures
        !crate::text::is_blank_text(s),
{
    assert(is_lower_hex(s[0]));
    assert(is_lower_hex(s[35]));
    assert(crate::text::trimmed_start(s, crate::text::CharClass::WhiteSpace) == s);
    assert(crate::text::trimmed_end(s, crate::text::CharClass::WhiteSpace) == s);
}

} // verus!
