//! Random token ids.

use vstd::prelude::*;

verus! {

pub open spec fn is_lower_hex(c: char) -> bool {
    ('0' <= c && c <= '9') || ('a' <= c && c <= 'f')
}

/// The hyphenated lower-case text of a version 4 UUID.
pub open spec fn is_uuid_v4_text(s: Seq<char>) -> bool {
    &&& s.len() == 36
    &&& forall|i: int| 0 <= i < 36 ==> (if i == 8 || i == 13 || i == 18 || i == 23 {
        #[trigger] s[i] == '-'
    } else {
        is_lower_hex(s[i])
    })
    &&& s[14] == '4'
    &&& (s[19] == '8' || s[19] == '9' || s[19] == 'a' || s[19] == 'b')
}

#[verifier::external_type_specification]
#[verifier::external_body]
pub struct ExRandomError(getrandom::Error);

/// `getrandom::fill` on 16 bytes: bytes from the operating system's random
/// source, or its error where the source fails. Nothing is promised of the
/// values.
#[verifier::external_body]
fn random_bytes() -> Result<[u8; 16], getrandom::Error> {
    let mut bytes = [0u8; 16];
    getrandom::fill(&mut bytes)?;
    Ok(bytes)
}

/// The text of the version 4 UUID that uuid builds from 16 random bytes.
pub uninterp spec fn uuid_v4_text(bytes: Seq<u8>) -> Seq<char>;

/// `uuid::Builder::from_random_bytes(bytes).into_uuid().to_string()`: the bytes
/// with the version set to 4 and the variant to RFC 4122, in the hyphenated
/// lower-case form. The text is named by `uuid_v4_text`; its form is what the
/// source shows.
#[verifier::external_body]
fn uuid_from_random(bytes: [u8; 16]) -> (s: String)
    ensures
        s@ == uuid_v4_text(bytes@),
        is_uuid_v4_text(s@),
{
    uuid::Builder::from_random_bytes(bytes).into_uuid().to_string()
}

/// A fresh random version 4 UUID, or `None` where the random source fails.
pub fn new_uuid_v4() -> (r: Option<String>)
    ensures
        r matches Some(s) ==> is_uuid_v4_text(s@),
{
    match random_bytes() {
        Ok(bytes) => Some(uuid_from_random(bytes)),
        Err(_) => None,
    }
}

} // verus!
