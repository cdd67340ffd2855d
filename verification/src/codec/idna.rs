//! The ascii form of internationalized domain names.
use vstd::prelude::*;

use crate::error::EncodingError;
use crate::grammar::all_ascii;

verus! {

/// The error type of `idna::domain_to_ascii`.
#[verifier::external_type_specification]
#[verifier::external_body]
pub struct ExIdnaErrors(idna::Errors);

/// What `idna::domain_to_ascii` makes of a domain: its ascii form
/// (punycode for non-ascii labels), or `None` where it fails.
pub uninterp spec fn idna_to_ascii(domain: Seq<char>) -> Option<Seq<char>>;

/// Calls `idna::domain_to_ascii`.
///
/// Trusted: the result is `idna_to_ascii` of the domain; an ok result is
/// ascii (the crate writes ascii labels as they are and every other label
/// as `xn--` followed by punycode).
#[verifier::external_body]
fn idna_domain_to_ascii(domain: &str) -> (r: Result<String, idna::Errors>)
    ensures
        match r {
            Ok(s) => idna_to_ascii(domain@) == Some(s@) && all_ascii(s@),
            Err(_) => idna_to_ascii(domain@) is None,
        },
{
    idna::domain_to_ascii(domain)
}

/// The ascii representation of `domain`, using punycode (IDNA).
///
/// This does not validate the domain: e.g. `"this seems\0so;wrong"` is
/// returned as it is. Fails with `PunyCodingDomainFailed` where the idna
/// crate fails.
pub fn puny_code_domain(domain: &str) -> (r: Result<String, EncodingError>)
    ensures
        match idna_to_ascii(domain@) {
            Some(s) => r matches Ok(a) && a@ == s && all_ascii(a@),
            None => r == Err::<String, EncodingError>(EncodingError::PunyCodingDomainFailed),
        },
{
    match idna_domain_to_ascii(domain) {
        Ok(asciified) => Ok(asciified),
        Err(_) => Err(EncodingError::PunyCodingDomainFailed),
    }
}

} // verus!
