//! Transaction signatures and their base 58 notation.
use solana_sdk::signature::Signature;
use std::str::FromStr;
use vstd::prelude::*;

verus! {

/// The signature that a text denotes, by `Signature::from_str`.
pub uninterp spec fn signature_bytes(text: Seq<char>) -> Option<Seq<u8>>;

/// The text that `Signature` displays as.
pub uninterp spec fn signature_text(bytes: Seq<u8>) -> Seq<char>;

/// `Signature::from_str` of `solana_sdk`: the signature that the text denotes in base 58, where it
/// denotes one of 64 bytes.
#[verifier::external_body]
pub(crate) fn parse_signature(text: &str) -> (signature: Option<[u8; 64]>)
    ensures
        match signature {
            Some(bytes) => signature_bytes(text@) == Some(bytes@),
            None => signature_bytes(text@) is None,
        },
{
    Signature::from_str(text).ok().map(|signature| signature.into())
}

/// `Signature`'s `to_string` of `solana_sdk`: the base 58 notation of the signature, from which
/// `Signature::from_str` reads it back.
#[verifier::external_body]
pub(crate) fn write_signature(signature: &[u8; 64]) -> (text: String)
    ensures
        text@ == signature_text(signature@),
        signature_bytes(text@) == Some(signature@),
{
    Signature::from(*signature).to_string()
}

/// Whether a text denotes a transaction signature.
pub fn is_signature(text: &str) -> (valid: bool)
    ensures
        valid == (signature_bytes(text@) is Some),
{
    parse_signature(text).is_some()
}

} // verus!
