//! The escape sequence that asks a terminal to take text onto its clipboard
//! (OSC 52).

use vstd::prelude::*;

use crate::text::push_str;

verus! {

/// The standard base64 encoding (with padding) of the text's UTF-8 bytes.
pub uninterp spec fn base64_of(text: Seq<char>) -> Seq<char>;

/// `base64::engine::general_purpose::STANDARD.encode` of the text's bytes;
/// the result is named `base64_of`.
#[verifier::external_body]
fn encode_base64(text: &str) -> (r: String)
    ensures
        r@ == base64_of(text@),
{
    base64::Engine::encode(&base64::engine::general_purpose::STANDARD, text)
}

/// The OSC 52 sequence for `text`: `ESC ] 52 ; c ;`, the text in base64,
/// then `BEL`.
pub fn osc52_sequence(text: &str) -> (r: String)
    ensures
        r@ == "\x1b]52;c;"@ + base64_of(text@) + "\x07"@,
{
    let mut out = "\x1b]52;c;".to_string();
    let encoded = encode_base64(text);
    push_str(&mut out, encoded.as_str());
    push_str(&mut out, "\x07");
    out
}

} // verus!
