//! Shareable playground links.
//!
//! A program is encoded into a URL for the language's web playground; the
//! reply carries the link and, when it fits the length budget, the
//! highlighted source it encodes.

use vstd::prelude::*;
use vstd::string::{StrSliceExecFns, StringExecFns};
use vstd::utf8::encode_utf8;

use crate::highlight::{highlight_code, highlight_text};
use crate::render::MAX_MSG_LEN;
use crate::text::{byte_len, utf8_len};
use crate::uiua_api::{formatter_evaluates, uiua_version};

verus! {

/// The URL-safe, padded base-64 encoding of a byte string.
pub uninterp spec fn base64_url_of(bytes: Seq<u8>) -> Seq<char>;

/// Relies on base64's URL_SAFE engine: a deterministic, padded encoding,
/// four output characters for every three input bytes begun.
#[verifier::external_body]
fn base64_url_encode(bytes: &[u8]) -> (r: String)
    ensures
        r@ == base64_url_of(bytes@),
        r@.len() == 4 * ((bytes@.len() + 2) / 3),
{
    base64::Engine::encode(&base64::engine::general_purpose::URL_SAFE, bytes)
}

/// The playground URL for an encoded program under a runtime version.
pub open spec fn pad_url(version: Seq<char>, encoded: Seq<char>) -> Seq<char> {
    "https://www.uiua.org/pad?src="@ + version + "__"@ + encoded
}

/// The pad reply: a markdown link to the playground, followed by the
/// highlighted source when the whole reply fits the budget, else the link
/// alone.
pub open spec fn pad_reply(version: Seq<char>, encoded: Seq<char>, highlighted: Seq<char>) -> Seq<
    char,
> {
    let url = pad_url(version, encoded);
    let full = "[pad]("@ + url + ") for: "@ + highlighted;
    if byte_len(full) <= MAX_MSG_LEN {
        full
    } else {
        "[pad]("@ + url + ")"@
    }
}

/// Compose the pad reply out of its three parts, under the length budget.
pub fn compose_pad_link_message(version: &str, encoded: &str, highlighted: &str) -> (r: String)
    ensures
        r@ == pad_reply(version@, encoded@, highlighted@),
{
    let mut link = String::from_str("https://www.uiua.org/pad?src=");
    link.append(version);
    link.append("__");
    link.append(encoded);
    let mut full = String::from_str("[pad](");
    full.append(link.as_str());
    full.append(") for: ");
    full.append(highlighted);
    if utf8_len(full.as_str()) <= MAX_MSG_LEN as u128 {
        full
    } else {
        let mut short = String::from_str("[pad](");
        short.append(link.as_str());
        short.append(")");
        short
    }
}

/// Format a program into a playground link: the program's bytes are encoded
/// into the URL, and the highlighted source is shown beside the link when
/// the reply fits the budget.  Only the runtime's version, which stands in
/// the URL itself, is left open.
pub fn format_and_get_pad_link(code: &str) -> (r: String)
    ensures
        !formatter_evaluates(code@) ==> exists|version: Seq<char>|
            r@ == pad_reply(version, base64_url_of(encode_utf8(code@)), highlight_text(code@)),
        exists|version: Seq<char>, highlighted: Seq<char>|
            r@ == pad_reply(version, base64_url_of(encode_utf8(code@)), highlighted),
{
    let encoded = base64_url_encode(code.as_bytes());
    let version = uiua_version();
    let highlighted = highlight_code(code);
    let r = compose_pad_link_message(version.as_str(), encoded.as_str(), highlighted.as_str());
    proof {
        assert(r@ == pad_reply(version@, base64_url_of(encode_utf8(code@)), highlighted@));
        if !formatter_evaluates(code@) {
            assert(r@ == pad_reply(
                version@,
                base64_url_of(encode_utf8(code@)),
                highlight_text(code@),
            ));
        }
    }
    r
}

} // verus!
