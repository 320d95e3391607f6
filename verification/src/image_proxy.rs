//! Decisions and formatting for the image proxy.
//!
//! The application fetches item icons on the UI's behalf, but only from
//! the game's own image host, and hands the bytes back as a data URL. The
//! HTTP call and the URL parsing are the caller's; this module decides
//! which host is allowed and builds the data URL from the response's
//! content type and bytes.

use vstd::prelude::*;
use base64::Engine;
use crate::text::str_eq;

verus! {

/// The one image host requests may be proxied to.
pub open spec fn spec_allowed_host() -> Seq<char> {
    "web.poecdn.com"@
}

/// May a request be proxied to this host? Callers must take the host from
/// a parsed URL, never from text matching, so a crafted URL cannot smuggle
/// another host through.
pub fn proxy_host_allowed(host: &str) -> (r: bool)
    ensures
        r <==> host@ == spec_allowed_host(),
{
    str_eq(host, "web.poecdn.com")
}

/// What the standard base64 alphabet encodes these bytes to: a function of
/// the bytes alone.
pub uninterp spec fn base64_of(bytes: Seq<u8>) -> Seq<char>;

/// Relies on `base64`'s standard engine: encodes with the standard
/// alphabet and padding; deterministic in its input, and empty input
/// encodes to empty output.
#[verifier::external_body]
fn base64_standard(bytes: &[u8]) -> (r: String)
    ensures
        r@ == base64_of(bytes@),
        bytes@.len() == 0 ==> r@.len() == 0,
{
    base64::engine::general_purpose::STANDARD.encode(bytes)
}

/// The data URL handed back for a fetched image.
pub open spec fn spec_data_url(content_type: Seq<char>, bytes: Seq<u8>) -> Seq<char> {
    "data:"@ + content_type + ";base64,"@ + base64_of(bytes)
}

/// Wrap fetched image bytes as a data URL with their content type.
pub fn image_data_url(content_type: &str, bytes: &[u8]) -> (r: String)
    ensures
        r@ == spec_data_url(content_type@, bytes@),
{
    let mut url: String = "data:".to_owned();
    url.append(content_type);
    url.append(";base64,");
    url.append(base64_standard(bytes).as_str());
    url
}

} // verus!
