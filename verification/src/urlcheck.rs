//! Target-URL validation for subscriber sessions: a relay target must be an
//! absolute URL whose scheme selects the transport, `https` for WebTransport
//! or `moqt` for raw QUIC.

use vstd::prelude::*;

verus! {

/// The scheme of the URL that `s` parses to, `None` when `s` is not an
/// absolute URL. URL parsing is a pure function of the input string, so this
/// is well defined.
pub uninterp spec fn url_scheme_of(s: Seq<char>) -> Option<Seq<char>>;

#[verifier::external_type_specification]
#[verifier::external_body]
pub struct ExUrl(url::Url);

/// Relies on url::Url::try_from (the URL parser) and url::Url::scheme: the
/// parse is deterministic in the input string, and every URL it accepts
/// carries a scheme, which scheme() returns.
#[verifier::external_body]
fn parse_url(s: &str) -> (r: Option<(url::Url, String)>)
    ensures
        r is Some <==> url_scheme_of(s@) is Some,
        r is Some ==> r->Some_0.1@ == url_scheme_of(s@)->Some_0,
{
    match url::Url::try_from(s) {
        Ok(u) => {
            let scheme = u.scheme().to_owned();
            Some((u, scheme))
        },
        Err(_) => None,
    }
}

/// Accepts a relay target: the string must parse as a URL and its scheme
/// must be `https` or `moqt`; anything else is rejected with a message.
pub fn moq_url(s: &str) -> (r: Result<url::Url, String>)
    ensures
        r is Ok <==> url_scheme_of(s@) is Some && (url_scheme_of(s@)->Some_0 == "https"@
            || url_scheme_of(s@)->Some_0 == "moqt"@),
{
    match parse_url(s) {
        Option::None => Err("relative URL without a base".to_owned()),
        Option::Some((u, scheme)) => {
            let https: String = "https".to_owned();
            let moqt: String = "moqt".to_owned();
            if scheme == https || scheme == moqt {
                Ok(u)
            } else {
                Err("url scheme must be https:// for WebTransport & moqt:// for QUIC".to_owned())
            }
        },
    }
}

} // verus!
