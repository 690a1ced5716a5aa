//! Addresses of services.

use crate::text::begins_with;
use crate::text::chars_of;
use crate::text::just;
use crate::text::starts_with;
use crate::text::trim;
use crate::text::trim_end;
use crate::text::trim_start;
use crate::text::trimmed;
use crate::text::without_leading;
use crate::text::without_trailing;
use vstd::prelude::*;

verus! {

/// A base address and a path with one slash between them.
pub open spec fn joined(base: Seq<char>, path: Seq<char>) -> Seq<char> {
    without_trailing(base, just('/')) + "/"@ + without_leading(path, just('/'))
}

/// The address of a path under a base address.
pub fn endpoint_url(base: &str, path: &str) -> (r: String)
    ensures
        r@ == joined(base@, path@),
{
    let mut url = trim_end(base, '/');
    url.append("/");
    url.append(trim_start(path, '/').as_str());
    url
}

/// The part of an address that names a host is not empty.
pub open spec fn http_url(value: Seq<char>) -> bool {
    let url = trimmed(value);
    (begins_with(url, "https://"@) || begins_with(url, "http://"@)) && url.len() > "http://"@.len()
}

/// Whether a value is the address of an HTTP service.
pub fn is_http_url(value: &str) -> (r: bool)
    ensures
        r == http_url(value@),
{
    let url = trim(value);
    let url = url.as_str();
    (starts_with(url, "https://") || starts_with(url, "http://")) && chars_of(url).len() > chars_of(
        "http://",
    ).len()
}

pub open spec fn websocket_url(value: Seq<char>) -> bool {
    let url = trimmed(value);
    (begins_with(url, "wss://"@) || begins_with(url, "ws://"@)) && url.len() > "ws://"@.len()
}

/// Whether a value is the address of a WebSocket service.
pub fn is_websocket_url(value: &str) -> (r: bool)
    ensures
        r == websocket_url(value@),
{
    let url = trim(value);
    let url = url.as_str();
    (starts_with(url, "wss://") || starts_with(url, "ws://")) && chars_of(url).len() > chars_of(
        "ws://",
    ).len()
}

/// An address without white space around it and slashes behind it.
pub open spec fn base_url(value: Seq<char>) -> Seq<char> {
    without_trailing(trimmed(value), just('/'))
}

/// Strips white space around an address and slashes behind it.
pub fn normalize_base_url(value: &str) -> (r: String)
    ensures
        r@ == base_url(value@),
{
    trim_end(trim(value).as_str(), '/')
}

/// The address of an HTTP service is one of no other kind, and holds more than the scheme.
pub proof fn addresses_have_their_scheme(value: Seq<char>)
    ensures
        http_url(value) ==> trimmed(value).len() > 7 && trimmed(value)[0] == 'h',
        websocket_url(value) ==> trimmed(value).len() > 5 && trimmed(value)[0] == 'w',
        !(http_url(value) && websocket_url(value)),
{
    reveal_strlit("https://");
    reveal_strlit("http://");
    reveal_strlit("wss://");
    reveal_strlit("ws://");
    let url = trimmed(value);
    if http_url(value) {
        assert(url.take(1)[0] == url[0]);
        assert("https://"@[0] == 'h' && "http://"@[0] == 'h');
    }
    if websocket_url(value) {
        assert("wss://"@[0] == 'w' && "ws://"@[0] == 'w');
    }
}

/// Between the base address and the path stands one slash, however many they bring along.
pub proof fn one_slash_joins_the_path(base: Seq<char>, path: Seq<char>, slashed: Seq<char>, led: Seq<char>)
    requires
        without_trailing(slashed, just('/')) == without_trailing(base, just('/')),
        without_leading(led, just('/')) == without_leading(path, just('/')),
    ensures
        joined(slashed, led) == joined(base, path),
        joined(base, path).len() == without_trailing(base, just('/')).len() + 1 + without_leading(
            path,
            just('/'),
        ).len(),
        joined(base, path)[without_trailing(base, just('/')).len() as int] == '/',
{
    reveal_strlit("/");
}

} // verus!
