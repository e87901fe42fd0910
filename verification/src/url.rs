//! Which addresses may be fetched.

use crate::strings::{begins_with, to_small_letters};
use vstd::prelude::*;
#[allow(unused_imports)]
use crate::strings::{has_prefix, small, small_letters};

verus! {

/// Whether an address is one of the web: it begins with `http://` or
/// `https://`, in any mix of small and capital letters.
pub open spec fn is_web(address: Seq<char>) -> bool {
    has_prefix(small_letters(address), "http://"@) || has_prefix(
        small_letters(address),
        "https://"@,
    )
}

/// Whether a reference is to be fetched over the network.
pub fn is_http(dest: &str) -> (web: bool)
    ensures
        web == is_web(dest@),
{
    let lower: String = to_small_letters(dest);
    begins_with(lower.as_str(), "http://") || begins_with(lower.as_str(), "https://")
}

/// Reject anything but http(s) URLs.
///
/// The server may expose URL printing on the LAN, and other schemes (`file://`,
/// `javascript:`, `data:`) would let callers read local files or run arbitrary
/// content in the rendering browser.
pub fn validate_url(url: &str) -> (r: Result<(), String>)
    ensures
        r is Ok <==> is_web(url@),
        r matches Err(e) ==> e@ == "only http:// and https:// URLs can be printed (got `"@ + url@
            + "`)"@,
{
    if is_http(url) {
        return Ok(());
    }
    let mut e: String = "only http:// and https:// URLs can be printed (got `".to_owned();
    e.append(url);
    e.append("`)");
    Err(e)
}

/// Whether a character is a letter, small or capital.
pub open spec fn is_letter(c: char, small: char, capital: char) -> bool {
    c == small || c == capital
}

/// An address of the web spells its scheme out, with a colon and two slashes behind
/// it, at its very beginning; whatever follows does not matter.
pub proof fn web_addresses_begin_with_their_scheme(address: Seq<char>)
    ensures
        is_web(address) == {
            &&& address.len() >= 7
            &&& is_letter(address[0], 'h', 'H')
            &&& is_letter(address[1], 't', 'T')
            &&& is_letter(address[2], 't', 'T')
            &&& is_letter(address[3], 'p', 'P')
            &&& {
                ||| address[4] == ':' && address[5] == '/' && address[6] == '/'
                ||| address.len() >= 8 && is_letter(address[4], 's', 'S') && address[5] == ':'
                    && address[6] == '/' && address[7] == '/'
            }
        },
{
    let lower = small_letters(address);
    let plain = "http://"@;
    let safe = "https://"@;
    reveal_strlit("http://");
    reveal_strlit("https://");
    if address.len() >= 7 {
        let head = lower.take(7);
        assert(head == plain ==> head[0] == 'h' && head[1] == 't' && head[2] == 't' && head[3]
            == 'p' && head[4] == ':' && head[5] == '/' && head[6] == '/');
        if small(address[0]) == 'h' && small(address[1]) == 't' && small(address[2]) == 't'
            && small(address[3]) == 'p' && small(address[4]) == ':' && small(address[5]) == '/'
            && small(address[6]) == '/' {
            assert(head =~= plain);
        }
    }
    if address.len() >= 8 {
        let head = lower.take(8);
        assert(head == safe ==> head[0] == 'h' && head[1] == 't' && head[2] == 't' && head[3] == 'p'
            && head[4] == 's' && head[5] == ':' && head[6] == '/' && head[7] == '/');
        if small(address[0]) == 'h' && small(address[1]) == 't' && small(address[2]) == 't'
            && small(address[3]) == 'p' && small(address[4]) == 's' && small(address[5]) == ':'
            && small(address[6]) == '/' && small(address[7]) == '/' {
            assert(head =~= safe);
        }
    }
}

} // verus!
