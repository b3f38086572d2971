use vstd::prelude::*;
use vstd::string::*;

verus! {

/// The start of a link to a message: `https:` unless the short form is
/// asked for.
pub open spec fn scheme_of(short: bool) -> Seq<char> {
    if short {
        Seq::empty()
    } else {
        "https:"@
    }
}

/// The link to message `message_uuid`.
pub open spec fn url_of(message_uuid: Seq<char>, short: bool) -> Seq<char> {
    scheme_of(short) + "//q.trap.jp/messages/"@ + message_uuid
}

/// The link to a message; the short form leaves out the scheme.
pub fn message_url(message_uuid: &str, short: bool) -> (r: String)
    ensures
        r@ == url_of(message_uuid@, short),
{
    let mut url = if short {
        String::new()
    } else {
        String::from_str("https:")
    };
    url.append("//q.trap.jp/messages/");
    url.append(message_uuid);
    url
}

} // verus!
