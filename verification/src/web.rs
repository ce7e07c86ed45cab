//! What a request to the storefront carries.

use vstd::prelude::*;
use vstd::string::StringExecFns;

verus! {

/// How the client names itself.
pub const USER_AGENT: &'static str = "Mozilla/5.0 (Windows NT 10.0; Win64; x64) \
    AppleWebKit/537.36 (KHTML, like Gecko) \
    Chrome/108.0.0.0 \
    Safari/537.36";

/// The letter that says whether adult items are shown.
pub open spec fn adult_letter(adult: bool) -> Seq<char> {
    if adult {
        "t"@
    } else {
        "f"@
    }
}

/// The value of the `Cookie` header: the session cookie, and whether adult
/// items are shown.
pub open spec fn cookie_of(cookie: Seq<char>, adult: bool) -> Seq<char> {
    "_plaza_session_nktz7u="@ + cookie + "; Secure; adult="@ + adult_letter(adult) + "; Secure"@
}

/// The value of the `Cookie` header for the session `cookie`.
pub fn cookie_header(cookie: &str, adult: bool) -> (header: String)
    ensures
        header@ == cookie_of(cookie@, adult),
{
    let mut header = String::from_str("_plaza_session_nktz7u=");
    header.append(cookie);
    header.append("; Secure; adult=");
    if adult {
        header.append("t");
    } else {
        header.append("f");
    }
    header.append("; Secure");
    header
}

} // verus!
