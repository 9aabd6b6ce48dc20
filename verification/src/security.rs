//! The security headers that every answer carries.

use vstd::prelude::*;

verus! {

/// The security headers, name and value, in the order in which they are
/// set.
pub open spec fn security_headers_of() -> Seq<(Seq<char>, Seq<char>)> {
    seq![
        ("x-frame-options"@, "DENY"@),
        ("x-content-type-options"@, "nosniff"@),
        ("x-xss-protection"@, "1; mode=block"@),
        (
            "content-security-policy"@,
            "default-src 'self'; script-src 'self'; style-src 'self' 'unsafe-inline'; img-src 'self' data: https:; font-src 'self'; connect-src 'self'; frame-ancestors 'none';"@,
        ),
        ("referrer-policy"@, "strict-origin-when-cross-origin"@),
        (
            "permissions-policy"@,
            "geolocation=(), microphone=(), camera=(), payment=(), usb=()"@,
        ),
    ]
}

/// The name and value of each header.
pub open spec fn header_texts(v: Seq<(&'static str, &'static str)>) -> Seq<(Seq<char>, Seq<char>)> {
    Seq::new(v.len(), |i: int| (v[i].0@, v[i].1@))
}

/// The headers that are set on every answer: against framing, against
/// content sniffing, for the browser's own filter, and the policies on
/// content sources, referrers and device features.
pub fn security_headers() -> (r: Vec<(&'static str, &'static str)>)
    ensures
        header_texts(r@) == security_headers_of(),
{
    let mut out: Vec<(&'static str, &'static str)> = Vec::new();
    out.push(("x-frame-options", "DENY"));
    out.push(("x-content-type-options", "nosniff"));
    out.push(("x-xss-protection", "1; mode=block"));
    out.push(
        (
            "content-security-policy",
            "default-src 'self'; script-src 'self'; style-src 'self' 'unsafe-inline'; img-src 'self' data: https:; font-src 'self'; connect-src 'self'; frame-ancestors 'none';",
        ),
    );
    out.push(("referrer-policy", "strict-origin-when-cross-origin"));
    out.push(
        ("permissions-policy", "geolocation=(), microphone=(), camera=(), payment=(), usb=()"),
    );
    assert(header_texts(out@) =~= security_headers_of());
    out
}

} // verus!
