//! The cross-origin headers that every response of the service carries.
use vstd::prelude::*;

verus! {

/// The cross-origin policy of the service: any origin, the usual methods, any
/// header, with credentials.
pub struct CORS;

/// The header names and values, in the order in which they are set.
pub open spec fn cors_headers() -> Seq<(Seq<char>, Seq<char>)> {
    seq![
        ("Access-Control-Allow-Origin"@, "*"@),
        ("Access-Control-Allow-Methods"@, "POST, GET, PATCH, OPTIONS"@),
        ("Access-Control-Allow-Headers"@, "*"@),
        ("Access-Control-Allow-Credentials"@, "true"@),
    ]
}

impl CORS {
    /// The name under which the policy is installed.
    pub fn name(&self) -> (r: String)
        ensures
            r@ == "Add CORS headers to responses"@,
    {
        String::from_str("Add CORS headers to responses")
    }

    /// The headers to set on each response, as name and value.
    pub fn headers(&self) -> (r: Vec<(String, String)>)
        ensures
            r@.len() == cors_headers().len(),
            forall|i: int|
                0 <= i < r@.len() ==> (#[trigger] r@[i]).0@ == cors_headers()[i].0 && r@[i].1@
                    == cors_headers()[i].1,
    {
        let mut out: Vec<(String, String)> = Vec::new();
        out.push(
            (String::from_str("Access-Control-Allow-Origin"), String::from_str("*")),
        );
        out.push(
            (
                String::from_str("Access-Control-Allow-Methods"),
                String::from_str("POST, GET, PATCH, OPTIONS"),
            ),
        );
        out.push(
            (String::from_str("Access-Control-Allow-Headers"), String::from_str("*")),
        );
        out.push(
            (String::from_str("Access-Control-Allow-Credentials"), String::from_str("true")),
        );
        out
    }
}

} // verus!
