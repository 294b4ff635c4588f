use vstd::prelude::*;

verus! {

/// The cross-origin headers added to every response, as (name, value) pairs.
pub open spec fn cors_headers() -> Seq<(Seq<char>, Seq<char>)> {
    seq![
        ("Access-Control-Allow-Origin"@, "*"@),
        ("Access-Control-Allow-Methods"@, "POST, GET, PATCH, OPTIONS"@),
        ("Access-Control-Allow-Headers"@, "*"@),
        ("Access-Control-Allow-Credentials"@, "true"@),
    ]
}

/// The response decorator that permits cross-origin use of the relay.
pub struct CORS;

impl CORS {
    /// The decorator's display name.
    pub fn name(&self) -> (r: &'static str)
        ensures
            r@ == "Add CORS headers to responses"@,
    {
        "Add CORS headers to responses"
    }

    /// The headers set on every response, in the order they are set.
    pub fn headers(&self) -> (r: Vec<(String, String)>)
        ensures
            r@.len() == cors_headers().len(),
            forall|i: int|
                0 <= i < r@.len() ==> ((#[trigger] r@[i]).0@, r@[i].1@) == cors_headers()[i],
    {
        let mut r: Vec<(String, String)> = Vec::new();
        r.push((String::from_str("Access-Control-Allow-Origin"), String::from_str("*")));
        r.push(
            (
                String::from_str("Access-Control-Allow-Methods"),
                String::from_str("POST, GET, PATCH, OPTIONS"),
            ),
        );
        r.push((String::from_str("Access-Control-Allow-Headers"), String::from_str("*")));
        r.push((String::from_str("Access-Control-Allow-Credentials"), String::from_str("true")));
        r
    }
}

} // verus!
