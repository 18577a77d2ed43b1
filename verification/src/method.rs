//! The request methods this library supports: a closed set of four verbs.

use crate::error::Error;
use crate::error::ErrorType;
use crate::text::contains_char;
use crate::text::contains_crlf;
use crate::text::str_eq;
use vstd::prelude::*;

verus! {

/// A request method. The set is closed: there is no extension mechanism.
#[derive(Debug, PartialEq, Eq, Clone, Copy)]
pub enum Method {
    Get,
    Post,
    Delete,
    Put,
}

/// The canonical uppercase token of a method.
pub open spec fn method_token(m: Method) -> Seq<char> {
    match m {
        Method::Get => "GET"@,
        Method::Post => "POST"@,
        Method::Delete => "DELETE"@,
        Method::Put => "PUT"@,
    }
}

/// The method whose canonical token is `s`, if any. Matching is exact and
/// case-sensitive.
pub open spec fn method_from_token(s: Seq<char>) -> Option<Method> {
    if s == "GET"@ {
        Some(Method::Get)
    } else if s == "POST"@ {
        Some(Method::Post)
    } else if s == "DELETE"@ {
        Some(Method::Delete)
    } else if s == "PUT"@ {
        Some(Method::Put)
    } else {
        None
    }
}

/// Parsing a canonical method token gives back the method it renders.
pub proof fn lemma_method_token_round_trip(m: Method)
    ensures
        method_from_token(method_token(m)) == Some(m),
{
    reveal_strlit("GET");
    reveal_strlit("POST");
    reveal_strlit("DELETE");
    reveal_strlit("PUT");
    assert("GET"@.len() == 3 && "POST"@.len() == 4 && "DELETE"@.len() == 6 && "PUT"@.len() == 3);
    assert("PUT"@[0] == 'P' && "GET"@[0] == 'G');
}

/// A canonical method token is non-empty and holds neither a space nor a
/// CRLF pair.
pub proof fn lemma_method_token_plain(m: Method)
    ensures
        method_token(m).len() > 0,
        !contains_char(method_token(m), ' '),
        !contains_crlf(method_token(m)),
{
    reveal_strlit("GET");
    reveal_strlit("POST");
    reveal_strlit("DELETE");
    reveal_strlit("PUT");
}

impl Method {
    /// Parses a method token by exact, case-sensitive match against the
    /// four canonical tokens; every other token, lowercase variants and
    /// the empty string included, is rejected with a parse error.
    pub fn from_string(method_string: &str) -> (r: Result<Method, Error>)
        ensures
            r is Ok <==> method_from_token(method_string@) is Some,
            r matches Ok(m) ==> method_from_token(method_string@) == Some(m),
            r matches Err(e) ==> e.error == ErrorType::ParseError && e.error_msg@
                == "Unknown method"@,
    {
        if str_eq(method_string, "GET") {
            Ok(Method::Get)
        } else if str_eq(method_string, "POST") {
            Ok(Method::Post)
        } else if str_eq(method_string, "DELETE") {
            Ok(Method::Delete)
        } else if str_eq(method_string, "PUT") {
            Ok(Method::Put)
        } else {
            Err(Error::parse_error("Unknown method"))
        }
    }

    /// The canonical uppercase token of this method.
    pub fn as_token(&self) -> (r: &'static str)
        ensures
            r@ == method_token(*self),
    {
        match self {
            Method::Get => "GET",
            Method::Post => "POST",
            Method::Delete => "DELETE",
            Method::Put => "PUT",
        }
    }
}

} // verus!
