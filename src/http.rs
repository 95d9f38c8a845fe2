//! The decisions of the small HTTP server: which page a request target
//! names, what body it gets, and the response text around that body.
use vstd::prelude::*;

use crate::query::decimal;

verus! {

/// The pages the server knows.
#[derive(Clone, Copy, Debug, PartialEq, Eq, Structural)]
pub enum Route {
    /// `/`: a greeting.
    Root,
    /// `/hello`: the contents of the hello page file.
    Hello,
    /// Anything else.
    NotFound,
}

/// The page that the request target `path` names.
pub open spec fn route_of(path: Seq<char>) -> Route {
    if path == seq!['/'] {
        Route::Root
    } else if path == seq!['/', 'h', 'e', 'l', 'l', 'o'] {
        Route::Hello
    } else {
        Route::NotFound
    }
}

/// Which page the request target `path` names.
pub fn route(path: &str) -> (r: Route)
    ensures
        r == route_of(path@),
{
    let p = String::from_str(path);
    proof {
        reveal_strlit("/");
        reveal_strlit("/hello");
        assert("/"@ =~= seq!['/']);
        assert("/hello"@ =~= seq!['/', 'h', 'e', 'l', 'l', 'o']);
    }
    if p == String::from_str("/") {
        Route::Root
    } else if p == String::from_str("/hello") {
        Route::Hello
    } else {
        Route::NotFound
    }
}

/// The body served for `route`. `hello_page` is what reading the hello
/// page file gave, `None` when that failed; it is used for `Route::Hello` only.
pub fn response_body(route: Route, hello_page: Option<String>) -> (r: String)
    ensures
        route == Route::Root ==> r@ == "hello world"@,
        route == Route::NotFound ==> r@ == "Not Found"@,
        route == Route::Hello ==> match hello_page {
            Some(page) => r@ == page@,
            None => r@ == "Error reading hello.html"@,
        },
{
    match route {
        Route::Root => String::from_str("hello world"),
        Route::Hello => match hello_page {
            Some(page) => page,
            None => String::from_str("Error reading hello.html"),
        },
        Route::NotFound => String::from_str("Not Found"),
    }
}

/// Relies on usize's Display, through to_string: its decimal digits.
#[verifier::external_body]
fn usize_decimal(n: usize) -> (r: String)
    ensures
        r@ == decimal(n as nat),
{
    n.to_string()
}

/// A `200 OK` response carrying `body`, with its length in bytes.
pub fn http_response(body: &str) -> (r: String)
    ensures
        r@ == "HTTP/1.1 200 OK\r\nContent-Length: "@ + decimal(body.len() as nat) + "\r\n\r\n"@
            + body@,
{
    let head = "HTTP/1.1 200 OK\r\nContent-Length: ";
    let mut r = String::from_str(head);
    let len = usize_decimal(body.len());
    r.append(len.as_str());
    let gap = "\r\n\r\n";
    r.append(gap);
    r.append(body);
    assert(r@ =~= head@ + len@ + gap@ + body@);
    r
}

} // verus!
