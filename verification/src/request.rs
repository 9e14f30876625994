//! The parts of an HTTP request that routing decisions read: method, and
//! the scheme, host, port and path of its URI.

use vstd::prelude::*;

verus! {

/// An HTTP request method.
#[derive(Clone, Copy, Debug, PartialEq, Eq, Structural)]
pub enum Method {
    Get,
    Post,
    Put,
    Delete,
    Patch,
    Head,
    Options,
    Connect,
    Trace,
}

/// The name of a method, as HTTP writes it.
pub open spec fn method_name(m: Method) -> Seq<char> {
    match m {
        Method::Get => seq!['G', 'E', 'T'],
        Method::Post => seq!['P', 'O', 'S', 'T'],
        Method::Put => seq!['P', 'U', 'T'],
        Method::Delete => seq!['D', 'E', 'L', 'E', 'T', 'E'],
        Method::Patch => seq!['P', 'A', 'T', 'C', 'H'],
        Method::Head => seq!['H', 'E', 'A', 'D'],
        Method::Options => seq!['O', 'P', 'T', 'I', 'O', 'N', 'S'],
        Method::Connect => seq!['C', 'O', 'N', 'N', 'E', 'C', 'T'],
        Method::Trace => seq!['T', 'R', 'A', 'C', 'E'],
    }
}

impl Method {
    /// The name of the method, as HTTP writes it.
    pub fn name_chars(&self) -> (r: Vec<char>)
        ensures
            r@ == method_name(*self),
    {
        let r: Vec<char> = match self {
            Method::Get => vec!['G', 'E', 'T'],
            Method::Post => vec!['P', 'O', 'S', 'T'],
            Method::Put => vec!['P', 'U', 'T'],
            Method::Delete => vec!['D', 'E', 'L', 'E', 'T', 'E'],
            Method::Patch => vec!['P', 'A', 'T', 'C', 'H'],
            Method::Head => vec!['H', 'E', 'A', 'D'],
            Method::Options => vec!['O', 'P', 'T', 'I', 'O', 'N', 'S'],
            Method::Connect => vec!['C', 'O', 'N', 'N', 'E', 'C', 'T'],
            Method::Trace => vec!['T', 'R', 'A', 'C', 'E'],
        };
        assert(r@ =~= method_name(*self));
        r
    }
}

/// A URI scheme that a router can require: `http`, `https` or another one,
/// written as URIs write it.
#[derive(Clone, Debug, PartialEq, Eq)]
pub enum Scheme {
    Http,
    Https,
    Other(String),
}

/// The name of a scheme, as URIs write it.
pub open spec fn scheme_name(s: Scheme) -> Seq<char> {
    match s {
        Scheme::Http => seq!['h', 't', 't', 'p'],
        Scheme::Https => seq!['h', 't', 't', 'p', 's'],
        Scheme::Other(name) => name@,
    }
}

impl Scheme {
    /// The name of the scheme, as URIs write it.
    pub fn name_chars(&self) -> (r: Vec<char>)
        ensures
            r@ == scheme_name(*self),
    {
        let r: Vec<char> = match self {
            Scheme::Http => vec!['h', 't', 't', 'p'],
            Scheme::Https => vec!['h', 't', 't', 'p', 's'],
            Scheme::Other(name) => crate::text::chars_of(name.as_str()),
        };
        assert(r@ =~= scheme_name(*self));
        r
    }
}

/// The request as routing sees it: method, scheme, host, port and path.
pub struct Request {
    pub method: Method,
    pub scheme: Option<String>,
    pub host: Option<String>,
    pub port: Option<u16>,
    pub path: String,
}

/// The mathematical value of a [`Request`].
pub struct RequestView {
    pub method: Method,
    pub scheme: Option<Seq<char>>,
    pub host: Option<Seq<char>>,
    pub port: Option<u16>,
    pub path: Seq<char>,
}

/// The characters of an optional string.
pub open spec fn opt_view(s: Option<String>) -> Option<Seq<char>> {
    match s {
        Some(x) => Some(x@),
        None => None,
    }
}

impl View for Request {
    type V = RequestView;

    open spec fn view(&self) -> RequestView {
        RequestView {
            method: self.method,
            scheme: opt_view(self.scheme),
            host: opt_view(self.host),
            port: self.port,
            path: self.path@,
        }
    }
}


} // verus!
