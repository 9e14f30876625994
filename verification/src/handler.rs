//! Handlers as the router sees them: values it stores, hands out and names.

use vstd::prelude::*;
use vstd::string::*;
use crate::request::Request;

verus! {

/// A request handler or middleware. The router only stores handlers, hands
/// them out on a match and lists them by name.
pub trait Handler {
    spec fn spec_name(&self) -> Seq<char>;

    /// The name under which the router tree listing shows the handler.
    fn name(&self) -> (r: String)
        ensures
            r@ == self.spec_name(),
    ;
}


/// A value with the name under which listings show it: a handler whose
/// name is data rather than its type's name.
pub struct Named<T> {
    pub name: String,
    pub value: T,
}

impl<T> Named<T> {
    pub fn new(name: &str, value: T) -> (r: Named<T>)
        ensures
            r.name@ == name@,
            r.value == value,
    {
        Named { name: String::from_str(name), value }
    }
}

impl<T> Handler for Named<T> {
    open spec fn spec_name(&self) -> Seq<char> {
        self.name@
    }

    fn name(&self) -> (r: String) {
        self.name.clone()
    }
}

/// Middleware that runs `inner` only for requests that `filter` accepts,
/// given the request and the request's store of values (its depot).
pub struct WhenHoop<H, F> {
    pub inner: H,
    pub filter: F,
}

impl<H, F> WhenHoop<H, F> {
    /// Whether the guarded middleware runs for `req`, with `depot` the
    /// request's store of values: exactly when the filter accepts them.
    pub fn applies<D>(&self, req: &Request, depot: &D) -> (r: bool)
        where F: Fn(&Request, &D) -> bool,
        requires
            call_requires(self.filter, (req, depot)),
        ensures
            call_ensures(self.filter, (req, depot), r),
    {
        (self.filter)(req, depot)
    }
}

impl<H: Handler, F> Handler for WhenHoop<H, F> {
    open spec fn spec_name(&self) -> Seq<char> {
        self.inner.spec_name()
    }

    fn name(&self) -> (r: String) {
        self.inner.name()
    }
}

} // verus!
