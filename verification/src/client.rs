//! The client: a webhook destination URL, held as an opaque string. The
//! network exchange itself is the calling layer's business; the client
//! only carries the destination that the payload is posted to.

use vstd::prelude::*;
use vstd::string::StrSliceExecFns;

verus! {

/// A message API client: the destination URL, treated as opaque and not
/// validated for well-formedness by this layer.
#[derive(Debug)]
pub struct Client {
    url: String,
}

impl View for Client {
    type V = Seq<char>;

    closed spec fn view(&self) -> Seq<char> {
        self.url@
    }
}

impl Client {
    /// Create a new client for the given webhook URL.
    pub fn new(url: &str) -> (c: Self)
        ensures
            c@ == url@,
    {
        Client { url: url.to_owned() }
    }

    /// The destination URL this client posts to.
    pub fn url(&self) -> (r: &String)
        ensures
            r@ == self@,
    {
        &self.url
    }
}

} // verus!
