//! What the route layer answers with: a redirect to a location the flow
//! controller chose.

use vstd::prelude::*;

verus! {

/// A redirect answer; its view is the location redirected to.
pub struct Redirect {
    to: String,
}

impl View for Redirect {
    type V = Seq<char>;

    closed spec fn view(&self) -> Seq<char> {
        self.to@
    }
}

impl Redirect {
    /// A redirect to the given location.
    pub fn new(to: String) -> (r: Self)
        ensures
            r@ == to@,
    {
        Redirect { to }
    }

    /// The value of the `Location` header this redirect answers with.
    pub fn location(self) -> (r: String)
        ensures
            r@ == self@,
    {
        self.to
    }
}

} // verus!
