//! The simple database: values live only in the blob store.

use vstd::prelude::*;

verus! {

/// A database without cache or index: each value is one blob in the blob store
/// under `location`.
pub struct SimpleDB {
    location: String,
}

impl SimpleDB {
    /// The root of the blob store.
    pub closed spec fn root(&self) -> Seq<char> {
        self.location@
    }

    pub fn new(location: &str) -> (r: Self)
        ensures
            r.root() == location@,
    {
        SimpleDB { location: location.to_owned() }
    }

    /// The root of the blob store.
    pub fn location(&self) -> (r: &str)
        ensures
            r@ == self.root(),
    {
        self.location.as_str()
    }
}

} // verus!
