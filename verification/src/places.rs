//! Places where cats are seen and fed.

use vstd::prelude::*;

verus! {

/// The body of a request that adds a place.
#[derive(Clone, Debug)]
pub struct PlacePost {
    pub details: String,
}

impl Default for PlacePost {
    fn default() -> (r: Self)
        ensures
            r.details@ == Seq::<char>::empty(),
    {
        PlacePost { details: String::new() }
    }
}

/// A place as stored in the `Place` table.
#[derive(Clone, Debug)]
pub struct PlaceDB {
    pub id: u32,
    pub details: String,
}

impl Default for PlaceDB {
    fn default() -> (r: Self)
        ensures
            r.id == 0,
            r.details@ == Seq::<char>::empty(),
    {
        PlaceDB { id: 0, details: String::new() }
    }
}

impl PlaceDB {
    /// A field-by-field copy.
    pub fn copy(&self) -> (r: Self)
        ensures
            r == *self,
    {
        PlaceDB { id: self.id, details: self.details.clone() }
    }
}

} // verus!
