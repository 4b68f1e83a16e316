//! The nesting counter that bounds how deep records may nest.
use vstd::prelude::*;

verus! {

/// The deepest level a record may be read at.
pub const MAX_DEPTH: usize = 900;

/// A handle on one nesting level. The root handle has level 0; each record
/// that is being read holds a handle one level below that of the record
/// around it, so a level never exceeds `MAX_DEPTH`.
#[derive(Debug)]
pub struct Depth {
    level: usize,
}

impl Depth {
    /// How many records are open at this handle.
    pub closed spec fn level(&self) -> nat {
        self.level as nat
    }

    #[verifier::type_invariant]
    spec fn within_limit(&self) -> bool {
        self.level <= MAX_DEPTH
    }

    /// The root handle, with no record open.
    #[must_use]
    pub fn new() -> (r: Self)
        ensures
            r.level() == 0,
    {
        Depth { level: 0 }
    }

    /// A handle for a record nested in this one: `None` once `MAX_DEPTH`
    /// records are open, otherwise a handle one level further down.
    pub fn try_clone(&self) -> (r: Option<Self>)
        ensures
            r is Some <==> self.level() < MAX_DEPTH,
            r matches Some(d) ==> d.level() == self.level() + 1,
    {
        proof {
            use_type_invariant(self);
        }
        if self.level >= MAX_DEPTH {
            None
        } else {
            Some(Depth { level: self.level + 1 })
        }
    }

    /// The level as a machine integer.
    pub fn get(&self) -> (r: usize)
        ensures
            r == self.level(),
            r <= MAX_DEPTH,
    {
        proof {
            use_type_invariant(self);
        }
        self.level
    }
}

} // verus!
