use vstd::prelude::*;
use crate::model::lex_leq;

verus! {

/// One namespace's subtree: its short name and the namespaces nested below
/// it.  What each namespace holds is the emitter's concern, not this core's.
pub struct TypeTree {
    pub namespace: String,
    pub nested: Vec<TypeTree>,
}

/// The namespace forest, keyed by top-level namespace name; the keys are kept
/// strictly increasing, as an ordered map would.
pub struct TypeNamespaces {
    pub entries: Vec<(String, TypeTree)>,
}

impl TypeNamespaces {
    /// Keys are sorted and unique.
    pub open spec fn wf(self) -> bool {
        forall|i: int, j: int|
            0 <= i < j < self.entries@.len() ==> lex_leq(
                self.entries@[i].0@,
                self.entries@[j].0@,
            ) && self.entries@[i].0@ != self.entries@[j].0@
    }

    pub fn new() -> (r: TypeNamespaces)
        ensures
            r.entries@.len() == 0,
            r.wf(),
    {
        TypeNamespaces { entries: Vec::new() }
    }
}

} // verus!
