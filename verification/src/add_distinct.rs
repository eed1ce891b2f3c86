//! Assign a component only if it is distinct from the stored value.
//!
//! If the component is absent it is inserted; if it is present and differs
//! it is overwritten; if it is present and equal, nothing is written — so
//! an update-tracked storage stays clean.

use vstd::prelude::*;

use crate::storage::Storage;
use crate::update_one_to_one::eq_is_structural;

verus! {

impl<U: PartialEq> Storage<U> {
    /// Assigns `component` to `entity` unless the equal value is already
    /// stored; reports whether a write happened.
    pub fn add_distinct(&mut self, entity: u64, component: U) -> (r: bool)
        requires
            old(self).wf(),
            eq_is_structural::<U>(),
        ensures
            final(self).wf(),
            r == (old(self).spec_get(entity) != Some(component)),
            r ==> final(self).spec_get(entity) == Some(component) && forall|x: u64|
                x != entity ==> #[trigger] final(self).spec_get(x) == old(self).spec_get(x),
            !r ==> *final(self) == *old(self),
    {
        let mut equal = false;
        match self.get(entity) {
            Some(has_value) => {
                if component.eq(has_value) {
                    equal = true;
                }
            },
            None => {},
        }
        if equal {
            return false;
        }
        self.insert(entity, component);
        true
    }
}

} // verus!
