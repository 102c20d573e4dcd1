//! The kinds that carry content rather than structure, and are exempt from
//! re-entry.
use vstd::prelude::*;
use crate::definitions::ContextType;

verus! {

/// The kinds that are not structural scopes: a second match of one of them
/// while one of them is active is not a new entry.
pub struct LogicContext {
    contexts: Vec<ContextType>,
}

/// The kinds of the rule set.
pub open spec fn rule_kinds() -> Seq<ContextType> {
    seq![ContextType::DOCSTRING]
}

impl View for LogicContext {
    type V = Seq<ContextType>;

    closed spec fn view(&self) -> Seq<ContextType> {
        self.contexts@
    }
}

impl LogicContext {
    /// The rule set: docstrings alone.
    pub fn new() -> (r: LogicContext)
        ensures
            r@ == rule_kinds(),
    {
        let r = LogicContext { contexts: vec![ContextType::DOCSTRING] };
        assert(r.contexts@ =~= rule_kinds());
        r
    }

    /// Whether `context` is one of the kinds of the set.
    pub fn contains(&self, context: &ContextType) -> (r: bool)
        ensures
            r == self@.contains(*context),
    {
        let mut i: usize = 0;
        while i < self.contexts.len()
            invariant
                0 <= i <= self.contexts@.len(),
                forall|j: int| 0 <= j < i ==> self.contexts@[j] != *context,
            decreases self.contexts@.len() - i,
        {
            if self.contexts[i] == *context {
                assert(self.contexts@[i as int] == *context);
                return true;
            }
            i += 1;
        }
        false
    }
}

} // verus!
