//! Schema optimization suggestions.
use vstd::prelude::*;
use crate::schema::Schema;

verus! {

/// One optimization suggestion.
#[derive(Debug)]
pub struct Suggestion {
    pub rule: String,
    pub message: String,
    pub table: Option<String>,
}

impl Clone for Suggestion {
    fn clone(&self) -> (r: Self)
        ensures
            r.rule@ == self.rule@,
            r.message@ == self.message@,
            r.table.deep_view() == self.table.deep_view(),
    {
        Suggestion {
            rule: self.rule.clone(),
            message: self.message.clone(),
            table: crate::text::copy_opt_string(&self.table),
        }
    }
}

/// Analyzes a schema and returns optimization suggestions. No optimization
/// rule exists yet, so there are none.
pub fn analyze(_schema: &Schema) -> (r: Vec<Suggestion>)
    ensures
        r@.len() == 0,
{
    Vec::new()
}

} // verus!
