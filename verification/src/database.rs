//! How the database is prepared at the start.

use vstd::prelude::*;

verus! {

/// What is to be done about the schema of the database.
#[derive(Clone, Copy, Debug, PartialEq, Eq, Structural)]
pub enum SchemaStep {
    /// Drop everything and set the schema up anew.
    Reset,
    /// Find out which migrations are still to be applied.
    ListPending,
    /// Apply them.
    ApplyPending,
    /// Nothing: the database is ready.
    Ready,
}

/// What is done first: in development the database is reset, otherwise what is there
/// is kept.
pub fn first_schema_step(dev: bool) -> (step: SchemaStep)
    ensures
        step == (if dev { SchemaStep::Reset } else { SchemaStep::ListPending }),
{
    if dev {
        SchemaStep::Reset
    } else {
        SchemaStep::ListPending
    }
}

/// What is done when `pending` migrations were found still to be applied.
pub fn schema_step_after_listing(pending: usize) -> (step: SchemaStep)
    ensures
        step == (if pending == 0 { SchemaStep::Ready } else { SchemaStep::ApplyPending }),
{
    if pending == 0 {
        SchemaStep::Ready
    } else {
        SchemaStep::ApplyPending
    }
}

/// What is done when the schema was set up anew, or what was pending was applied:
/// nothing more.
pub fn schema_step_after(step: SchemaStep) -> (next: SchemaStep)
    requires
        step is Reset || step is ApplyPending,
    ensures
        next is Ready,
{
    match step {
        SchemaStep::Reset | SchemaStep::ApplyPending => SchemaStep::Ready,
        _ => step,
    }
}

} // verus!
