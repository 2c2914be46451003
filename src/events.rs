//! Internal events.
use vstd::prelude::*;

verus! {

/// A value could not be converted to the type configured for its field.
pub struct CoercerConversionFailed<'a> {
    /// The field whose value failed to convert.
    pub field: &'a str,
    /// What went wrong.
    pub error: String,
}

} // verus!
