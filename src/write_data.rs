use vstd::prelude::*;

use crate::field_type::{lower_of, type_of_name, FieldType};

verus! {

/// Whether the text names a column type, in any case. A text that names no
/// type is answered with `false`, a failure the caller handles, rather than
/// by stopping the program.
pub fn validate_type(input_type: String) -> (r: bool)
    ensures
        r == type_of_name(lower_of(input_type@)) is Some,
{
    FieldType::from_str(&input_type).is_some()
}

} // verus!
