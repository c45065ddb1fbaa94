//! The pieces of diagnostic rendering that carry logic of their own; the
//! writer that colors and prints them belongs to the driver.

use vstd::prelude::*;
use crate::diagnostic::AnnotationType;

verus! {

/// The display name of an annotation type.
pub fn annotation_name(annotation_type: &AnnotationType) -> (r: &'static str)
    ensures
        annotation_type is Error ==> r@ == "error"@,
        annotation_type is Warning ==> r@ == "warning"@,
        annotation_type is Info ==> r@ == "info"@,
        annotation_type is Note ==> r@ == "note"@,
        annotation_type is Help ==> r@ == "help"@,
{
    match annotation_type {
        AnnotationType::Error => "error",
        AnnotationType::Warning => "warning",
        AnnotationType::Info => "info",
        AnnotationType::Note => "note",
        AnnotationType::Help => "help",
    }
}

} // verus!
