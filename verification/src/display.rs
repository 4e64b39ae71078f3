//! Text shown to the user for optional values.
use vstd::prelude::*;
use crate::backend::LlamaCppVariant;
use crate::text::{decimal, decimal_string};

verus! {

/// A path, or `not found`.
pub fn display_optional_path(path: Option<&String>) -> (r: String)
    ensures
        r@ == match path {
            Some(p) => p@,
            None => "not found"@,
        },
{
    match path {
        Some(p) => p.clone(),
        None => "not found".to_owned(),
    }
}

/// The name of a build variant, or `not found`.
pub open spec fn spec_display_variant(variant: Option<LlamaCppVariant>) -> Seq<char> {
    match variant {
        Some(LlamaCppVariant::Cuda) => "CUDA"@,
        Some(LlamaCppVariant::Vulkan) => "Vulkan"@,
        Some(LlamaCppVariant::Other) => "other"@,
        None => "not found"@,
    }
}

/// Names a build variant.
pub fn display_variant(variant: Option<LlamaCppVariant>) -> (r: &'static str)
    ensures
        r@ == spec_display_variant(variant),
{
    match variant {
        Some(LlamaCppVariant::Cuda) => "CUDA",
        Some(LlamaCppVariant::Vulkan) => "Vulkan",
        Some(LlamaCppVariant::Other) => "other",
        None => "not found",
    }
}

/// A number in decimal, or `unknown`.
pub fn display_optional_number(value: Option<u32>) -> (r: String)
    ensures
        r@ == match value {
            Some(v) => decimal(v as nat),
            None => "unknown"@,
        },
{
    match value {
        Some(v) => decimal_string(v as u64),
        None => "unknown".to_owned(),
    }
}

} // verus!
