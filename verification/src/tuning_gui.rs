//! Status text for the tuning GUI.
use crate::engine_loader::LoadSource;
use vstd::prelude::*;

verus! {

/// The text of `describe_source`.
pub open spec fn describe_source_text(label: Seq<char>, source: LoadSource) -> Seq<char> {
    match source {
        LoadSource::Disk(path) => label + ": "@ + path@,
        LoadSource::BundledFallback { .. } => label + ": bundled default"@,
    }
}

/// One line telling where a value was loaded from.
pub fn describe_source(label: &str, source: &LoadSource) -> (r: String)
    ensures
        r@ == describe_source_text(label@, *source),
{
    match source {
        LoadSource::Disk(path) => String::from_str(label).concat(": ").concat(path.as_str()),
        LoadSource::BundledFallback { .. } => String::from_str(label).concat(": bundled default"),
    }
}

} // verus!
