//! Engine selection and status text for the valve-lift designer.
use crate::engine_loader::{catalog_label_text, EngineCatalogEntry, LoadSource};
use crate::path_text::{is_same_path, same_path};
use vstd::prelude::*;

verus! {

/// A single entry for the default engine path.
pub open spec fn is_default_only(options: Seq<EngineCatalogEntry>, default_path: Seq<char>) -> bool {
    options.len() == 1 && options[0].path@ == default_path && options[0].label@
        == catalog_label_text(default_path)
}

/// The engines to offer: the discovered catalog when it lists any, otherwise
/// just the default engine path.
pub fn engine_options_or_default(
    discovered: Result<Vec<EngineCatalogEntry>, String>,
    default_path: &str,
) -> (r: Vec<EngineCatalogEntry>)
    ensures
        r.len() > 0,
        match discovered {
            Ok(entries) => if entries.len() > 0 {
                r@ == entries@
            } else {
                is_default_only(r@, default_path@)
            },
            Err(_) => is_default_only(r@, default_path@),
        },
{
    match discovered {
        Ok(entries) => {
            if entries.len() > 0 {
                return entries;
            }
        },
        Err(_) => {},
    }
    let mut fallback: Vec<EngineCatalogEntry> = Vec::new();
    fallback.push(EngineCatalogEntry::from_path(String::from_str(default_path)));
    fallback
}

/// Index of the first entry whose path has the components of `path`.
fn position_of_path(options: &Vec<EngineCatalogEntry>, path: &str) -> (r: Option<usize>)
    ensures
        match r {
            Some(i) => i < options.len() && same_path(options[i as int].path@, path@) && forall|
                j: int,
            | 0 <= j < i ==> !same_path((#[trigger] options[j]).path@, path@),
            None => forall|j: int|
                0 <= j < options.len() ==> !same_path((#[trigger] options[j]).path@, path@),
        },
{
    let mut i: usize = 0;
    while i < options.len()
        invariant
            i <= options.len(),
            forall|j: int| 0 <= j < i ==> !same_path((#[trigger] options[j]).path@, path@),
        decreases options.len() - i,
    {
        if is_same_path(options[i].path.as_str(), path) {
            return Some(i);
        }
        i += 1;
    }
    None
}

/// The engine to open first: the first option naming the default engine's
/// path (its components, as paths compare), otherwise the first option,
/// otherwise the default path.
pub fn initial_engine_path(options: &Vec<EngineCatalogEntry>, default_path: &str) -> (r: String)
    ensures
        (exists|i: int| 0 <= i < options.len() && same_path((#[trigger] options[i]).path@, default_path@))
            ==> exists|i: int|
            0 <= i < options.len() && same_path((#[trigger] options[i]).path@, default_path@)
                && r@ == options[i].path@ && forall|j: int|
                0 <= j < i ==> !same_path((#[trigger] options[j]).path@, default_path@),
        (forall|i: int| 0 <= i < options.len() ==> !same_path((#[trigger] options[i]).path@, default_path@))
            && options.len() > 0 ==> r@ == options[0].path@,
        options.len() == 0 ==> r@ == default_path@,
{
    match position_of_path(options, default_path) {
        Some(i) => options[i].path.clone(),
        None => {
            if options.len() > 0 {
                options[0].path.clone()
            } else {
                String::from_str(default_path)
            }
        },
    }
}

/// One line telling where a value was loaded from.
pub fn describe_source(label: &str, source: &LoadSource) -> (r: String)
    ensures
        r@ == describe_source_text(label@, *source),
{
    match source {
        LoadSource::Disk(path) => String::from_str(label).concat(": ").concat(path.as_str()),
        LoadSource::BundledFallback { reason } => String::from_str(label).concat(
            ": bundled fallback (",
        ).concat(reason.as_str()).concat(")"),
    }
}

/// The status line for an engine and its handling configuration.
pub fn load_status(engine_source: &LoadSource, handling_source: &LoadSource) -> (r: String)
    ensures
        r@ == describe_source_text("engine"@, *engine_source) + " | "@ + describe_source_text(
            "handling"@,
            *handling_source,
        ),
{
    let engine = describe_source("engine", engine_source);
    let handling = describe_source("handling", handling_source);
    engine.concat(" | ").concat(handling.as_str())
}

/// The text of `describe_source`.
pub open spec fn describe_source_text(label: Seq<char>, source: LoadSource) -> Seq<char> {
    match source {
        LoadSource::Disk(path) => label + ": "@ + path@,
        LoadSource::BundledFallback { reason } => label + ": bundled fallback ("@ + reason@
            + ")"@,
    }
}

/// The label of the selected engine: the catalog label of the first option
/// naming its path (its components, as paths compare), otherwise the committed
/// engine's name.
pub fn selected_engine_label(
    options: &Vec<EngineCatalogEntry>,
    engine_path: &str,
    committed_name: &str,
) -> (r: String)
    ensures
        (exists|i: int| 0 <= i < options.len() && same_path((#[trigger] options[i]).path@, engine_path@))
            ==> exists|i: int|
            0 <= i < options.len() && same_path((#[trigger] options[i]).path@, engine_path@)
                && r@ == options[i].label@ && forall|j: int|
                0 <= j < i ==> !same_path((#[trigger] options[j]).path@, engine_path@),
        (forall|i: int| 0 <= i < options.len() ==> !same_path((#[trigger] options[i]).path@, engine_path@))
            ==> r@ == committed_name@,
{
    match position_of_path(options, engine_path) {
        Some(i) => options[i].label.clone(),
        None => String::from_str(committed_name),
    }
}

} // verus!
