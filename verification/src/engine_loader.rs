//! Locating engine definition files and their sibling handling files, and
//! deciding where a loaded engine and handling configuration came from.
use crate::path_text::{
    final_component, lemma_final_component, lemma_final_component_after, lemma_join_below_parent,
    lemma_last_index_before, lemma_parent_shape,
    ends_with_text, extension, extension_of_name, file_name, file_name_text, file_stem,
    file_stem_text, has_suffix, join, joined_text, parent, parent_text, text_eq,
};
use crate::catalog_order::{
    catalog_key, catalog_key_le, catalog_le, catalog_relation, lemma_catalog_le_total,
    lemma_catalog_le_transitive, lemma_catalog_order_is_total_preorder, CatalogKey,
};
use vstd::prelude::*;
use vstd::relations::{sorted_by, total_ordering};

verus! {

/// The file-name ending that marks a handling file.
pub open spec fn handling_suffix() -> Seq<char> {
    ".handling.json"@
}

/// The extension of an engine definition file.
pub open spec fn json_extension() -> Seq<char> {
    "json"@
}

/// The sibling handling path of an engine path: `foo.json` -> `foo.handling.json`.
pub open spec fn handling_path_text(engine_path: Seq<char>) -> Seq<char> {
    let stem = match file_stem_text(engine_path) {
        Some(stem) => stem,
        None => Seq::<char>::empty(),
    };
    let name = stem + handling_suffix();
    match parent_text(engine_path) {
        Some(dir) => joined_text(dir, name),
        None => name,
    }
}

/// A path names an engine definition when it is a `.json` file that is not a
/// `.handling.json` file.
pub open spec fn is_engine_definition_text(path: Seq<char>) -> bool {
    match file_name_text(path) {
        Some(name) => extension_of_name(name) == Some(json_extension()) && !has_suffix(
            name,
            handling_suffix(),
        ),
        None => false,
    }
}

/// The label a catalog shows for a path: its file stem, or the whole path.
pub open spec fn catalog_label_text(path: Seq<char>) -> Seq<char> {
    match file_stem_text(path) {
        Some(stem) => stem,
        None => path,
    }
}

/// A handling path is the sibling of its engine path: both share the same
/// parent, and the handling file is named after the engine file's stem with
/// `.handling.json` appended. It is never itself taken for an engine definition.
pub proof fn lemma_handling_path_is_sibling(engine_path: Seq<char>)
    ensures
        parent_text(engine_path) is Some ==> parent_text(handling_path_text(engine_path))
            == parent_text(engine_path),
        file_name_text(handling_path_text(engine_path)) == Some(
            match file_stem_text(engine_path) {
                Some(stem) => stem,
                None => Seq::<char>::empty(),
            } + handling_suffix(),
        ),
        !is_engine_definition_text(handling_path_text(engine_path)),
{
    reveal_strlit(".handling.json");
    let stem = match file_stem_text(engine_path) {
        Some(stem) => stem,
        None => Seq::<char>::empty(),
    };
    let name = stem + handling_suffix();
    lemma_final_component(engine_path);
    let comp = final_component(engine_path);
    if file_name_text(engine_path) is Some {
        lemma_last_index_before(comp, comp.len() as int, '.');
        assert forall|j: int| 0 <= j < stem.len() implies stem[j] != '/' by {
            assert(stem[j] == comp[j]);
        }
    }
    assert forall|j: int| 0 <= j < name.len() implies name[j] != '/' by {
        if j >= stem.len() {
            assert(name[j] == handling_suffix()[j - stem.len()]);
        }
    }
    assert(name.len() >= 14);
    assert(name != seq!['.'] && name != seq!['.', '.']);
    assert(has_suffix(name, handling_suffix())) by {
        assert(name.subrange(name.len() - 14, name.len() as int) =~= handling_suffix());
    }
    match parent_text(engine_path) {
        Some(dir) => {
            lemma_parent_shape(engine_path);
            lemma_join_below_parent(dir, name);
        },
        None => {
            assert(name =~= Seq::<char>::empty() + name);
            lemma_final_component_after(Seq::<char>::empty(), name);
        },
    }
}

/// The directory of bundled engine files below the crate directory.
pub open spec fn engine_directory_text(manifest_dir: Seq<char>) -> Seq<char> {
    joined_text(manifest_dir, "data/engines"@)
}

/// The bundled default engine file below the crate directory.
pub open spec fn engine_path_text(manifest_dir: Seq<char>) -> Seq<char> {
    joined_text(engine_directory_text(manifest_dir), "gn250.json"@)
}

/// The directory of bundled engine definitions, below the given crate directory.
pub fn default_engine_directory(manifest_dir: &str) -> (r: String)
    ensures
        r@ == engine_directory_text(manifest_dir@),
{
    join(manifest_dir, "data/engines")
}

/// The bundled default engine definition, below the given crate directory.
pub fn default_engine_path(manifest_dir: &str) -> (r: String)
    ensures
        r@ == engine_path_text(manifest_dir@),
{
    let dir = default_engine_directory(manifest_dir);
    join(dir.as_str(), "gn250.json")
}

/// One engine definition offered for selection.
#[derive(Debug, Clone, PartialEq, Eq)]
pub struct EngineCatalogEntry {
    pub path: String,
    pub label: String,
}

impl EngineCatalogEntry {
    /// An entry for `path`, labelled with the file stem (or the whole path when
    /// it has no stem).
    pub fn from_path(path: String) -> (r: Self)
        ensures
            r.path@ == path@,
            r.label@ == catalog_label_text(path@),
    {
        let label = match file_stem(path.as_str()) {
            Some(stem) => stem,
            None => path.clone(),
        };
        EngineCatalogEntry { path, label }
    }
}

/// Where a loaded value came from, so the GUI can show whether it is editing
/// on-disk data or the binary's bundled fallback.
#[derive(Debug, Clone, PartialEq, Eq)]
pub enum LoadSource {
    /// Parsed from the given file on disk.
    Disk(String),
    /// The file was missing or unparseable; the bundled default was used.
    BundledFallback { reason: String },
}

impl LoadSource {
    /// True when the value was read from disk.
    pub fn is_disk(&self) -> (b: bool)
        ensures
            b == (self is Disk),
    {
        match self {
            LoadSource::Disk(_) => true,
            LoadSource::BundledFallback { .. } => false,
        }
    }
}

/// Sibling handling path for an engine JSON path: `foo.json` -> `foo.handling.json`.
pub fn handling_path_for(engine_path: &str) -> (r: String)
    ensures
        r@ == handling_path_text(engine_path@),
{
    let stem = match file_stem(engine_path) {
        Some(stem) => stem,
        None => String::new(),
    };
    let file_name = stem.concat(".handling.json");
    match parent(engine_path) {
        Some(dir) => join(dir.as_str(), file_name.as_str()),
        None => file_name,
    }
}

/// True for `.json` files that are not `.handling.json` files.
pub fn is_engine_definition_path(path: &str) -> (b: bool)
    ensures
        b == is_engine_definition_text(path@),
{
    match extension(path) {
        None => false,
        Some(ext) => {
            if !text_eq(ext.as_str(), "json") {
                return false;
            }
            match file_name(path) {
                None => false,
                Some(name) => !ends_with_text(name.as_str(), ".handling.json"),
            }
        },
    }
}

/// The texts of a sequence of strings.
pub open spec fn texts(v: Seq<String>) -> Seq<Seq<char>> {
    v.map_values(|s: String| s@)
}

/// Keeps the paths that name engine definitions.
pub open spec fn engine_definition_filter() -> spec_fn(Seq<char>) -> bool {
    |p: Seq<char>| is_engine_definition_text(p)
}

/// The engine definitions among the paths of a listing, in listing order.
pub open spec fn engine_definitions(listing: Seq<Seq<char>>) -> Seq<Seq<char>> {
    listing.filter(engine_definition_filter())
}

/// Catalog order on the positions of `defs`: by the catalog order of the
/// paths there, and by position between paths that tie, so that tied paths
/// keep their listing order.
pub open spec fn position_order(defs: Seq<Seq<char>>) -> spec_fn(int, int) -> bool {
    |i: int, j: int| catalog_le(defs[i], defs[j]) && (catalog_le(defs[j], defs[i]) ==> i <= j)
}

/// The positions of `defs` in the order a catalog lists them.
pub open spec fn catalog_positions(defs: Seq<Seq<char>>) -> Seq<int> {
    Seq::new(defs.len(), |k: int| k).sort_by(position_order(defs))
}

/// The paths a catalog lists for a directory listing: the engine definitions,
/// in catalog order, tied paths in listing order.
pub open spec fn catalog_paths(listing: Seq<Seq<char>>) -> Seq<Seq<char>> {
    let defs = engine_definitions(listing);
    catalog_positions(defs).map_values(|k: int| defs[k])
}

/// Ordering positions by catalog order, then by position, is a total order.
proof fn lemma_position_order_is_total(defs: Seq<Seq<char>>)
    ensures
        total_ordering(position_order(defs)),
{
    let r = position_order(defs);
    lemma_catalog_order_is_total_preorder();
    assert forall|i: int| #[trigger] r(i, i) by {
        assert(catalog_relation()(defs[i], defs[i]));
    }
    assert forall|i: int, j: int| #[trigger] r(i, j) && #[trigger] r(j, i) implies i == j by {}
    assert forall|i: int, j: int, k: int| #[trigger] r(i, j) && #[trigger] r(j, k) implies r(
        i,
        k,
    ) by {
        lemma_catalog_le_transitive(defs[i], defs[j], defs[k]);
        if catalog_le(defs[k], defs[i]) {
            lemma_catalog_le_transitive(defs[k], defs[i], defs[j]);
            lemma_catalog_le_transitive(defs[j], defs[k], defs[i]);
        }
    }
    assert forall|i: int, j: int| #[trigger] r(i, j) || #[trigger] r(j, i) by {
        lemma_catalog_le_total(defs[i], defs[j]);
    }
}

/// A catalog lists exactly the engine definitions of its directory listing
/// (never a handling file or any other file), in catalog order; of two paths
/// that tie, the one listed first comes first.
pub proof fn lemma_catalog_lists_exactly_engine_definitions(listing: Seq<Seq<char>>)
    ensures
        sorted_by(catalog_paths(listing), catalog_relation()),
        forall|a: int, b: int|
            0 <= a < b < catalog_paths(listing).len() && catalog_le(
                #[trigger] catalog_paths(listing)[b],
                #[trigger] catalog_paths(listing)[a],
            ) ==> catalog_positions(engine_definitions(listing))[a] < catalog_positions(
                engine_definitions(listing),
            )[b],
        forall|p: Seq<char>|
            #[trigger] catalog_paths(listing).contains(p) <==> (listing.contains(p)
                && is_engine_definition_text(p)),
{
    let pred = engine_definition_filter();
    let defs = engine_definitions(listing);
    let all_positions = Seq::new(defs.len(), |k: int| k);
    let order = catalog_positions(defs);
    let paths = catalog_paths(listing);
    lemma_position_order_is_total(defs);
    all_positions.lemma_sort_by_ensures(position_order(defs));
    assert forall|a: int, b: int| 0 <= a < b < paths.len() implies #[trigger] catalog_relation()(
        paths[a],
        paths[b],
    ) by {
        assert(position_order(defs)(order[a], order[b]));
    }
    assert(all_positions.no_duplicates());
    all_positions.lemma_multiset_has_no_duplicates();
    order.lemma_multiset_has_no_duplicates_conv();
    assert forall|a: int, b: int|
        0 <= a < b < paths.len() && catalog_le(#[trigger] paths[b], #[trigger] paths[a]) implies order[a]
        < order[b] by {
        assert(position_order(defs)(order[a], order[b]));
    }
    #[allow(deprecated)]
    listing.filter_lemma(pred);
    assert forall|p: Seq<char>|
        #[trigger] paths.contains(p) <==> (listing.contains(p) && is_engine_definition_text(p)) by {
        if paths.contains(p) {
            let k = choose|k: int| 0 <= k < paths.len() && paths[k] == p;
            vstd::seq_lib::to_multiset_contains(order, order[k]);
            vstd::seq_lib::to_multiset_contains(all_positions, order[k]);
            let i = choose|i: int| 0 <= i < all_positions.len() && all_positions[i] == order[k];
            assert(defs[order[k]] == p);
            assert(pred(defs[order[k]]));
            listing.lemma_filter_contains_rev(pred, p);
        }
        if listing.contains(p) && is_engine_definition_text(p) {
            let i = choose|i: int| 0 <= i < listing.len() && listing[i] == p;
            listing.lemma_filter_contains(pred, i);
            let d = choose|d: int| 0 <= d < defs.len() && defs[d] == p;
            assert(all_positions[d] == d);
            vstd::seq_lib::to_multiset_contains(all_positions, d);
            vstd::seq_lib::to_multiset_contains(order, d);
            let k = choose|k: int| 0 <= k < order.len() && order[k] == d;
            assert(paths[k] == p);
        }
    }
}

/// Placing position `defs.len()`, for a new path `x`, behind every position
/// whose path is not greater keeps the positions sorted.
proof fn lemma_insert_position(defs: Seq<Seq<char>>, order: Seq<int>, pos: int, x: Seq<char>)
    requires
        sorted_by(order, position_order(defs)),
        forall|k: int| 0 <= k < order.len() ==> 0 <= #[trigger] order[k] < defs.len(),
        0 <= pos <= order.len(),
        forall|j: int| 0 <= j < pos ==> catalog_le(defs[#[trigger] order[j]], x),
        pos < order.len() ==> !catalog_le(defs[order[pos]], x),
    ensures
        sorted_by(order.insert(pos, defs.len() as int), position_order(defs.push(x))),
{
    let m = defs.len() as int;
    let d2 = defs.push(x);
    let t = order.insert(pos, m);
    let r = position_order(defs);
    let r2 = position_order(d2);
    if pos < order.len() {
        lemma_catalog_le_total(defs[order[pos]], x);
    }
    assert forall|a: int, b: int| 0 <= a < b < t.len() implies #[trigger] r2(t[a], t[b]) by {
        if b < pos {
            assert(r(order[a], order[b]));
        } else if b == pos {
            assert(catalog_le(defs[order[a]], x));
        } else if a < pos {
            assert(r(order[a], order[b - 1]));
        } else if a == pos {
            if b - 1 > pos {
                assert(r(order[pos], order[b - 1]));
                lemma_catalog_le_transitive(x, defs[order[pos]], defs[order[b - 1]]);
                if catalog_le(defs[order[b - 1]], x) {
                    lemma_catalog_le_transitive(defs[order[pos]], defs[order[b - 1]], x);
                }
            }
        } else {
            assert(r(order[a - 1], order[b - 1]));
        }
    }
}

/// The engine definitions among the paths of a directory listing, as catalog
/// entries sorted by case-folded label and then by path components; paths that
/// tie keep their listing order.
pub fn discover_engine_files(listing: Vec<String>) -> (r: Vec<EngineCatalogEntry>)
    ensures
        r.len() == catalog_paths(texts(listing@)).len(),
        forall|i: int|
            0 <= i < r.len() ==> (#[trigger] r[i]).path@ == catalog_paths(texts(listing@))[i]
                && r[i].label@ == catalog_label_text(catalog_paths(texts(listing@))[i]),
{
    let ghost all = texts(listing@);
    let ghost pred = engine_definition_filter();
    let mut sorted: Vec<String> = Vec::new();
    let mut keys: Vec<CatalogKey> = Vec::new();
    let ghost mut defs: Seq<Seq<char>> = Seq::empty();
    let ghost mut order: Seq<int> = Seq::empty();
    let mut i: usize = 0;
    assert(all.subrange(0, 0).filter(pred) =~= Seq::<Seq<char>>::empty());
    assert(Seq::new(0, |k: int| k) =~= Seq::<int>::empty());
    while i < listing.len()
        invariant
            all == texts(listing@),
            pred == engine_definition_filter(),
            i <= listing.len(),
            defs == all.subrange(0, i as int).filter(pred),
            keys.len() == sorted.len(),
            forall|k: int| 0 <= k < keys.len() ==> (#[trigger] keys[k]).is_key_of(sorted[k]@),
            order.len() == sorted.len(),
            forall|k: int|
                0 <= k < order.len() ==> 0 <= #[trigger] order[k] < defs.len() && sorted[k]@
                    == defs[order[k]],
            sorted_by(order, position_order(defs)),
            order.to_multiset() == Seq::new(defs.len(), |k: int| k).to_multiset(),
        decreases listing.len() - i,
    {
        let path = &listing[i];
        proof {
            assert(all.subrange(0, i + 1) =~= all.subrange(0, i as int).push(path@));
            all.subrange(0, i as int).lemma_filter_push(path@, pred);
        }
        if is_engine_definition_path(path.as_str()) {
            let key = catalog_key(path.as_str());
            let mut pos: usize = 0;
            while pos < sorted.len() && catalog_key_le(
                &keys[pos],
                &key,
                Ghost(sorted[pos as int]@),
                Ghost(path@),
            )
                invariant
                    pos <= sorted.len(),
                    keys.len() == sorted.len(),
                    forall|k: int| 0 <= k < keys.len() ==> (#[trigger] keys[k]).is_key_of(sorted[k]@),
                    key.is_key_of(path@),
                    order.len() == sorted.len(),
                    forall|k: int|
                        0 <= k < order.len() ==> 0 <= #[trigger] order[k] < defs.len() && sorted[k]@
                            == defs[order[k]],
                    forall|j: int| 0 <= j < pos ==> catalog_le(defs[#[trigger] order[j]], path@),
                decreases sorted.len() - pos,
            {
                pos += 1;
            }
            let ghost m = defs.len() as int;
            proof {
                lemma_insert_position(defs, order, pos as int, path@);
                vstd::seq_lib::to_multiset_insert(order, pos as int, m);
                assert(Seq::new((m + 1) as nat, |k: int| k) =~= Seq::new(m as nat, |k: int| k).push(m));
                vstd::seq_lib::to_multiset_build(Seq::new(m as nat, |k: int| k), m);
            }
            let ghost old_sorted = sorted@;
            let ghost old_order = order;
            sorted.insert(pos, path.clone());
            keys.insert(pos, key);
            proof {
                defs = defs.push(path@);
                order = order.insert(pos as int, m);
                assert forall|k: int| 0 <= k < order.len() implies 0 <= #[trigger] order[k]
                    < defs.len() && sorted[k]@ == defs[order[k]] by {
                    if k < pos {
                        assert(order[k] == old_order[k] && sorted[k] == old_sorted[k]);
                    } else if k > pos {
                        assert(order[k] == old_order[k - 1] && sorted[k] == old_sorted[k - 1]);
                    }
                }
            }
        }
        i += 1;
    }
    proof {
        assert(all.subrange(0, listing.len() as int) =~= all);
        lemma_position_order_is_total(defs);
        Seq::new(defs.len(), |k: int| k).lemma_sort_by_ensures(position_order(defs));
        vstd::seq_lib::lemma_sorted_unique(order, catalog_positions(defs), position_order(defs));
        assert(defs == engine_definitions(all));
    }
    let mut entries: Vec<EngineCatalogEntry> = Vec::new();
    let mut k: usize = 0;
    while k < sorted.len()
        invariant
            k <= sorted.len(),
            entries.len() == k,
            all == texts(listing@),
            sorted.len() == catalog_paths(all).len(),
            forall|j: int| 0 <= j < sorted.len() ==> #[trigger] sorted[j]@ == catalog_paths(all)[j],
            forall|j: int|
                0 <= j < k ==> (#[trigger] entries[j]).path@ == sorted[j]@ && entries[j].label@
                    == catalog_label_text(sorted[j]@),
        decreases sorted.len() - k,
    {
        entries.push(EngineCatalogEntry::from_path(sorted[k].clone()));
        k += 1;
    }
    entries
}

/// An engine definition and its handling configuration, each with where it
/// came from.
#[derive(Debug, Clone, PartialEq)]
pub struct LoadedEngine<D, H> {
    pub definition: D,
    pub handling: H,
    pub engine_source: LoadSource,
    pub handling_source: LoadSource,
}

/// What a load decides for one file: the parsed value and its source, or the
/// bundled value and the reason the file was not used.
pub open spec fn loaded_from<T>(
    path: Seq<char>,
    parsed: Result<T, String>,
    bundled: T,
    value: T,
    source: LoadSource,
) -> bool {
    match parsed {
        Ok(v) => value == v && (source matches LoadSource::Disk(p) && p@ == path),
        Err(reason) => value == bundled && (source matches LoadSource::BundledFallback { reason: why }
            && why@ == reason@),
    }
}

fn resolve_loaded<T>(path: String, parsed: Result<T, String>, bundled: T) -> (r: (T, LoadSource))
    ensures
        loaded_from(path@, parsed, bundled, r.0, r.1),
{
    match parsed {
        Ok(value) => (value, LoadSource::Disk(path)),
        Err(reason) => (bundled, LoadSource::BundledFallback { reason }),
    }
}

/// Combine an engine file and its sibling handling file with the bundled
/// defaults: each value read and parsed from disk is kept, and each one that was
/// missing or failed to parse is replaced by its bundled default together with
/// the reason. `engine` is the outcome of reading and parsing `engine_path`;
/// `handling` is that of the file at `handling_path_for(engine_path)`.
pub fn load_engine_and_handling<D, H>(
    engine_path: &str,
    engine: Result<D, String>,
    handling: Result<H, String>,
    bundled_definition: D,
    bundled_handling: H,
) -> (r: LoadedEngine<D, H>)
    ensures
        loaded_from(engine_path@, engine, bundled_definition, r.definition, r.engine_source),
        loaded_from(
            handling_path_text(engine_path@),
            handling,
            bundled_handling,
            r.handling,
            r.handling_source,
        ),
{
    let (definition, engine_source) = resolve_loaded(
        String::from_str(engine_path),
        engine,
        bundled_definition,
    );
    let handling_path = handling_path_for(engine_path);
    let (handling, handling_source) = resolve_loaded(handling_path, handling, bundled_handling);
    LoadedEngine { definition, handling, engine_source, handling_source }
}

/// The directory that must exist before `engine_path` and its handling file can
/// be written: its parent, unless that is empty.
pub fn save_directory_for(engine_path: &str) -> (r: Option<String>)
    ensures
        match parent_text(engine_path@) {
            Some(dir) => if dir.len() > 0 {
                r matches Some(d) && d@ == dir
            } else {
                r is None
            },
            None => r is None,
        },
{
    match parent(engine_path) {
        Some(dir) => {
            if dir.unicode_len() > 0 {
                Some(dir)
            } else {
                None
            }
        },
        None => None,
    }
}

} // verus!
