use std::path::{Path, PathBuf};
use enginesim::engine_loader::{
    discover_engine_files, handling_path_for, is_engine_definition_path, EngineCatalogEntry,
};
use enginesim::path_text::{extension, file_name, file_stem, is_same_path, parent};

fn std_handling(engine_path: &Path) -> PathBuf {
    let stem = engine_path.file_stem().map(|s| s.to_string_lossy().into_owned()).unwrap_or_default();
    let file_name = format!("{stem}.handling.json");
    match engine_path.parent() { Some(parent) => parent.join(file_name), None => PathBuf::from(file_name) }
}
fn std_is_def(path: &Path) -> bool {
    if path.extension().is_none_or(|extension| extension != "json") { return false; }
    let Some(file_name) = path.file_name().and_then(|name| name.to_str()) else { return false; };
    !file_name.ends_with(".handling.json")
}

#[test]
fn path_operations_agree_with_std_paths() {
    let cases = ["a/./", "./.", "/.", "./a/./b/c.json", "a/b/./.", "a/.b", "x/../y.json", "./", "/./a.json", "a/b/..", ".a.b", "..json","", "/", "//", "a", "a/", "a//", "/a", "//a", "a/b", "a//b", "a/b/", "./a", "a/.", "a/..", "..", ".", "../a.json", "a/./b.json", "/x/y.z.json", ".hidden", "a/.json", "a.", "a..b", "...", "a/b.handling.json", "x.JSON", "/tmp/d/alpha.json", "C:\\x\\y.json", "a/ b .json"];
    let mut bad = Vec::new();
    for c in cases {
        let p = Path::new(c);
        let mine = (file_name(c), parent(c), file_stem(c), extension(c), handling_path_for(c), is_engine_definition_path(c), EngineCatalogEntry::from_path(c.to_string()).label);
        let stdv = (p.file_name().map(|s| s.to_string_lossy().into_owned()), p.parent().map(|s| s.to_string_lossy().into_owned()), p.file_stem().map(|s| s.to_string_lossy().into_owned()), p.extension().map(|s| s.to_string_lossy().into_owned()), std_handling(p).to_string_lossy().into_owned(), std_is_def(p), p.file_stem().map(|s| s.to_string_lossy().into_owned()).unwrap_or_else(|| p.display().to_string()));
        if mine != stdv { bad.push(format!("{c:?}: mine {mine:?} std {stdv:?}")); }
    }
    assert!(bad.is_empty(), "{}", bad.join("\n"));
}

#[test]
fn catalog_order_agrees_with_std_sort_within_a_directory() {
    let names = [
        "b.json", "B.json", "a.json", "A.JSON.json", "_x.json", "zz.json", "Zz.json", "a.b.json",
        "c.handling.json", "1.json", "é.json", "E.json", "a b.json",
    ];
    let listing: Vec<String> = names.iter().map(|n| format!("/tmp/e/{n}")).collect();
    let mut expected: Vec<(PathBuf, String)> = listing
        .iter()
        .map(PathBuf::from)
        .filter(|p| std_is_def(p))
        .map(|p| {
            let label = p.file_stem().unwrap().to_string_lossy().into_owned();
            (p, label)
        })
        .collect();
    expected.sort_by(|a, b| {
        a.1.to_ascii_lowercase()
            .cmp(&b.1.to_ascii_lowercase())
            .then_with(|| a.0.cmp(&b.0))
    });
    let got: Vec<(String, String)> = discover_engine_files(listing)
        .into_iter()
        .map(|e| (e.path, e.label))
        .collect();
    let want: Vec<(String, String)> = expected
        .into_iter()
        .map(|(p, l)| (p.to_string_lossy().into_owned(), l))
        .collect();
    assert_eq!(got, want);
}

#[test]
fn same_path_agrees_with_std_path_equality() {
    let cases = [
        "", "/", "//", ".", "./", "./.", "..", "../", "a", "a/", "a//", "a/.", "a/./", "./a",
        "./a/", "/a", "//a", "/./a", "a/b", "a//b", "a/./b", "a/b/", "a/b/.", "a/../b", "a/..",
        "../a", ".a", "a/.b", "a/b.json", "a//b.json", "a/./b.json", "./a/b.json", "/a/b.json",
    ];
    let mut bad = Vec::new();
    for a in cases {
        for b in cases {
            let mine = is_same_path(a, b);
            let stdv = Path::new(a) == Path::new(b);
            if mine != stdv {
                bad.push(format!("{a:?} {b:?}: mine {mine} std {stdv}"));
            }
        }
    }
    assert!(bad.is_empty(), "{}", bad.join("\n"));
    assert!(is_same_path("a//b.json", "a/b.json"));
    assert!(is_same_path("a/./b.json", "a/b.json"));
    assert!(!is_same_path("./a/b.json", "a/b.json"));
    assert!(!is_same_path("a/../b.json", "b.json"));
}

fn std_catalog(listing: &[String]) -> Vec<(String, String)> {
    let mut expected: Vec<(PathBuf, String)> = listing
        .iter()
        .map(PathBuf::from)
        .filter(|p| std_is_def(p))
        .map(|p| {
            let label = p
                .file_stem()
                .map(|s| s.to_string_lossy().into_owned())
                .unwrap_or_else(|| p.display().to_string());
            (p, label)
        })
        .collect();
    expected.sort_by(|a, b| {
        a.1.to_ascii_lowercase()
            .cmp(&b.1.to_ascii_lowercase())
            .then_with(|| a.0.cmp(&b.0))
    });
    expected
        .into_iter()
        .map(|(p, l)| (p.to_string_lossy().into_owned(), l))
        .collect()
}

#[test]
fn catalog_order_agrees_with_std_sort_across_directories() {
    let listing: Vec<String> = [
        "d-x/beta.json", "d/beta.json", "d//beta.json", "./d/beta.json", "/d/beta.json",
        "../beta.json", "d/./beta.json", "a/Beta.json", "beta.json", "d/beta.json", "d/../beta.json",
        "d.x/beta.json", "d/a/beta.json", "d/a.b/beta.json", "d/ab/beta.json", "/beta.json",
        "./beta.json", "dx/beta.json", "D/beta.json", "d/bEta.json", "d/é/beta.json",
        "d/e/beta.json", "d/\u{0}/beta.json", "d//a/beta.json", "d/a/./beta.json",
    ]
    .iter()
    .map(|s| s.to_string())
    .collect();
    let got: Vec<(String, String)> = discover_engine_files(listing.clone())
        .into_iter()
        .map(|e| (e.path, e.label))
        .collect();
    assert_eq!(got, std_catalog(&listing));
}

#[test]
fn catalog_ties_keep_listing_order() {
    let listing: Vec<String> = ["d/./beta.json", "d//beta.json", "d/beta.json"]
        .iter()
        .map(|s| s.to_string())
        .collect();
    let got: Vec<String> = discover_engine_files(listing.clone())
        .into_iter()
        .map(|e| e.path)
        .collect();
    assert_eq!(got, listing);
    let reversed: Vec<String> = listing.iter().rev().cloned().collect();
    let got: Vec<String> = discover_engine_files(reversed.clone())
        .into_iter()
        .map(|e| e.path)
        .collect();
    assert_eq!(got, reversed);
    let got: Vec<String> = discover_engine_files(vec!["d-x/beta.json".to_string(), "d/beta.json".to_string()])
        .into_iter()
        .map(|e| e.path)
        .collect();
    assert_eq!(got, vec!["d/beta.json".to_string(), "d-x/beta.json".to_string()]);
}
