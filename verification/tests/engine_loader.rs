use enginesim::engine_loader::{
    default_engine_directory, default_engine_path, discover_engine_files, handling_path_for,
    is_engine_definition_path, load_engine_and_handling, save_directory_for, EngineCatalogEntry,
    LoadSource,
};

#[test]
fn handling_path_is_sibling_of_engine_path() {
    let engine = "data/engines/gn250.json";
    assert_eq!(
        handling_path_for(engine),
        String::from("data/engines/gn250.handling.json")
    );
}

#[test]
fn discovers_engine_jsons_without_handling_files() {
    let dir = "/tmp/enginesim_discover";
    let listing = vec![
        format!("{dir}/alpha.json"),
        format!("{dir}/alpha.handling.json"),
        format!("{dir}/notes.md"),
    ];

    let entries = discover_engine_files(listing);

    assert_eq!(entries.len(), 1);
    assert_eq!(entries[0].label, "alpha");
    assert_eq!(entries[0].path, format!("{dir}/alpha.json"));
}

#[test]
fn discovered_engines_are_sorted_by_label_ignoring_case_then_path() {
    let listing = vec![
        "e/zeta.json".to_string(),
        "e/Beta.json".to_string(),
        "d/beta.json".to_string(),
        "e/alpha.json".to_string(),
        "e/beta.handling.json".to_string(),
        "e/readme.txt".to_string(),
    ];
    let entries = discover_engine_files(listing);
    let paths: Vec<&str> = entries.iter().map(|e| e.path.as_str()).collect();
    assert_eq!(
        paths,
        vec!["e/alpha.json", "d/beta.json", "e/Beta.json", "e/zeta.json"]
    );
    assert_eq!(entries[2].label, "Beta");
}

#[test]
fn discovering_an_empty_listing_gives_no_entries() {
    assert!(discover_engine_files(Vec::new()).is_empty());
}

#[test]
fn handling_path_of_bare_and_rooted_names() {
    assert_eq!(handling_path_for("gn250.json"), "gn250.handling.json");
    assert_eq!(handling_path_for("/gn250.json"), "/gn250.handling.json");
    assert_eq!(handling_path_for("a//b/c.json"), "a//b/c.handling.json");
    assert_eq!(handling_path_for("data/engines/"), "data/engines.handling.json");
    assert_eq!(handling_path_for(""), ".handling.json");
    assert_eq!(handling_path_for("dir/.hidden"), "dir/.hidden.handling.json");
    assert_eq!(handling_path_for("dir/a.b.json"), "dir/a.b.handling.json");
}

#[test]
fn handling_files_are_not_engine_definitions() {
    assert!(is_engine_definition_path("data/engines/gn250.json"));
    assert!(!is_engine_definition_path("data/engines/gn250.handling.json"));
    assert!(!is_engine_definition_path(&handling_path_for("x/y.json")));
    assert!(!is_engine_definition_path("notes.md"));
    assert!(!is_engine_definition_path(".json"));
    assert!(!is_engine_definition_path("json"));
    assert!(is_engine_definition_path("x/.a.json"));
}

#[test]
fn catalog_entry_is_labelled_by_file_stem() {
    let entry = EngineCatalogEntry::from_path("data/engines/gn250.json".to_string());
    assert_eq!(entry.label, "gn250");
    assert_eq!(entry.path, "data/engines/gn250.json");
    let rootless = EngineCatalogEntry::from_path("/".to_string());
    assert_eq!(rootless.label, "/");
}

#[test]
fn default_engine_paths_sit_below_the_crate_directory() {
    assert_eq!(default_engine_directory("/opt/sim"), "/opt/sim/data/engines");
    assert_eq!(
        default_engine_path("/opt/sim/"),
        "/opt/sim/data/engines/gn250.json"
    );
}

#[test]
fn load_source_reports_disk() {
    assert!(LoadSource::Disk("a.json".to_string()).is_disk());
    assert!(!LoadSource::BundledFallback {
        reason: "missing".to_string()
    }
    .is_disk());
}

#[test]
fn falls_back_to_bundled_when_files_missing() {
    let loaded = load_engine_and_handling::<u32, u32>(
        "/nonexistent/path/to/engine.json",
        Err("no such file".to_string()),
        Err("no such file either".to_string()),
        7,
        9,
    );
    assert_eq!(loaded.definition, 7);
    assert_eq!(loaded.handling, 9);
    assert!(matches!(
        loaded.engine_source,
        LoadSource::BundledFallback { ref reason } if reason == "no such file"
    ));
    assert!(matches!(
        loaded.handling_source,
        LoadSource::BundledFallback { .. }
    ));
}

#[test]
fn parsed_files_are_reported_as_read_from_disk() {
    let loaded = load_engine_and_handling::<u32, u32>(
        "engines/probe.json",
        Ok(1),
        Ok(2),
        7,
        9,
    );
    assert_eq!(loaded.definition, 1);
    assert_eq!(loaded.handling, 2);
    assert_eq!(
        loaded.engine_source,
        LoadSource::Disk("engines/probe.json".to_string())
    );
    assert_eq!(
        loaded.handling_source,
        LoadSource::Disk("engines/probe.handling.json".to_string())
    );
}

#[test]
fn save_directory_is_the_nonempty_parent() {
    assert_eq!(save_directory_for("a/b/c.json"), Some("a/b".to_string()));
    assert_eq!(save_directory_for("c.json"), None);
    assert_eq!(save_directory_for("/c.json"), Some("/".to_string()));
}
