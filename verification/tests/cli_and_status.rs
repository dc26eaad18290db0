use enginesim::engine_loader::{EngineCatalogEntry, LoadSource};
use enginesim::engine_tui::{parse_args, required_test_path, Args, Invocation, USAGE};
use enginesim::tuning_gui;
use enginesim::valve_lift_designer::{
    describe_source, engine_options_or_default, initial_engine_path, load_status,
    selected_engine_label,
};

fn args(list: &[&str]) -> Vec<String> {
    list.iter().map(|s| s.to_string()).collect()
}

#[test]
fn tui_arguments_name_test_and_engine() {
    assert_eq!(
        parse_args(&args(&["--test", "t.json", "-e", "e.json"])),
        Ok(Invocation::Run(Args {
            test_path: Some("t.json".to_string()),
            engine_path: Some("e.json".to_string()),
        }))
    );
    assert_eq!(
        parse_args(&args(&[])),
        Ok(Invocation::Run(Args {
            test_path: None,
            engine_path: None,
        }))
    );
    assert_eq!(
        parse_args(&args(&["-t", "a", "-t", "b"])),
        Ok(Invocation::Run(Args {
            test_path: Some("b".to_string()),
            engine_path: None,
        }))
    );
}

#[test]
fn tui_arguments_report_errors_and_help() {
    assert_eq!(
        parse_args(&args(&["--test"])),
        Err("--test requires a path argument".to_string())
    );
    assert_eq!(
        parse_args(&args(&["-e"])),
        Err("-e requires a path argument".to_string())
    );
    assert_eq!(
        parse_args(&args(&["--bogus"])),
        Err("unrecognized argument: --bogus".to_string())
    );
    assert_eq!(parse_args(&args(&["-t", "x", "-h", "--bogus"])), Ok(Invocation::Help));
    assert_eq!(
        parse_args(&args(&["--bogus", "--help"])),
        Err("unrecognized argument: --bogus".to_string())
    );
}

fn entry(path: &str) -> EngineCatalogEntry {
    EngineCatalogEntry::from_path(path.to_string())
}

#[test]
fn designer_offers_default_engine_when_nothing_is_discovered() {
    let options = engine_options_or_default(Err("unreadable".to_string()), "d/gn250.json");
    assert_eq!(options, vec![entry("d/gn250.json")]);
    let options = engine_options_or_default(Ok(Vec::new()), "d/gn250.json");
    assert_eq!(options, vec![entry("d/gn250.json")]);
    let found = vec![entry("d/a.json"), entry("d/b.json")];
    assert_eq!(
        engine_options_or_default(Ok(found.clone()), "d/gn250.json"),
        found
    );
}

#[test]
fn designer_opens_default_engine_first_when_listed() {
    let options = vec![entry("d/a.json"), entry("d/gn250.json")];
    assert_eq!(initial_engine_path(&options, "d/gn250.json"), "d/gn250.json");
    let options = vec![entry("d/a.json"), entry("d/b.json")];
    assert_eq!(initial_engine_path(&options, "d/gn250.json"), "d/a.json");
    assert_eq!(initial_engine_path(&[].to_vec(), "d/gn250.json"), "d/gn250.json");
}

#[test]
fn designer_labels_selected_engine() {
    let options = vec![entry("d/a.json"), entry("d/gn250.json")];
    assert_eq!(selected_engine_label(&options, "d/gn250.json", "GN250"), "gn250");
    assert_eq!(selected_engine_label(&options, "d/other.json", "GN250"), "GN250");
}

#[test]
fn designer_matches_engine_paths_by_components() {
    let options = vec![entry("d/a.json"), entry("d//gn250.json"), entry("d/gn250.json")];
    assert_eq!(initial_engine_path(&options, "d/gn250.json"), "d//gn250.json");
    assert_eq!(initial_engine_path(&options, "./d/gn250.json"), "d/a.json");
    assert_eq!(selected_engine_label(&options, "d/./gn250.json", "GN250"), "gn250");
    assert_eq!(selected_engine_label(&options, "/d/gn250.json", "GN250"), "GN250");
}

#[test]
fn status_lines_describe_sources() {
    let disk = LoadSource::Disk("d/e.json".to_string());
    let fallback = LoadSource::BundledFallback {
        reason: "missing".to_string(),
    };
    assert_eq!(describe_source("engine", &disk), "engine: d/e.json");
    assert_eq!(
        describe_source("handling", &fallback),
        "handling: bundled fallback (missing)"
    );
    assert_eq!(
        load_status(&disk, &fallback),
        "engine: d/e.json | handling: bundled fallback (missing)"
    );
    assert_eq!(
        tuning_gui::describe_source("handling", &fallback),
        "handling: bundled default"
    );
    assert_eq!(tuning_gui::describe_source("engine", &disk), "engine: d/e.json");
}

#[test]
fn tui_requires_a_test_profile() {
    let with = Args { test_path: Some("p.json".to_string()), engine_path: None };
    assert_eq!(required_test_path(&with), Ok("p.json".to_string()));
    let without = Args { test_path: None, engine_path: Some("e.json".to_string()) };
    assert_eq!(
        required_test_path(&without),
        Err(format!("missing required --test argument\n\n{USAGE}"))
    );
    assert!(USAGE.starts_with("engine_tui - headless engine test runner\n"));
}
