use enginesim::render_args::{parse_unsigned, scan_render_args, RenderOption, RenderScan, RenderSetting};

fn args(list: &[&str]) -> Vec<String> {
    list.iter().map(|s| s.to_string()).collect()
}

fn setting(option: RenderOption, value: &str) -> RenderSetting {
    RenderSetting { option, value: value.to_string() }
}

#[test]
fn render_scan_keeps_options_in_order() {
    let scan = scan_render_args(&args(&["--rpm", "4500", "--bins", "512", "--rpm", "x", "--out", "o.wav"]));
    assert_eq!(
        scan,
        RenderScan::Options {
            settings: vec![
                setting(RenderOption::Rpm, "4500"),
                setting(RenderOption::Bins, "512"),
                setting(RenderOption::Rpm, "x"),
                setting(RenderOption::Out, "o.wav"),
            ],
            error: None,
        }
    );
    assert_eq!(scan_render_args(&args(&[])), RenderScan::Options { settings: vec![], error: None });
}

#[test]
fn render_scan_stops_at_unknown_or_missing_value() {
    assert_eq!(
        scan_render_args(&args(&["--rpm", "3000", "--bogus", "1", "--out", "a.wav"])),
        RenderScan::Options {
            settings: vec![setting(RenderOption::Rpm, "3000")],
            error: Some("unknown argument '--bogus'".to_string()),
        }
    );
    assert_eq!(
        scan_render_args(&args(&["--engine", "e.json", "--wav-rate"])),
        RenderScan::Options {
            settings: vec![setting(RenderOption::Engine, "e.json")],
            error: Some("missing value for --wav-rate".to_string()),
        }
    );
}

#[test]
fn render_scan_gives_help_wherever_it_is_asked() {
    assert_eq!(scan_render_args(&args(&["--bogus", "--help"])), RenderScan::Help);
    assert_eq!(scan_render_args(&args(&["--rpm", "-h"])), RenderScan::Help);
}

#[test]
fn unsigned_counts_read_as_str_parse_does() {
    let cases = ["2048", "+7", "007", "+", "", "-1", "-0", "12a", " 1", "0", "4294967295", "4294967296", "++5", "18446744073709551615", "18446744073709551616"];
    for c in cases {
        assert_eq!(parse_unsigned(c, u32::MAX as u64), c.parse::<u32>().ok().map(u64::from), "{c:?}");
        assert_eq!(parse_unsigned(c, u64::MAX), c.parse::<u64>().ok(), "{c:?}");
    }
    assert_eq!(parse_unsigned("2048", u32::MAX as u64), Some(2048));
    assert_eq!(parse_unsigned("4294967296", u32::MAX as u64), None);
}
