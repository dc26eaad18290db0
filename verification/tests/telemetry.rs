use enginesim::telemetry::{RollingWindow, TelemetryAvailability};

#[test]
fn rolling_window_keeps_most_recent_entries() {
    let mut window = RollingWindow::new(2);
    window.push(1);
    window.push(2);
    window.push(3);

    assert_eq!(window.iter().copied().collect::<Vec<_>>(), vec![2, 3]);
}

#[test]
fn rolling_window_reports_length_and_emptiness() {
    let mut window = RollingWindow::new(3);
    assert!(window.is_empty());
    assert_eq!(window.len(), 0);
    for value in 0..10 {
        window.push(value);
        assert!(window.len() <= 3);
    }
    assert!(!window.is_empty());
    assert_eq!(window.len(), 3);
    assert_eq!(window.iter().copied().collect::<Vec<_>>(), vec![7, 8, 9]);
}

#[test]
fn cloned_window_keeps_capacity_and_contents() {
    let mut window = RollingWindow::new(2);
    window.push(5);
    let mut copy = window.clone();
    copy.push(6);
    copy.push(7);
    assert_eq!(copy.iter().copied().collect::<Vec<_>>(), vec![6, 7]);
    assert_eq!(window.iter().copied().collect::<Vec<_>>(), vec![5]);
}

#[test]
fn telemetry_availability_variants_are_distinct() {
    assert_ne!(TelemetryAvailability::Measured, TelemetryAvailability::Placeholder);
    assert_ne!(TelemetryAvailability::Placeholder, TelemetryAvailability::Unavailable);
}
