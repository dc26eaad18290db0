use enginesim::tuning::TuningSession;

#[derive(Debug, Clone, PartialEq)]
struct Geometry {
    compression_ratio: f64,
}

#[derive(Debug, Clone, PartialEq)]
struct Engine {
    geometry: Geometry,
}

#[derive(Debug, Clone, PartialEq)]
struct Handling {
    timestep_seconds: f64,
}

fn fixtures() -> (Engine, Handling) {
    (
        Engine { geometry: Geometry { compression_ratio: 8.9 } },
        Handling { timestep_seconds: 0.00005 },
    )
}

#[test]
fn new_session_is_clean() {
    let (engine, handling) = fixtures();
    let session = TuningSession::new(engine, handling);
    assert!(!session.is_dirty());
}

#[test]
fn editing_draft_marks_dirty_and_write_commits() {
    let (engine, handling) = fixtures();
    let mut session = TuningSession::new(engine, handling);

    session.draft_engine.geometry.compression_ratio = 11.5;
    assert!(session.is_dirty());
    assert_eq!(session.committed_engine().geometry.compression_ratio, 8.9);

    session.write_changes();
    assert!(!session.is_dirty());
    assert_eq!(session.committed_engine().geometry.compression_ratio, 11.5);
}

#[test]
fn undo_reverts_draft_to_committed() {
    let (engine, handling) = fixtures();
    let mut session = TuningSession::new(engine, handling);

    session.draft_engine.geometry.compression_ratio = 13.0;
    session.draft_handling.timestep_seconds = 0.0001;
    assert!(session.is_dirty());

    session.undo_changes();
    assert!(!session.is_dirty());
    assert_eq!(session.draft_engine.geometry.compression_ratio, 8.9);
    assert_eq!(session.draft_handling.timestep_seconds, 0.00005);
}

#[test]
fn replace_starts_a_clean_session() {
    let mut session = TuningSession::new(vec![1u32, 2], 7u64);
    session.draft_engine.push(3);
    session.draft_handling = 8;
    assert!(session.is_dirty());
    session.replace(vec![9], 4);
    assert!(!session.is_dirty());
    assert_eq!(session.committed_engine(), &vec![9]);
    assert_eq!(*session.committed_handling(), 4);
    session.draft_handling = 5;
    assert!(session.is_dirty());
}
