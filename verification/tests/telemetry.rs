use frugal::telemetry::{checkpoint_body, checkpoint_file_name, chrono_stamp};

#[test]
fn checkpoint_body_fills_the_template() {
    let body = checkpoint_body("2024-05-01T10:00:00+02:00", "auto: pre-compaction", "sess-1");
    assert!(body.starts_with("# Frugal Checkpoint — 2024-05-01T10:00:00+02:00\n\nnote: auto: pre-compaction\nsession: sess-1\n\nobjective:"));
    assert!(body.ends_with("next_steps: <ordered, specific>\n"));
    assert!(!body.contains("{ts}") && !body.contains("{note}") && !body.contains("{session}"));
}

#[test]
fn checkpoint_placeholders_fill_in_order() {
    // A note holding a later placeholder is filled in too, as repeated
    // replacement does.
    let body = checkpoint_body("T", "see {session}", "S");
    assert!(body.contains("note: see S\nsession: S\n"));
}

#[test]
fn stamps() {
    assert_eq!(chrono_stamp("2024-05-01T10:00:00+02:00", 7), "2024-05-01-10-00-00-02-00-007");
    assert_eq!(chrono_stamp("2024-05-01T10:00:00-02:00", 999), "2024-05-01-10-00-00-02-00-999");
    assert_eq!(chrono_stamp("", 1234), "-1234");
    assert_eq!(checkpoint_file_name("x-007"), "x-007.md");
}

#[test]
fn stamps_in_one_second_differ_by_millis() {
    let a = chrono_stamp("2024-05-01T10:00:00+02:00", 41);
    let b = chrono_stamp("2024-05-01T10:00:00+02:00", 410);
    assert_ne!(a, b);
    assert!(a.ends_with("-041") && b.ends_with("-410"));
    assert!(!a.contains(':') && !a.contains('T') && !a.contains('+'));
}
