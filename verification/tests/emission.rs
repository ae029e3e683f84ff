use conduit_bridge::emitter::{emit, EmitPhase, ResponseEmitter, WireEvent};
use conduit_bridge::response::{choose_response, fallback_response, Response};

fn sample_response() -> Response {
    Response {
        status: (200, "OK".to_string()),
        headers: vec![
            ("Content-Type".to_string(), vec!["text/plain".to_string()]),
            ("Set-Cookie".to_string(), vec!["a=1".to_string(), "b=2".to_string()]),
        ],
        body: b"hello".to_vec(),
    }
}

#[test]
fn commit_is_unique_and_precedes_every_body_write() {
    let e = emit(sample_response());
    let events = e.events();
    let commits: Vec<usize> = events
        .iter()
        .enumerate()
        .filter(|(_, ev)| matches!(ev, WireEvent::Committed))
        .map(|(i, _)| i)
        .collect();
    assert_eq!(commits.len(), 1);
    let commit = commits[0];
    for (i, ev) in events.iter().enumerate() {
        match ev {
            WireEvent::StatusSet(_) | WireEvent::HeaderLine(_, _) => assert!(i < commit),
            WireEvent::Committed => assert_eq!(i, commit),
            WireEvent::BodyBytes(_) => assert!(i > commit),
            WireEvent::Finalized => assert_eq!(i, events.len() - 1),
        }
    }
}

#[test]
fn emitted_trace_carries_the_whole_response() {
    let e = emit(sample_response());
    assert_eq!(e.phase(), EmitPhase::Closed);
    let events = e.events();
    assert!(matches!(events[0], WireEvent::StatusSet(200)));
    let lines: Vec<(String, String)> = events
        .iter()
        .filter_map(|ev| match ev {
            WireEvent::HeaderLine(n, v) => Some((n.clone(), v.clone())),
            _ => None,
        })
        .collect();
    assert_eq!(
        lines,
        vec![
            ("Content-Type".to_string(), "text/plain".to_string()),
            ("Set-Cookie".to_string(), "a=1".to_string()),
            ("Set-Cookie".to_string(), "b=2".to_string()),
        ]
    );
    let bodies: Vec<&Vec<u8>> = events
        .iter()
        .filter_map(|ev| match ev {
            WireEvent::BodyBytes(b) => Some(b),
            _ => None,
        })
        .collect();
    assert_eq!(bodies, vec![&b"hello".to_vec()]);
    assert!(matches!(events[events.len() - 1], WireEvent::Finalized));
}

#[test]
fn stepwise_protocol_phases() {
    let mut e = ResponseEmitter::new();
    assert_eq!(e.phase(), EmitPhase::Fresh);
    e.set_status(404);
    e.add_header_line("Content-Type".to_string(), "text/html".to_string());
    e.commit();
    assert_eq!(e.phase(), EmitPhase::Streaming);
    e.write_body(b"gone".to_vec());
    e.finalize();
    assert_eq!(e.phase(), EmitPhase::Closed);
    assert_eq!(e.events().len(), 5);
}

#[test]
fn header_values_become_one_byte_line_each() {
    let lines = conduit_bridge::response::values_to_byte_lines(&vec![
        "a=1".to_string(),
        "caf\u{e9}".to_string(),
    ]);
    assert_eq!(lines, vec![b"a=1".to_vec(), "caf\u{e9}".as_bytes().to_vec()]);
}

#[test]
fn fallback_response_shape() {
    let r = fallback_response("boom");
    assert_eq!(r.status.0, 500);
    assert_eq!(r.status.1, "Internal Server Error");
    assert!(r.headers.is_empty());
    assert_eq!(r.body, b"boom".to_vec());
}

#[test]
fn choose_response_passes_success_through() {
    let chosen = choose_response(Ok(sample_response()));
    assert_eq!(chosen.status.0, 200);
    assert_eq!(chosen.body, b"hello".to_vec());
    assert_eq!(chosen.headers.len(), 2);
}

#[test]
fn choose_response_synthesizes_fallback_on_error() {
    let chosen = choose_response(Err("database is down".to_string()));
    assert_eq!(chosen.status.0, 500);
    assert_eq!(chosen.status.1, "Internal Server Error");
    assert!(chosen.headers.is_empty());
    assert_eq!(chosen.body, b"database is down".to_vec());
}
