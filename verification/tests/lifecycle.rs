use conduit_bridge::emitter::{EmitPhase, WireEvent};
use conduit_bridge::extensions::Extensions;
use conduit_bridge::lifecycle::{handle_connection, next_state, ConnState, Handler};
use conduit_bridge::request::{BridgeError, HttpVersion, Method, Request, Scheme};
use conduit_bridge::response::Response;

fn lines(pairs: &[(&str, &str)]) -> Vec<(String, String)> {
    pairs.iter().map(|&(n, v)| (n.to_string(), v.to_string())).collect()
}

struct FailingHandler;

impl Handler for FailingHandler {
    fn call(&self, _request: &mut Request) -> Result<Response, String> {
        Err("boom".to_string())
    }
}

struct EchoHandler;

impl Handler for EchoHandler {
    fn call(&self, request: &mut Request) -> Result<Response, String> {
        let body = format!("{}", request.path());
        Ok(Response {
            status: (200, "OK".to_string()),
            headers: vec![("X-Method".to_string(), vec![
                match request.method() {
                    Method::Get => "GET".to_string(),
                    _ => "OTHER".to_string(),
                },
            ])],
            body: body.into_bytes(),
        })
    }
}

struct StashingHandler;

impl Handler for StashingHandler {
    fn call(&self, request: &mut Request) -> Result<Response, String> {
        assert!(request.extensions().find(42).is_none());
        request.mut_extensions().insert(42, b"stash".to_vec());
        let got = request.extensions().find(42).cloned().unwrap_or_default();
        Ok(Response {
            status: (200, "OK".to_string()),
            headers: Vec::new(),
            body: got,
        })
    }
}

#[test]
fn error_to_response_fallback() {
    let e = handle_connection(
        &FailingHandler,
        HttpVersion::Http11,
        "GET",
        "/".to_string(),
        Scheme::Http,
        "127.0.0.1:9999".to_string(),
        &lines(&[("Host", "example.com")]),
    )
    .unwrap();
    let events = e.events();
    assert!(matches!(events[0], WireEvent::StatusSet(500)));
    assert!(!events.iter().any(|ev| matches!(ev, WireEvent::HeaderLine(_, _))));
    let bodies: Vec<&Vec<u8>> = events
        .iter()
        .filter_map(|ev| match ev {
            WireEvent::BodyBytes(b) => Some(b),
            _ => None,
        })
        .collect();
    assert_eq!(bodies, vec![&b"boom".to_vec()]);
}

#[test]
fn successful_handler_response_is_emitted_verbatim() {
    let e = handle_connection(
        &EchoHandler,
        HttpVersion::Http11,
        "GET",
        "/widgets?page=2".to_string(),
        Scheme::Https,
        "10.1.2.3:55555".to_string(),
        &lines(&[("Host", "shop.example")]),
    )
    .unwrap();
    assert_eq!(e.phase(), EmitPhase::Closed);
    let events = e.events();
    assert!(matches!(events[0], WireEvent::StatusSet(200)));
    assert!(events.iter().any(|ev| match ev {
        WireEvent::HeaderLine(n, v) => n == "X-Method" && v == "GET",
        _ => false,
    }));
    assert!(events.iter().any(|ev| match ev {
        WireEvent::BodyBytes(b) => b == &b"/widgets".to_vec(),
        _ => false,
    }));
}

#[test]
fn adapter_rejection_reaches_no_handler() {
    let r = handle_connection(
        &FailingHandler,
        HttpVersion::Http11,
        "BREW",
        "/".to_string(),
        Scheme::Http,
        "127.0.0.1:1".to_string(),
        &lines(&[("Host", "h")]),
    );
    assert_eq!(r.err(), Some(BridgeError::UnsupportedMethod("BREW".to_string())));
    let r = handle_connection(
        &FailingHandler,
        HttpVersion::Http11,
        "GET",
        "/".to_string(),
        Scheme::Http,
        "127.0.0.1:1".to_string(),
        &lines(&[]),
    );
    assert_eq!(r.err(), Some(BridgeError::MissingHost));
}

#[test]
fn lifecycle_states_advance_in_order() {
    assert_eq!(next_state(ConnState::Received), Some(ConnState::Adapted));
    assert_eq!(next_state(ConnState::Adapted), Some(ConnState::HandlerInvoked));
    assert_eq!(next_state(ConnState::HandlerInvoked), Some(ConnState::ResponseChosen));
    assert_eq!(next_state(ConnState::ResponseChosen), Some(ConnState::Emitted));
    assert_eq!(next_state(ConnState::Emitted), None);
}

#[test]
fn extensions_stored_in_handler_are_scoped_to_the_request() {
    let e = handle_connection(
        &StashingHandler,
        HttpVersion::Http11,
        "GET",
        "/".to_string(),
        Scheme::Http,
        "127.0.0.1:1".to_string(),
        &lines(&[("Host", "h")]),
    )
    .unwrap();
    assert!(e.events().iter().any(|ev| match ev {
        WireEvent::BodyBytes(b) => b == &b"stash".to_vec(),
        _ => false,
    }));
    // the StashingHandler asserts that a second, fresh request starts empty
    let _ = handle_connection(
        &StashingHandler,
        HttpVersion::Http11,
        "GET",
        "/".to_string(),
        Scheme::Http,
        "127.0.0.1:2".to_string(),
        &lines(&[("Host", "h")]),
    )
    .unwrap();
}

#[test]
fn extension_map_basic_operations() {
    let mut m = Extensions::new();
    assert!(!m.contains(1));
    assert!(m.insert(1, vec![9]));
    assert!(m.contains(1));
    assert_eq!(m.find(1), Some(&vec![9]));
    assert!(!m.insert(1, vec![10]));
    assert_eq!(m.find(1), Some(&vec![10]));
    assert!(m.find(2).is_none());
}
