use http::Method;
use hurl_lite::header::{ArbitraryHeader, ArbitraryHeaderError};
use hurl_lite::request::{prepare_request, RunError};
use hurl_lite::runner::{step, Phase, RunAction, RunEvent};

fn field(name: &str, value: &str) -> ArbitraryHeader {
    ArbitraryHeader { name: name.to_string(), value: value.to_string() }
}

fn raw(hs: &[&str]) -> Option<Vec<String>> {
    Some(hs.iter().map(|h| h.to_string()).collect())
}

/// Feeds a fake transport's body through the runner, writing into `out`.
fn relay(status: u16, chunks: &[&[u8]], out: &mut Vec<u8>) -> (Phase, Result<(), RunError>) {
    let (mut phase, mut action) = step(Phase::RequestSent, RunEvent::Responded(status));
    let mut next_chunk = 0;
    loop {
        let event = match action {
            RunAction::PullChunk => {
                if next_chunk < chunks.len() {
                    next_chunk += 1;
                    RunEvent::Chunk(chunks[next_chunk - 1].to_vec())
                } else {
                    RunEvent::BodyEnd
                }
            }
            RunAction::Write(bytes) => {
                out.extend_from_slice(&bytes);
                RunEvent::Written
            }
            RunAction::Finish(r) => return (phase, r),
        };
        let (p, a) = step(phase, event);
        phase = p;
        action = a;
    }
}

#[test]
fn get_with_two_headers_relays_body() {
    let spec = prepare_request(
        "http://example.test/".to_string(),
        Method::GET,
        raw(&["Accept: text/plain", "X-Test: 1"]),
    )
    .unwrap();
    assert_eq!(spec.url, "http://example.test/");
    assert_eq!(spec.method, Method::GET);
    assert_eq!(spec.headers, vec![field("accept", "text/plain"), field("x-test", "1")]);
    let mut out = Vec::new();
    let (phase, r) = relay(200, &[b"hello, ", b"\x00\xffworld"], &mut out);
    assert_eq!(r, Ok(()));
    assert_eq!(phase, Phase::Done);
    assert_eq!(out, b"hello, \x00\xffworld".to_vec());
}

#[test]
fn error_status_body_is_relayed_too() {
    let mut out = Vec::new();
    let (phase, r) = relay(404, &[b"not found"], &mut out);
    assert_eq!(r, Ok(()));
    assert_eq!(phase, Phase::Done);
    assert_eq!(out, b"not found".to_vec());
}

#[test]
fn empty_body_writes_nothing() {
    let mut out = Vec::new();
    assert_eq!(relay(204, &[], &mut out), (Phase::Done, Ok(())));
    assert!(out.is_empty());
}

#[test]
fn bad_header_issues_no_request() {
    let r = prepare_request(
        "http://example.test/".to_string(),
        Method::GET,
        raw(&["bad-header-no-colon"]),
    );
    assert_eq!(r.unwrap_err(), RunError::HeaderInvalid(ArbitraryHeaderError::MissingSeparator));
}

#[test]
fn first_bad_header_is_reported() {
    let r = prepare_request(
        "http://example.test/".to_string(),
        Method::POST,
        raw(&["Good: 1", "bad name: 2", "nocolon"]),
    );
    assert_eq!(
        r.unwrap_err(),
        RunError::HeaderInvalid(ArbitraryHeaderError::InvalidName("bad name".to_string()))
    );
}

#[test]
fn connection_error_writes_nothing() {
    let (phase, action) = step(
        Phase::RequestSent,
        RunEvent::TransportError("connection refused".to_string()),
    );
    assert_eq!(phase, Phase::Failed);
    assert_eq!(
        action,
        RunAction::Finish(Err(RunError::TransportFailed("connection refused".to_string())))
    );
}

#[test]
fn stream_error_mid_body_is_transport_failed() {
    let (phase, action) = step(Phase::StreamingBody, RunEvent::TransportError("reset".to_string()));
    assert_eq!(phase, Phase::Failed);
    assert_eq!(action, RunAction::Finish(Err(RunError::TransportFailed("reset".to_string()))));
}

#[test]
fn write_error_is_output_failed() {
    let (phase, action) = step(Phase::Writing, RunEvent::WriteError("broken pipe".to_string()));
    assert_eq!(phase, Phase::Failed);
    assert_eq!(action, RunAction::Finish(Err(RunError::OutputFailed("broken pipe".to_string()))));
}

#[test]
fn chunk_is_written_verbatim() {
    let (phase, action) = step(Phase::StreamingBody, RunEvent::Chunk(vec![1, 2, 3]));
    assert_eq!(phase, Phase::Writing);
    assert_eq!(action, RunAction::Write(vec![1, 2, 3]));
}

#[test]
fn duplicate_header_last_write_wins() {
    let spec = prepare_request(
        "http://example.test/".to_string(),
        Method::GET,
        raw(&["X-A: 1", "X-A: 2"]),
    )
    .unwrap();
    assert_eq!(spec.headers, vec![field("x-a", "2")]);
}

#[test]
fn duplicate_header_keeps_first_position() {
    let spec = prepare_request(
        "http://example.test/".to_string(),
        Method::GET,
        raw(&["x-a: 1", "B: 2", "X-A: 3"]),
    )
    .unwrap();
    assert_eq!(spec.headers, vec![field("x-a", "3"), field("b", "2")]);
}

#[test]
fn no_headers_gives_empty_collection() {
    let spec = prepare_request("http://example.test/".to_string(), Method::PUT, None).unwrap();
    assert!(spec.headers.is_empty());
    assert_eq!(spec.method, Method::PUT);
}
