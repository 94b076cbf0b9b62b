use mu_core::command_journal::Origin;
use mu_core::protocol::{Request, Response};
use mu_core::transport::codes;
use mu_core::transport::{
    delivers, err_response, line_of, line_step, notification_envelope, ok_response, parse_request_line,
    request_or_refusal, response_envelope, stdio_origin, write_all, write_step, LineStep, OutboundEnvelope,
    Received,
    TransportError, WriteStep, OUTBOUND_STREAM_CAPACITY,
};
use serde_json::Value;

fn value(text: &str) -> Value {
    serde_json::from_str(text).expect("JSON")
}

/// Reads a line as a request, as far as it is one.
fn request(line: &str) -> Option<Request> {
    let v: Value = serde_json::from_str(line).ok()?;
    Some(Request {
        jsonrpc: v.get("jsonrpc")?.as_str()?.to_string(),
        id: v.get("id")?.to_string(),
        method: v.get("method")?.as_str()?.to_string(),
        params: v.get("params")?.to_string(),
    })
}

/// What a connection sends for a line when every request is answered with `result`.
fn answer(origin: &Origin, line: &str, result: &str) -> OutboundEnvelope {
    let response = match parse_request_line(line, request(line)) {
        Ok(q) => ok_response(q.id, result.to_string()),
        Err(refusal) => refusal,
    };
    let id = match &response {
        Response::Success { id, .. } => id.clone(),
        Response::Failure { id, .. } => id.clone(),
    };
    response_envelope(
        Origin { transport: origin.transport.clone(), connection_id: origin.connection_id.clone() },
        id,
        &response,
    )
}

fn read(written: &str) -> Vec<Value> {
    written.lines().map(value).collect()
}

#[test]
fn line_framing_writes_exactly_one_lf() {
    let origin = stdio_origin(1);
    let item = answer(
        &origin,
        r#"{"jsonrpc":"2.0","id":1,"method":"ping","params":null}"#,
        r#"{"pong":true}"#,
    );
    let raw = item.item.0.clone();
    assert!(!raw.contains('\n'));
    assert!(!raw.contains('\r'));
    let serialized = line_of(&item.item);
    assert_eq!(serialized.matches('\n').count(), 1);
    assert_eq!(value(&raw)["id"], Value::from(1));
}

#[test]
fn transport_round_trip_request() {
    let origin = stdio_origin(1);
    let item = answer(
        &origin,
        r#"{"jsonrpc":"2.0","id":1,"method":"ping","params":null}"#,
        r#"{"pong":true}"#,
    );
    let response = value(&item.item.0);
    assert_eq!(response["jsonrpc"], Value::from("2.0"));
    assert_eq!(response["id"], Value::from(1));
    assert_eq!(response["result"], value(r#"{"pong": true}"#));
}

#[test]
fn notification_emission_precedes_response() {
    let origin = stdio_origin(1);
    let stream = vec![
        notification_envelope(
            Some(stdio_origin(1)),
            "session.text_delta",
            r#"{"session_id":"s","delta":"hi"}"#,
        ),
        answer(
            &origin,
            r#"{"jsonrpc":"2.0","id":1,"method":"ask_session","params":null}"#,
            r#"{"accepted":true}"#,
        ),
    ];
    let seen = read(&write_all(&stream, &origin));
    assert_eq!(seen[0]["method"], Value::from("session.text_delta"));
    assert_eq!(seen[0]["params"], value(r#"{"session_id":"s","delta":"hi"}"#));
    assert_eq!(seen[1]["id"], Value::from(1));
    assert_eq!(seen[1]["result"], value(r#"{"accepted": true}"#));
}

#[test]
fn malformed_and_invalid_requests_return_errors_and_transport_continues() {
    let origin = stdio_origin(1);
    let stream: Vec<OutboundEnvelope> = [
        "{not valid json",
        r#"{"jsonrpc":"2.0","id":2,"params":null}"#,
        r#"{"jsonrpc":"2.0","id":3,"method":"ping","params":null}"#,
    ]
    .iter()
    .map(|line| answer(&origin, line, r#"{"pong":true}"#))
    .collect();
    let seen = read(&write_all(&stream, &origin));
    assert_eq!(seen[0]["id"], Value::Null);
    assert_eq!(seen[0]["error"]["code"], Value::from(codes::PARSE_ERROR));
    assert_eq!(seen[1]["id"], Value::from(2));
    assert_eq!(seen[1]["error"]["code"], Value::from(codes::INVALID_REQUEST));
    assert_eq!(seen[2]["id"], Value::from(3));
    assert_eq!(seen[2]["result"], value(r#"{"pong": true}"#));
}

#[test]
fn refusals_name_the_identifier_if_there_is_one() {
    assert_eq!(
        request_or_refusal(false, Some("7".to_string()), None),
        Err(err_response("null".to_string(), codes::PARSE_ERROR, "parse error"))
    );
    assert_eq!(
        request_or_refusal(true, Some("7".to_string()), None),
        Err(err_response("7".to_string(), codes::INVALID_REQUEST, "invalid request"))
    );
    assert_eq!(
        request_or_refusal(true, None, None),
        Err(err_response("null".to_string(), codes::INVALID_REQUEST, "invalid request"))
    );
}

#[test]
fn response_routes_only_to_originating_connection() {
    let a = stdio_origin(1);
    let b = stdio_origin(2);
    let stream = vec![
        answer(
            &a,
            r#"{"jsonrpc":"2.0","id":"for-a","method":"ping","params":null}"#,
            r#"{"pong":true}"#,
        ),
        answer(
            &b,
            r#"{"jsonrpc":"2.0","id":"for-b","method":"ping","params":null}"#,
            r#"{"pong":true}"#,
        ),
    ];
    assert_eq!(read(&write_all(&stream, &a))[0]["id"], Value::from("for-a"));
    assert_eq!(read(&write_all(&stream, &b))[0]["id"], Value::from("for-b"));
    assert!(delivers(&stream[0], &a));
    assert!(!delivers(&stream[0], &b));
}

#[test]
fn broadcast_envelope_fans_out_to_all_connections() {
    let a = stdio_origin(1);
    let b = stdio_origin(2);
    let stream = vec![notification_envelope(None, "daemon.announce", r#"{"msg":"hello"}"#)];
    for connection in [&a, &b] {
        let seen = read(&write_all(&stream, connection));
        assert_eq!(seen[0]["method"], Value::from("daemon.announce"));
        assert_eq!(seen[0]["params"], value(r#"{"msg": "hello"}"#));
        assert!(seen[0].get("id").is_none());
    }
}

#[test]
fn id_is_preserved_as_value() {
    let origin = stdio_origin(1);
    for id in [Value::from("abc"), Value::from(7), Value::Null] {
        let line = format!(r#"{{"jsonrpc":"2.0","id":{id},"method":"echo","params":null}}"#);
        let item = answer(&origin, &line, r#"{"ok":true}"#);
        assert_eq!(value(&item.item.0)["id"], id);
    }
}

#[test]
fn failures_carry_their_data_and_escape_their_message() {
    let mut response = err_response("\"q\"".to_string(), codes::INTERNAL_ERROR, "a \"b\"\n");
    if let Response::Failure { error, .. } = &mut response {
        error.data = Some("{\"k\":1}".to_string());
    }
    let item = response_envelope(stdio_origin(9), "\"q\"".to_string(), &response);
    assert_eq!(
        item.item.0,
        r#"{"error":{"code":-32603,"data":{"k":1},"message":"a \"b\"\n"},"id":"q","jsonrpc":"2.0"}"#
    );
    assert_eq!(item.request_id.as_deref(), Some("\"q\""));
}

#[test]
fn transport_errors_in_words() {
    assert_eq!(TransportError::Io("x".to_string()).message(), "io: x");
    assert_eq!(TransportError::Serde("x".to_string()).message(), "serde: x");
    assert_eq!(TransportError::OutboundClosed.message(), "outbound channel closed");
    assert_eq!(OUTBOUND_STREAM_CAPACITY, 8192);
}

#[test]
fn connections_write_their_items_and_stop_at_the_end() {
    let a = stdio_origin(1);
    let item = notification_envelope(Some(stdio_origin(1)), "m", "{}");
    let line = format!("{}\n", item.item.0);
    assert_eq!(write_step(&Received::Item(item.clone()), &a), WriteStep::Write(line));
    assert_eq!(write_step(&Received::Item(item), &stdio_origin(2)), WriteStep::Skip);
    assert_eq!(write_step(&Received::Lagged(3), &a), WriteStep::Skip);
    assert_eq!(write_step(&Received::Closed, &a), WriteStep::Stop);
}

#[test]
fn lines_are_handled_or_refused() {
    let line = r#"{"jsonrpc":"2.0","id":3,"method":"ping","params":null}"#;
    match line_step(line, request(line), stdio_origin(1)) {
        LineStep::Handle(q) => assert_eq!((q.id.as_str(), q.method.as_str()), ("3", "ping")),
        LineStep::Refuse(e) => panic!("{e:?}"),
    }
    match line_step(r#"{"id":[1, 2]}"#, None, stdio_origin(1)) {
        LineStep::Refuse(e) => {
            assert_eq!(e.request_id.as_deref(), Some("[1,2]"));
            assert_eq!(
                e.item.0,
                r#"{"error":{"code":-32600,"message":"invalid request"},"id":[1,2],"jsonrpc":"2.0"}"#
            );
            assert!(delivers(&e, &stdio_origin(1)));
        }
        LineStep::Handle(q) => panic!("{q:?}"),
    }
}
