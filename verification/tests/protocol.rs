use mu_core::protocol::{
    AskSessionRequest, AuthMechanism, CalloutEvent, CancelSessionRequest,
    CapabilitiesDiscoverRequest, CloseSessionRequest, CreateSessionRequest, DelegateSessionRequest,
    DoneEvent, ErrorEvent, InputRequiredEvent, PingRequest, RespondToInputRequiredRequest,
    TextDeltaEvent, ToolCallCompletedEvent, ToolCallStartedEvent, JSONRPC_VERSION,
};

#[test]
fn method_constants_match_wire_names() {
    assert_eq!(PingRequest::METHOD, "ping");
    assert_eq!(CreateSessionRequest::METHOD, "create_session");
    assert_eq!(AskSessionRequest::METHOD, "ask_session");
    assert_eq!(CancelSessionRequest::METHOD, "cancel_session");
    assert_eq!(CloseSessionRequest::METHOD, "close_session");
    assert_eq!(TextDeltaEvent::METHOD, "session.text_delta");
    assert_eq!(ToolCallStartedEvent::METHOD, "session.tool_call_started");
    assert_eq!(
        ToolCallCompletedEvent::METHOD,
        "session.tool_call_completed"
    );
    assert_eq!(DoneEvent::METHOD, "session.done");
    assert_eq!(ErrorEvent::METHOD, "session.error");
    assert_eq!(CalloutEvent::METHOD, "session.callout");
    assert_eq!(CapabilitiesDiscoverRequest::METHOD, "capabilities/discover");
    assert_eq!(JSONRPC_VERSION, "2.0");
}

#[test]
fn input_required_event_method_constant() {
    assert_eq!(InputRequiredEvent::METHOD, "session.input_required");
    assert_eq!(
        RespondToInputRequiredRequest::METHOD,
        "session.respond_to_input_required"
    );
}

#[test]
fn delegate_session_method_constant() {
    assert_eq!(DelegateSessionRequest::METHOD, "session.delegate");
}

#[test]
fn bearer_serializes_as_lowercase() {
    assert_eq!(AuthMechanism::Bearer.as_wire_str(), "bearer");
}

#[test]
fn other_mechanism_deserializes_from_unknown_string() {
    assert_eq!(
        AuthMechanism::from_wire("gssapi".to_string()),
        AuthMechanism::Other("gssapi".into())
    );
}

#[test]
fn auth_mechanism_bearer_deserializes_from_lowercase() {
    assert_eq!(
        AuthMechanism::from_wire("bearer".to_string()),
        AuthMechanism::Bearer
    );
}

#[test]
fn roundtrip_other_mechanism() {
    let original = AuthMechanism::Other("oauth_bearer".into());
    assert_eq!(original.as_wire_str(), "oauth_bearer");
    let back = AuthMechanism::from_wire(original.as_wire_str().to_string());
    assert_eq!(back, original);
}

#[test]
fn auth_mechanism_display_matches_wire() {
    for (m, wire) in [
        (AuthMechanism::Bearer, "bearer"),
        (AuthMechanism::Other("gssapi".into()), "gssapi"),
        (AuthMechanism::Other("oauth_bearer".into()), "oauth_bearer"),
    ] {
        assert_eq!(m.as_wire_str(), wire);
        assert_eq!(AuthMechanism::from_wire(wire.to_string()), m);
    }
}
