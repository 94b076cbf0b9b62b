use mu_core::lsp_client::{
    content_length, frame, initialize_params, name_given, notice_body, read_reply, reply_given,
    request_body, server_name, symbol_given, symbol_params, symbols_among, workspace_symbols,
    LspError, Reply,
};
use serde_json::Value;

#[test]
fn messages_state_the_length_of_their_body_in_bytes() {
    assert_eq!(frame("{}"), "Content-Length: 2\r\n\r\n{}");
    assert_eq!(frame("\"ä\""), "Content-Length: 4\r\n\r\n\"ä\"");
}

#[test]
fn headers_read_back() {
    assert_eq!(content_length("Content-Length: 123\r\n"), Ok(123));
    assert_eq!(content_length("Content-Length: +7"), Ok(7));
    for bad in ["", "\r\n", "Content-Length: ", "Content-Length: x", "content-length: 3",
        "Content-Length:3", "Content-Length: 99999999999999999999999"]
    {
        assert_eq!(content_length(bad), Err(LspError::InvalidHeader), "{bad:?}");
    }
}

#[test]
fn requests_are_json() {
    let v: Value = serde_json::from_str(&request_body(4, "workspace/symbol", &symbol_params("a\"b")))
        .unwrap();
    assert_eq!(v["jsonrpc"], Value::from("2.0"));
    assert_eq!(v["id"], Value::from(4));
    assert_eq!(v["method"], Value::from("workspace/symbol"));
    assert_eq!(v["params"]["query"], Value::from("a\"b"));
    let n: Value = serde_json::from_str(&notice_body("initialized", "{}")).unwrap();
    assert_eq!(n["method"], Value::from("initialized"));
    assert!(n.get("id").is_none());
    let p: Value = serde_json::from_str(initialize_params()).unwrap();
    assert_eq!(p["processId"], Value::Null);
}

#[test]
fn replies_to_other_requests_are_skipped() {
    assert_eq!(read_reply(r#"{"id":3,"result":1}"#, 4), Ok(Reply::Skip));
    assert_eq!(read_reply(r#"{"method":"window/log"}"#, 4), Ok(Reply::Skip));
    assert_eq!(read_reply(r#"{"id":4,"result":[1, 2]}"#, 4), Ok(Reply::Done("[1,2]".to_string())));
    assert_eq!(read_reply(r#"{"id":4}"#, 4), Ok(Reply::Done("null".to_string())));
    assert_eq!(
        read_reply(r#"{"id":4,"error":{"code":1}}"#, 4),
        Ok(Reply::Failed(r#"{"code":1}"#.to_string()))
    );
    let error = serde_json::from_str::<Value>("nonsense").unwrap_err().to_string();
    assert_eq!(read_reply("nonsense", 4), Err(LspError::Json(error)));
    assert_eq!(reply_given(1, Some(1), None, None), Reply::Done("null".to_string()));
    assert_eq!(reply_given(1, None, None, None), Reply::Skip);
}

#[test]
fn the_server_names_itself() {
    assert_eq!(server_name(r#"{"serverInfo":{"name":"ra"}}"#), "ra");
    assert_eq!(server_name(r#"{"serverInfo":{"version":"1"}}"#), "unknown");
    assert_eq!(server_name(r#"{"capabilities":{}}"#), "");
    assert_eq!(name_given(true, None), "unknown");
    assert_eq!(name_given(false, None), "");
}

const SYMBOLS: &str = r#"[
    {"name":"main","kind":12,"location":{"uri":"file:///w/main.rs",
        "range":{"start":{"line":3,"character":0},"end":{"line":9,"character":1}}}},
    {"name":"nameless","kind":12},
    {"name":"lib","kind":2,"location":{"uri":"untitled:1",
        "range":{"start":{"line":0,"character":0},"end":{"line":1,"character":0}}}}
]"#;

#[test]
fn symbols_lose_the_scheme_of_files() {
    let all = workspace_symbols(SYMBOLS, 10);
    assert_eq!(all.len(), 2);
    assert_eq!(all[0].name, "main");
    assert_eq!(all[0].kind, 12);
    assert_eq!(all[0].file, "/w/main.rs");
    assert_eq!((all[0].start_line, all[0].end_line), (3, 9));
    assert_eq!(all[1].file, "untitled:1");
}

#[test]
fn the_limit_counts_incomplete_symbols_too() {
    assert_eq!(workspace_symbols(SYMBOLS, 2).len(), 1);
    assert_eq!(workspace_symbols(SYMBOLS, 0).len(), 0);
    assert_eq!(workspace_symbols("null", 5).len(), 0);
    assert_eq!(symbols_among(&vec!["{}".to_string()], 5).len(), 0);
}

#[test]
fn symbols_need_every_part() {
    let s = symbol_given(
        Some("f".to_string()),
        Some(12),
        Some("file://x".to_string()),
        Some(4_294_967_297),
        Some(2),
    )
    .unwrap();
    assert_eq!(s.file, "x");
    assert_eq!(s.start_line, 1);
    assert!(symbol_given(None, Some(12), Some("x".to_string()), Some(1), Some(2)).is_none());
    assert!(symbol_given(Some("f".to_string()), Some(12), None, Some(1), Some(2)).is_none());
}

#[test]
fn lsp_errors_in_words() {
    assert_eq!(LspError::Connect("x".to_string()).message(), "connection failed: x");
    assert_eq!(LspError::Io("x".to_string()).message(), "I/O error: x");
    assert_eq!(LspError::Json("x".to_string()).message(), "JSON error: x");
    assert_eq!(LspError::Server("x".to_string()).message(), "LSP server error: x");
    assert_eq!(LspError::InvalidHeader.message(), "invalid header from LSP server");
}
