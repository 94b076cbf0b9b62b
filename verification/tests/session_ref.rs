use mu_core::protocol::SessionRef;

#[test]
fn parses_short_form() {
    let r = SessionRef::parse("daemonABC:session-1").expect("short form");
    assert_eq!(r.daemon, "daemonABC");
    assert_eq!(r.session, "session-1");
    assert_eq!(r.to_canonical(), "mu:daemonABC/session-1");
}

#[test]
fn parses_canonical_form() {
    let r = SessionRef::parse("mu:b533a22e600b31e0/session-1").expect("canonical");
    assert_eq!(r.daemon, "b533a22e600b31e0");
    assert_eq!(r.session, "session-1");
}

#[test]
fn canonical_round_trips() {
    let r = SessionRef::parse("mu:d/s").unwrap();
    assert_eq!(SessionRef::parse(&r.to_canonical()).unwrap(), r);
}

#[test]
fn rejects_missing_separator() {
    let err = SessionRef::parse("justonepart").unwrap_err();
    assert!(err.contains("daemon:session"), "{err}");
    assert!(err.contains("mu:<daemon>/<session>"), "{err}");
}

#[test]
fn rejects_empty_parts() {
    assert!(SessionRef::parse("daemon:").is_err());
    assert!(SessionRef::parse(":session").is_err());
    assert!(SessionRef::parse("mu:/session").is_err());
    assert!(SessionRef::parse("mu:daemon/").is_err());
}

#[test]
fn canonical_takes_precedence_over_colon_split() {
    let r = SessionRef::parse("mu:dae/sess").unwrap();
    assert_eq!(r.daemon, "dae");
    assert_eq!(r.session, "sess");
}

#[test]
fn references_are_trimmed() {
    let r = SessionRef::parse("  mu:d/s \n").unwrap();
    assert_eq!(r.daemon, "d");
    assert_eq!(r.session, "s");
    assert_eq!(r.to_canonical(), "mu:d/s");
}
