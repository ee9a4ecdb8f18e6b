use aurion::parser::{parse, ParseError};

fn v(s: &str) -> Vec<u8> {
    s.as_bytes().to_vec()
}

fn hexkey() -> String {
    "0123456789abcdef".repeat(4)
}

#[test]
fn parses_the_example_document() {
    let doc = format!(
        "{{\"host\":{{\"ip\":\"127.0.0.1\",\"hostname\":\"localhost\"}},\
         \"service\":{{\"protocol\":\"tcp\",\"port\":80,\"product\":\"ExampleHTTP\",\"version\":\"0.1\"}},\
         \"tool_run\":{{\"name\":\"skeleton\",\"version\":\"0.1.0\",\"cache_key\":\"{k}\"}},\
         \"evidence\":{{\"summary\":\"banner grab\",\"cas_key\":\"{k}\"}}}}",
        k = hexkey()
    );
    let m = parse(&doc.into_bytes()).expect("example document must parse");
    let h = m.host.expect("host present");
    assert_eq!(h.ip, v("127.0.0.1"));
    assert_eq!(h.hostname, Some(v("localhost")));
    let s = m.service.expect("service present");
    assert_eq!(s.host_ip, v("127.0.0.1"));
    assert_eq!(s.protocol, v("tcp"));
    assert_eq!(s.port, 80);
    assert_eq!(s.product, Some(v("ExampleHTTP")));
    assert_eq!(s.version, Some(v("0.1")));
    assert_eq!(s.banner, None);
    let t = m.tool_run.expect("tool_run present");
    assert_eq!(t.name, v("skeleton"));
    assert_eq!(t.version, v("0.1.0"));
    assert_eq!(t.cache_key, v(&hexkey()));
    let e = m.evidence.expect("evidence present");
    assert_eq!(e.summary, v("banner grab"));
    assert_eq!(e.cas_key, v(&hexkey()));
}

#[test]
fn empty_document_is_an_empty_mutation() {
    let m = parse(&v("{}")).expect("empty object parses");
    assert!(m.host.is_none());
    assert!(m.service.is_none());
    assert!(m.tool_run.is_none());
    assert!(m.evidence.is_none());
}

#[test]
fn trailing_whitespace_is_ignored() {
    assert!(parse(&v("  {\"host\":{\"ip\":\"1.2.3.4\"}}  \r\n")).is_ok());
}

#[test]
fn trailing_data_is_rejected() {
    assert_eq!(parse(&v("{} x")), Err(ParseError::TrailingData));
}

#[test]
fn unknown_top_level_key_is_rejected() {
    assert_eq!(parse(&v("{\"hosts\":{\"ip\":\"1.2.3.4\"}}")), Err(ParseError::UnknownKey));
}

#[test]
fn unknown_field_is_rejected() {
    assert_eq!(parse(&v("{\"host\":{\"ip\":\"1.2.3.4\",\"mac\":\"x\"}}")), Err(ParseError::UnknownKey));
}

#[test]
fn missing_required_field_is_rejected() {
    assert_eq!(parse(&v("{\"host\":{\"hostname\":\"a\"}}")), Err(ParseError::MissingField));
    assert_eq!(parse(&v("{\"host\":{\"ip\":\"\"}}")), Err(ParseError::MissingField));
    assert_eq!(
        parse(&v("{\"service\":{\"protocol\":\"tcp\"}}")),
        Err(ParseError::MissingField)
    );
    assert_eq!(
        parse(&v("{\"tool_run\":{\"name\":\"t\",\"version\":\"1\"}}")),
        Err(ParseError::MissingField)
    );
    let e = format!("{{\"evidence\":{{\"cas_key\":\"{}\"}}}}", hexkey());
    assert_eq!(parse(&e.into_bytes()), Err(ParseError::MissingField));
}

#[test]
fn service_without_any_host_reference_is_rejected() {
    assert_eq!(
        parse(&v("{\"service\":{\"protocol\":\"tcp\",\"port\":80}}")),
        Err(ParseError::MissingField)
    );
    // An explicit host field inside the service suffices.
    let m = parse(&v("{\"service\":{\"host\":\"9.9.9.9\",\"protocol\":\"tcp\",\"port\":80}}"))
        .expect("explicit host reference");
    assert_eq!(m.service.unwrap().host_ip, v("9.9.9.9"));
}

#[test]
fn type_mismatch_is_rejected() {
    assert_eq!(parse(&v("{\"host\":{\"ip\":80}}")), Err(ParseError::TypeMismatch));
    assert_eq!(
        parse(&v("{\"service\":{\"protocol\":\"tcp\",\"port\":\"80\"}}")),
        Err(ParseError::TypeMismatch)
    );
    assert_eq!(
        parse(&v("{\"service\":{\"protocol\":\"tcp\",\"port\":70000}}")),
        Err(ParseError::TypeMismatch)
    );
}

#[test]
fn duplicate_keys_are_rejected() {
    assert_eq!(
        parse(&v("{\"host\":{\"ip\":\"1.1.1.1\",\"ip\":\"2.2.2.2\"}}")),
        Err(ParseError::DuplicateKey)
    );
    assert_eq!(
        parse(&v("{\"host\":{\"ip\":\"1.1.1.1\"},\"host\":{\"ip\":\"2.2.2.2\"}}")),
        Err(ParseError::DuplicateKey)
    );
}

#[test]
fn bad_evidence_key_is_rejected() {
    assert_eq!(
        parse(&v("{\"evidence\":{\"summary\":\"s\",\"cas_key\":\"abc\"}}")),
        Err(ParseError::BadCasKey)
    );
    let upper = format!(
        "{{\"evidence\":{{\"summary\":\"s\",\"cas_key\":\"{}\"}}}}",
        "0123456789ABCDEF".repeat(4)
    );
    assert_eq!(parse(&upper.into_bytes()), Err(ParseError::BadCasKey));
}

#[test]
fn malformed_syntax_is_rejected() {
    assert_eq!(parse(&v("")), Err(ParseError::Syntax));
    assert_eq!(parse(&v("[]")), Err(ParseError::Syntax));
    assert_eq!(parse(&v("{\"host\"")), Err(ParseError::Syntax));
    assert_eq!(parse(&v("{\"host\":42}")), Err(ParseError::Syntax));
    assert_eq!(parse(&v("{\"host\":{\"ip\":\"1.1.1.1\"}")), Err(ParseError::Syntax));
}

#[test]
fn oversized_number_is_rejected() {
    assert_eq!(
        parse(&v("{\"service\":{\"protocol\":\"tcp\",\"port\":99999999999999999999}}")),
        Err(ParseError::TypeMismatch)
    );
}
