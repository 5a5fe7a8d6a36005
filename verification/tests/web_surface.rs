use pan_registrar::json::canonical_json;
use pan_registrar::registrar::RegistrarError;
use pan_registrar::web::{
    bearer_token, delegation_check, delivery_label, email_request, error_body, health_body,
    listen_port, listing_not_found, no_agent, operator_requirement, reg_err, resolve_request,
    secrets_equal, spec_page_html, submission_name_check, submission_outcome,
    submission_protocol, submission_source_id, urlencode, verification_email, webfinger_handle,
    webfinger_jrd, ResolveBy,
};

#[test]
fn urlencode_keeps_unreserved_and_escapes_the_rest() {
    assert_eq!(urlencode("abc-XYZ_0.9~"), "abc-XYZ_0.9~");
    assert_eq!(urlencode("scout.a@b.io"), "scout.a%40b.io");
    assert_eq!(urlencode("a b/c"), "a%20b%2Fc");
    assert_eq!(urlencode("é"), "%C3%A9");
    assert_eq!(urlencode(""), "");
}

fn url_decode(t: &str) -> Vec<u8> {
    let b = t.as_bytes();
    let mut out = Vec::new();
    let mut i = 0;
    while i < b.len() {
        if b[i] == b'%' {
            out.push(u8::from_str_radix(&t[i + 1..i + 3], 16).unwrap());
            i += 3;
        } else {
            out.push(b[i]);
            i += 1;
        }
    }
    out
}

#[test]
fn urlencode_decodes_back_to_the_bytes() {
    for s in ["scout.a@b.io", "100% sure?", "日本語", "a+b=c&d"] {
        assert_eq!(url_decode(&urlencode(s)), s.as_bytes().to_vec());
    }
}

#[test]
fn registrar_errors_as_responses() {
    let e = reg_err(&RegistrarError::Invalid("bad".to_string()));
    assert_eq!((e.status, e.message.as_str()), (400, "bad"));
    let e = reg_err(&RegistrarError::Taken("held".to_string()));
    assert_eq!((e.status, e.message.as_str()), (409, "held"));
    let e = reg_err(&RegistrarError::Unauthorized);
    assert_eq!((e.status, e.message.as_str()), (401, "session expired — verify your email again"));
    let e = reg_err(&RegistrarError::Db("connection reset".to_string()));
    assert_eq!((e.status, e.message.as_str()), (500, "storage error"));
}

#[test]
fn error_bodies() {
    assert_eq!(canonical_json(&error_body("nope")), "{\"error\":\"nope\",\"ok\":false}");
}

#[test]
fn bearer_tokens() {
    let t = bearer_token(Some("Bearer 67e55044-10b1-426f-9247-bb680e5fe0c8 "));
    assert_eq!(
        t,
        Some([0x67, 0xe5, 0x50, 0x44, 0x10, 0xb1, 0x42, 0x6f, 0x92, 0x47, 0xbb, 0x68, 0x0e, 0x5f, 0xe0, 0xc8])
    );
    assert_eq!(bearer_token(Some("bearer 67e55044-10b1-426f-9247-bb680e5fe0c8")), None);
    assert_eq!(bearer_token(Some("Bearer not-a-uuid")), None);
    assert_eq!(bearer_token(Some("Bear")), None);
    assert_eq!(bearer_token(None), None);
}

#[test]
fn secret_comparison() {
    assert!(secrets_equal(b"s3cret", b"s3cret"));
    assert!(!secrets_equal(b"s3cret", b"s3creT"));
    assert!(!secrets_equal(b"s3cret", b"s3cre"));
    assert!(!secrets_equal(b"s3cre", b"s3cret"));
    assert!(!secrets_equal(b"", b"x"));
    assert!(!secrets_equal(b"ab\0", b"ab"));
    assert!(secrets_equal(b"", b""));
}

#[test]
fn delegation() {
    let e = delegation_check(None, Some("x")).err().unwrap();
    assert_eq!((e.status, e.message.as_str()), (501, "delegation not configured"));
    let e = delegation_check(Some(""), Some("")).err().unwrap();
    assert_eq!(e.status, 501);
    assert!(delegation_check(Some("k3y"), Some("k3y")).is_ok());
    let e = delegation_check(Some("k3y"), Some("k3z")).err().unwrap();
    assert_eq!((e.status, e.message.as_str()), (401, "invalid delegate secret"));
    assert_eq!(delegation_check(Some("k3y"), None).err().unwrap().status, 401);
}

#[test]
fn submissions() {
    assert!(submission_name_check("Echo").is_ok());
    let e = submission_name_check("  ").err().unwrap();
    assert_eq!((e.status, e.message.as_str()), (400, "name is required"));
    assert_eq!(submission_outcome(Some([1u8; 16])).ok(), Some([1u8; 16]));
    let e = submission_outcome(None).err().unwrap();
    assert_eq!((e.status, e.message.as_str()), (409, "that source_id belongs to another submitter"));
    assert_eq!(submission_source_id(&Some("echo-1".to_string())), "echo-1");
    let fresh = submission_source_id(&None);
    assert_eq!(fresh.len(), 36);
    assert!(uuid::Uuid::parse_str(&fresh).is_ok());
    assert_eq!(submission_protocol(&None), "unknown");
    assert_eq!(submission_protocol(&Some("a2a".to_string())), "a2a");
    let e = listing_not_found();
    assert_eq!((e.status, e.message.as_str()), (404, "no such listing"));
}

#[test]
fn claims_need_an_operator_name() {
    assert!(operator_requirement(true, false).is_ok());
    assert!(operator_requirement(false, true).is_ok());
    let e = operator_requirement(false, false).err().unwrap();
    assert_eq!(e.status, 400);
    assert!(e.message.starts_with("operator_name required"));
}

#[test]
fn resolution_requests() {
    assert!(matches!(resolve_request(Some("h"), Some("a")), Ok(ResolveBy::Handle(h)) if h == "h"));
    assert!(matches!(resolve_request(None, Some("a")), Ok(ResolveBy::Agent(a)) if a == "a"));
    let e = resolve_request(None, None).err().unwrap();
    assert_eq!((e.status, e.message.as_str()), (400, "pass handle= or agent_id="));
    let e = no_agent();
    assert_eq!((e.status, e.message.as_str()), (404, "no agent by that name"));
}

#[test]
fn webfinger_documents() {
    assert_eq!(webfinger_handle("acct:scout.a@b.io"), "scout.a@b.io");
    assert_eq!(webfinger_handle("scout.a@b.io"), "scout.a@b.io");
    let jrd = webfinger_jrd("scout.a@b.io", &Some("agent-key".to_string()));
    assert_eq!(
        canonical_json(&jrd),
        "{\"links\":[{\"href\":\"/api/resolve?handle=scout.a%40b.io\",\"rel\":\"urn:pan:card\",\"type\":\"application/json\"}],\"properties\":{\"urn:pan:binding\":\"agent-key\"},\"subject\":\"acct:scout.a@b.io\"}"
    );
    let jrd = webfinger_jrd("x.a@b.io", &None);
    assert!(canonical_json(&jrd).contains("\"properties\":{\"urn:pan:binding\":null}"));
}

#[test]
fn spec_page_frames_rendered_markdown() {
    let page = spec_page_html("# PAN\n\nhello");
    assert!(page.starts_with("<!doctype html><html lang=\"en\">"));
    assert!(page.contains("<h1>PAN</h1>\n<p>hello</p>\n"));
    assert!(page.ends_with("\n</main></body></html>"));
}

#[test]
fn verification_emails() {
    let (subject, text) = verification_email("012345");
    assert_eq!(subject, "012345 is your Agent Catalog verification code");
    assert_eq!(
        text,
        "Your verification code is 012345. It expires in 15 minutes.\n\nIf you didn't request this, ignore this email."
    );
    let body = email_request(None, "a@b.io", "012345");
    let t = canonical_json(&body);
    assert!(t.starts_with("{\"from\":\"onboarding@resend.dev\",\"subject\":\"012345 is your"));
    assert!(t.ends_with(",\"to\":[\"a@b.io\"]}"));
    let body = email_request(Some("pan@example.org"), "a@b.io", "1");
    assert!(canonical_json(&body).starts_with("{\"from\":\"pan@example.org\""));
}

#[test]
fn delivery_labels() {
    assert_eq!(delivery_label(false, None), "console");
    assert_eq!(delivery_label(true, Some(200)), "email");
    assert_eq!(delivery_label(true, Some(299)), "email");
    assert_eq!(delivery_label(true, Some(422)), "failed");
    assert_eq!(delivery_label(true, None), "failed");
}

#[test]
fn ports_and_health() {
    assert_eq!(listen_port(None), 8080);
    assert_eq!(listen_port(Some("3000")), 3000);
    assert_eq!(listen_port(Some("+3000")), 3000);
    assert_eq!(listen_port(Some("65535")), 65535);
    assert_eq!(listen_port(Some("65536")), 8080);
    assert_eq!(listen_port(Some(" 3000")), 8080);
    assert_eq!(listen_port(Some("")), 8080);
    assert_eq!(canonical_json(&health_body("0.1.0")), "{\"ok\":true,\"version\":\"0.1.0\"}");
}
