use pan_registrar::json::canonical_json;
use pan_registrar::model::AgentProfile;
use pan_registrar::flows::{
    bind_begin, bind_step, checkin_begin, checkin_step, claim_begin, claim_step, code_begin,
    code_step, operator_begin, operator_step, pair_begin, pair_start_begin, pair_start_step,
    pair_step, release_begin, release_step, session_begin, session_step, Next, Reply, Request,
};
use pan_registrar::registrar::RegistrarError;

const LISTING: [u8; 16] = [5u8; 16];

fn err_message<T>(n: &Next<T>) -> String {
    match n {
        Next::Finish(Err(e)) => e.message(),
        _ => panic!("expected the action to end in an error"),
    }
}

#[test]
fn claim_without_listing_inserts_then_logs() {
    let (f, n) = claim_begin("a@b.io", " Scout ", None, "email");
    match &n {
        Next::Ask(Request::CountCooling { key, days }) => {
            assert_eq!(key, "scout.a@b.io");
            assert_eq!(*days, 90);
        }
        _ => panic!("expected the cooling-off check"),
    }
    let (f, n) = claim_step(f, Reply::Count(0));
    match &n {
        Next::Ask(Request::InsertHandle { handle, key, email, listing_id, bind_method, claimed_via }) => {
            assert_eq!(claimed_via, "email");
            assert_eq!(handle, "Scout.a@b.io");
            assert_eq!(key, "scout.a@b.io");
            assert_eq!(email, "a@b.io");
            assert!(listing_id.is_none());
            assert!(bind_method.is_none());
        }
        _ => panic!("expected the insert"),
    }
    let (f, n) = claim_step(f, Reply::Done);
    match &n {
        Next::Ask(Request::AppendLog { action, handle, email, detail }) => {
            assert_eq!(action, "claimed");
            assert_eq!(handle, "Scout.a@b.io");
            assert_eq!(email, "a@b.io");
            assert_eq!(canonical_json(detail), "{\"claimed_via\":\"email\",\"listing_id\":null}");
        }
        _ => panic!("expected the log entry"),
    }
    let (_, n) = claim_step(f, Reply::Done);
    assert!(matches!(n, Next::Finish(Ok(h)) if h == "Scout.a@b.io"));
}

#[test]
fn claim_with_listing_checks_the_submitter() {
    let (f, n) = claim_begin("a@b.io", "scout", Some(LISTING), "email");
    assert!(matches!(n, Next::Ask(Request::ReadListingOwner { listing_id }) if listing_id == LISTING));
    let (f, n) = claim_step(f, Reply::ListingOwner(Some(("manual".into(), Some("a@b.io".into())))));
    assert!(matches!(n, Next::Ask(Request::CountCooling { .. })));
    let (_, n) = claim_step(f, Reply::Count(0));
    assert!(matches!(n, Next::Ask(Request::InsertHandle { bind_method: Some(m), .. }) if m == "email-submitter"));

    let (f, _) = claim_begin("a@b.io", "scout", Some(LISTING), "email");
    let (_, n) = claim_step(f, Reply::ListingOwner(Some(("agentmesh".into(), None))));
    assert!(err_message(&n).contains("requires key pairing"));
}

#[test]
fn claim_refusals() {
    let (_, n) = claim_begin("a@b.io", "two words", None, "email");
    assert_eq!(err_message(&n), "name can't contain spaces or '@'");
    let (f, _) = claim_begin("a@b.io", "scout", None, "email");
    let (_, n) = claim_step(f, Reply::Count(1));
    assert_eq!(err_message(&n), "that handle was recently released and is in its cooling-off period");
    let (f, _) = claim_begin("a@b.io", "scout", None, "email");
    let (f, _) = claim_step(f, Reply::Count(0));
    let (_, n) = claim_step(f, Reply::Duplicate);
    assert_eq!(err_message(&n), "that handle is taken");
    let (f, _) = claim_begin("a@b.io", "scout", None, "email");
    let (_, n) = claim_step(f, Reply::Failed("disk full".into()));
    assert_eq!(err_message(&n), "storage error: disk full");
    let (f, _) = claim_begin("a@b.io", "scout", None, "email");
    let (_, n) = claim_step(f, Reply::Done);
    assert_eq!(err_message(&n), "storage error: unexpected storage reply");
}

#[test]
fn bind_and_detach() {
    let (f, n) = bind_begin("a@b.io", "scout.a@b.io", None, "email");
    assert!(matches!(&n, Next::Ask(Request::SetBinding { listing_id: None, bind_method: None, .. })));
    let (f, n) = bind_step(f, Reply::Rows(1));
    match &n {
        Next::Ask(Request::AppendLog { action, detail, .. }) => {
            assert_eq!(action, "bound");
            assert_eq!(canonical_json(detail), "{\"listing_id\":null,\"method\":\"email-submitter\",\"via\":\"email\"}");
        }
        _ => panic!("expected the log entry"),
    }
    let (_, n) = bind_step(f, Reply::Done);
    assert!(matches!(n, Next::Finish(Ok(()))));

    let (f, _) = bind_begin("a@b.io", "someone.else@c.io", None, "email");
    let (_, n) = bind_step(f, Reply::Rows(0));
    assert!(matches!(n, Next::Finish(Err(RegistrarError::Unauthorized))));

    let (f, _) = bind_begin("a@b.io", "scout.a@b.io", Some(LISTING), "email");
    let (_, n) = bind_step(f, Reply::ListingOwner(Some(("manual".into(), Some("c@d.io".into())))));
    assert!(matches!(n, Next::Finish(Err(RegistrarError::Unauthorized))));
}

#[test]
fn release_flow() {
    let (f, n) = release_begin("a@b.io", "scout.a@b.io", "email");
    assert!(matches!(&n, Next::Ask(Request::ReleaseHandle { handle, email }) if handle == "scout.a@b.io" && email == "a@b.io"));
    let (f, n) = release_step(f, Reply::Rows(1));
    assert!(matches!(&n, Next::Ask(Request::AppendLog { action, detail, .. }) if action == "released" && canonical_json(detail) == "{}"));
    let (_, n) = release_step(f, Reply::Done);
    assert!(matches!(n, Next::Finish(Ok(()))));
    let (f, _) = release_begin("a@b.io", "x", "email");
    let (_, n) = release_step(f, Reply::Rows(0));
    assert!(matches!(n, Next::Finish(Err(RegistrarError::Unauthorized))));
}

#[test]
fn delegated_session_may_not_release() {
    let (f, n) = release_begin("a@b.io", "scout.a@b.io", "delegated:mesh");
    assert!(err_message(&n).contains("needs a direct sign-in"));
    assert!(matches!(f.phase, pan_registrar::flows::ReleasePhase::Ended));
    let (_, n) = release_begin("a@b.io", "scout.a@b.io", "email");
    assert!(matches!(n, Next::Ask(Request::ReleaseHandle { .. })));
}

#[test]
fn delegated_claim_records_its_witness() {
    let (f, _) = claim_begin("a@b.io", "scout", None, "delegated:mesh");
    let (f, n) = claim_step(f, Reply::Count(0));
    assert!(matches!(&n, Next::Ask(Request::InsertHandle { claimed_via, .. }) if claimed_via == "delegated:mesh"));
    let (_, n) = claim_step(f, Reply::Done);
    match &n {
        Next::Ask(Request::AppendLog { detail, .. }) => {
            assert_eq!(canonical_json(detail), "{\"claimed_via\":\"delegated:mesh\",\"listing_id\":null}");
        }
        _ => panic!("expected the log entry"),
    }
}

#[test]
fn delegated_session_request() {
    let r = pan_registrar::flows::delegated_session(" A@B.io ", "mesh");
    assert!(matches!(&r, Ok(Request::OpenSession { email, via, ttl_min: 480 }) if email == "a@b.io" && via == "delegated:mesh"));
    let r = pan_registrar::flows::delegated_session("nobody", "mesh");
    assert!(matches!(r, Err(RegistrarError::Invalid(_))));
}

#[test]
fn operator_flow() {
    let (_, n) = operator_begin("a@b.io", "   ", "email");
    assert_eq!(err_message(&n), "operator display name must be 1-80 characters");
    let (f, n) = operator_begin("a@b.io", " Acme ", "email");
    assert!(matches!(&n, Next::Ask(Request::StoreOperator { name, .. }) if name == "Acme"));
    let (f, n) = operator_step(f, Reply::Done);
    assert!(matches!(&n, Next::Ask(Request::AppendLog { action, handle, detail, .. }) if action == "operator" && handle == "-" && canonical_json(detail) == "{\"display_name\":\"Acme\",\"via\":\"email\"}"));
    let (_, n) = operator_step(f, Reply::Done);
    assert!(matches!(n, Next::Finish(Ok(name)) if name == "Acme"));
}

#[test]
fn code_issue_flow() {
    let (_, n) = code_begin("nobody");
    assert_eq!(err_message(&n), "that doesn't look like an email address");
    let (f, n) = code_begin(" A@B.io ");
    assert!(matches!(&n, Next::Ask(Request::CountRecentCodes { email }) if email == "a@b.io"));
    let (_, n) = code_step(f, Reply::Count(5));
    assert_eq!(err_message(&n), "too many codes requested — try again in an hour");
    let (f, _) = code_begin("a@b.io");
    let (f, n) = code_step(f, Reply::Count(0));
    let code = match &n {
        Next::Ask(Request::StoreCode { email, code, ttl_min }) => {
            assert_eq!(email, "a@b.io");
            assert_eq!(*ttl_min, 15);
            assert_eq!(code.len(), 6);
            code.clone()
        }
        _ => panic!("expected the code to be stored"),
    };
    let (_, n) = code_step(f, Reply::Done);
    assert!(matches!(n, Next::Finish(Ok((e, c))) if e == "a@b.io" && c == code));
}

#[test]
fn session_flow() {
    let (f, n) = session_begin("A@b.io", " 012345 ");
    assert!(matches!(&n, Next::Ask(Request::SpendCodeAttempt { email, max_attempts: 5 }) if email == "a@b.io"));
    let (_, n) = session_step(f, Reply::Code(Some("999999".into())));
    assert_eq!(err_message(&n), "wrong or expired code");
    let (f, _) = session_begin("a@b.io", "012345");
    let (_, n) = session_step(f, Reply::Code(None));
    assert_eq!(err_message(&n), "wrong or expired code");
    let (f, _) = session_begin("a@b.io", " 012345 ");
    let (f, n) = session_step(f, Reply::Code(Some("012345".into())));
    assert!(matches!(&n, Next::Ask(Request::DeleteCodes { email }) if email == "a@b.io"));
    let (f, n) = session_step(f, Reply::Done);
    assert!(matches!(&n, Next::Ask(Request::OpenSession { via, ttl_min: 480, .. }) if via == "email"));
    let (_, n) = session_step(f, Reply::Token([3u8; 16]));
    assert!(matches!(n, Next::Finish(Ok(t)) if t == [3u8; 16]));
}

#[test]
fn pair_start_flow() {
    let (f, n) = pair_start_begin("a@b.io", "SCOUT.a@b.io", 1_000_000);
    assert!(matches!(&n, Next::Ask(Request::FindOwnedHandle { handle, .. }) if handle == "SCOUT.a@b.io"));
    let (f, n) = pair_start_step(f, Reply::OwnedHandle(Some("Scout.a@b.io".into())));
    let code = match &n {
        Next::Ask(Request::StorePairingCode { code, handle, email, expires_at }) => {
            assert_eq!(handle, "Scout.a@b.io");
            assert_eq!(email, "a@b.io");
            assert_eq!(*expires_at, 601_000_000);
            code.clone()
        }
        _ => panic!("expected the code to be stored"),
    };
    let (_, n) = pair_start_step(f, Reply::Done);
    assert!(matches!(n, Next::Finish(Ok((c, 601_000_000))) if c == code));
    let (f, _) = pair_start_begin("a@b.io", "theirs", 0);
    let (_, n) = pair_start_step(f, Reply::OwnedHandle(None));
    assert!(matches!(n, Next::Finish(Err(RegistrarError::Unauthorized))));
}

#[test]
fn pair_complete_binds_only_after_the_signature() {
    let (f, n) = pair_begin(" abc-def ", " UAGENT ", "c2lnbmF0dXJl");
    assert!(matches!(&n, Next::Ask(Request::UsePairingCode { code }) if code == "ABC-DEF"));
    let (f, n) = pair_step(f, Reply::Pairing(Some(("scout.a@b.io".into(), "a@b.io".into()))));
    match &n {
        Next::Ask(Request::CheckSignature { agent_id, message, signature }) => {
            assert_eq!(agent_id, "UAGENT");
            assert_eq!(message, "pan-pair-v1:ABC-DEF:UAGENT");
            assert_eq!(signature, b"signature");
        }
        _ => panic!("expected the signature check"),
    }
    let (f, n) = pair_step(f, Reply::Signature { key_ok: true, verified: true });
    match &n {
        Next::Ask(Request::UpsertAgent { agent_id, name, manifest }) => {
            assert_eq!(agent_id, "UAGENT");
            assert_eq!(name, "scout");
            assert_eq!(canonical_json(manifest), "{\"id\":\"UAGENT\"}");
        }
        _ => panic!("expected the agent record"),
    }
    let (f, n) = pair_step(f, Reply::ListingId(LISTING));
    assert!(matches!(&n, Next::Ask(Request::BindToAgent { handle, listing_id }) if handle == "scout.a@b.io" && *listing_id == LISTING));
    let (f, n) = pair_step(f, Reply::Done);
    assert!(matches!(&n, Next::Ask(Request::AppendLog { action, detail, .. }) if action == "bound" && canonical_json(detail) == "{\"agent_id\":\"UAGENT\",\"listing_id\":\"05050505-0505-0505-0505-050505050505\",\"method\":\"agent-key\"}"));
    let (_, n) = pair_step(f, Reply::Done);
    assert!(matches!(n, Next::Finish(Ok(h)) if h == "scout.a@b.io"));
}

#[test]
fn pairing_names_the_agent_with_the_claimed_name() {
    let (f, _) = pair_begin("abc-def", "UAGENT", "c2ln");
    let (f, _) = pair_step(f, Reply::Pairing(Some(("Public.Agent.jeff@gmail.com".into(), "jeff@gmail.com".into()))));
    let (_, n) = pair_step(f, Reply::Signature { key_ok: true, verified: true });
    assert!(matches!(&n, Next::Ask(Request::UpsertAgent { name, .. }) if name == "Public.Agent"));
}

#[test]
fn pair_complete_refusals() {
    let (f, _) = pair_begin("abc-def", "UAGENT", "c2ln");
    let (_, n) = pair_step(f, Reply::Pairing(None));
    assert_eq!(err_message(&n), "unknown, used, or expired pairing code");
    let (f, _) = pair_begin("abc-def", "UAGENT", "***");
    let (_, n) = pair_step(f, Reply::Pairing(Some(("h".into(), "e".into()))));
    assert_eq!(err_message(&n), "signature is not valid base64");
    let (f, _) = pair_begin("abc-def", "UAGENT", "c2ln");
    let (f, _) = pair_step(f, Reply::Pairing(Some(("h".into(), "e".into()))));
    let (_, n) = pair_step(f, Reply::Signature { key_ok: true, verified: false });
    assert_eq!(err_message(&n), "signature does not verify against the agent key");
    let (f, _) = pair_begin("abc-def", "UAGENT", "c2ln");
    let (f, _) = pair_step(f, Reply::Pairing(Some(("h".into(), "e".into()))));
    let (_, n) = pair_step(f, Reply::Signature { key_ok: false, verified: false });
    assert_eq!(err_message(&n), "agent_id is not a valid public key");
}

#[test]
fn checkin_flow() {
    let profile = AgentProfile { kind: Some(" bot ".into()), host: None, platform: None };
    let (_, n) = checkin_begin("UAGENT", 1_000, "c2ln", "198.51.100.7", profile, 1_400);
    assert_eq!(err_message(&n), "check-in timestamp outside the accepted window");
    let profile = AgentProfile { kind: Some(" bot ".into()), host: None, platform: None };
    let (f, n) = checkin_begin(" UAGENT ", 1_000, "c2ln", "198.51.100.7", profile, 1_100);
    match &n {
        Next::Ask(Request::CheckSignature { agent_id, message, signature }) => {
            assert_eq!(agent_id, "UAGENT");
            assert_eq!(message, "pan-checkin-v2\n1000\nUAGENT\n bot \n\n");
            assert_eq!(signature, b"sig");
        }
        _ => panic!("expected the signature check"),
    }
    let (f, n) = checkin_step(f, Reply::Signature { key_ok: true, verified: true });
    match &n {
        Next::Ask(Request::RecordSeen { agent_id, ip, profile }) => {
            assert_eq!(agent_id, "UAGENT");
            assert_eq!(ip, "198.51.100.7");
            assert_eq!(profile.kind, Some("bot".to_string()));
            assert_eq!(profile.host, None);
        }
        _ => panic!("expected the record"),
    }
    let (_, n) = checkin_step(f, Reply::Done);
    assert!(matches!(n, Next::Finish(Ok(()))));
    let none = AgentProfile { kind: None, host: None, platform: None };
    let (f, _) = checkin_begin("UAGENT", 5, "c2ln", "ip", none, 5);
    let (_, n) = checkin_step(f, Reply::Signature { key_ok: true, verified: false });
    assert_eq!(err_message(&n), "signature does not verify against the agent key");
}
