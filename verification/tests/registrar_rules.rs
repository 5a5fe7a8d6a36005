use base64::Engine;
use sha2::Digest;
use pan_registrar::json::{canonical_json, JsonValue};
use pan_registrar::model::AgentProfile;
use pan_registrar::registrar::{
    delegated, session_provenance,
    chain_prev_hash, checkin_message, checkin_window, claim_handle, code_accepted,
    code_issue_allowed, compose_handle, cooling_off_check, email_bind_method, email_bindable,
    claimed_name, handle_key, handle_taken, log_entry, log_entry_hash, log_limit, lookup_key,
    normalize_email, normalize_pairing_code, owned_update, pairing_claimed, pairing_code,
    pairing_code_from, pairing_message, pairing_owner, record_field, recorded_profile,
    session_owner, signature_bytes, signature_outcome, six_digit_code, six_digit_code_from,
    validate_name, validate_operator_name, RegistrarError,
};

fn invalid_message(r: Result<String, RegistrarError>) -> String {
    match r {
        Err(RegistrarError::Invalid(m)) => m,
        _ => panic!("expected an Invalid error"),
    }
}

#[test]
fn normalize_email_trims_and_lowercases() {
    assert_eq!(normalize_email("  Alice@Example.COM ").ok(), Some("alice@example.com".to_string()));
}

#[test]
fn normalize_email_rejects_bad_shapes() {
    let msg = "that doesn't look like an email address";
    assert_eq!(invalid_message(normalize_email("no-at-sign.example.com")), msg);
    assert_eq!(invalid_message(normalize_email("two@@example.com")), msg);
    assert_eq!(invalid_message(normalize_email("@example.com")), msg);
    assert_eq!(invalid_message(normalize_email("alice@localhost")), msg);
    assert_eq!(invalid_message(normalize_email("al ice@example.com")), msg);
    assert_eq!(invalid_message(normalize_email("")), msg);
}

#[test]
fn normalize_email_enforces_the_length_limit() {
    let local = "a".repeat(242);
    let ok = format!("{local}@example.com");
    assert_eq!(ok.len(), 254);
    assert!(normalize_email(&ok).is_ok());
    let too_long = format!("a{ok}");
    assert!(normalize_email(&too_long).is_err());
}

#[test]
fn normalizing_twice_changes_nothing() {
    let once = normalize_email(" Bob@Mail.Example.org ").ok().unwrap();
    let twice = normalize_email(&once).ok().unwrap();
    assert_eq!(once, twice);
}

#[test]
fn validate_name_accepts_and_trims() {
    assert_eq!(validate_name("  carrie ").ok(), Some("carrie".to_string()));
    assert_eq!(validate_name("my.agent").ok(), Some("my.agent".to_string()));
}

#[test]
fn validate_name_refusals() {
    assert_eq!(invalid_message(validate_name("   ")), "name must be 1–64 characters");
    assert_eq!(invalid_message(validate_name(&"x".repeat(65))), "name must be 1–64 characters");
    assert!(validate_name(&"x".repeat(64)).is_ok());
    assert_eq!(invalid_message(validate_name("two words")), "name can't contain spaces or '@'");
    assert_eq!(invalid_message(validate_name("a@b")), "name can't contain spaces or '@'");
    assert_eq!(invalid_message(validate_name("bell\u{7}")), "name can't contain spaces or '@'");
}

#[test]
fn validate_name_counts_characters() {
    assert!(validate_name(&"é".repeat(64)).is_ok());
    assert!(validate_name(&"é".repeat(65)).is_err());
}

#[test]
fn validated_name_validates_again_unchanged() {
    let n = validate_name("\tdora\n").ok().unwrap();
    assert_eq!(validate_name(&n).ok(), Some(n.clone()));
}

#[test]
fn operator_names() {
    assert_eq!(validate_operator_name("  Acme Ops ").ok(), Some("Acme Ops".to_string()));
    let msg = "operator display name must be 1-80 characters";
    assert_eq!(invalid_message(validate_operator_name("  ")), msg);
    assert!(validate_operator_name(&"é".repeat(80)).is_ok());
    assert_eq!(invalid_message(validate_operator_name(&"o".repeat(81))), msg);
}

#[test]
fn handles_compose_and_fold() {
    assert_eq!(compose_handle("bot", "a@b.io"), "bot.a@b.io");
    assert_eq!(handle_key("Bot.A@B.io"), "bot.a@b.io");
    assert_eq!(lookup_key("  Bot.A@B.io  "), "bot.a@b.io");
    assert_eq!(lookup_key("  Bot.A@B.io\n"), "bot.a@b.io\n");
    assert_eq!(lookup_key("\tBot.A@B.io"), "\tbot.a@b.io");
    assert_eq!(lookup_key("   "), "");
}

#[test]
fn claim_handle_composes_validated_name() {
    match claim_handle("owner@example.com", " Scout ") {
        Ok((h, k)) => {
            assert_eq!(h, "Scout.owner@example.com");
            assert_eq!(k, "scout.owner@example.com");
        }
        Err(_) => panic!("claim should compose"),
    }
    assert!(claim_handle("owner@example.com", "bad name").is_err());
}

#[test]
fn claimed_handle_is_found_by_its_own_text() {
    let (h, k) = match claim_handle("owner@example.com", "Scout") {
        Ok(p) => p,
        Err(_) => panic!("claim should compose"),
    };
    assert_eq!(lookup_key(&h), k);
}

#[test]
fn keys_ignore_ascii_case() {
    assert_eq!(handle_key("SCOUT.Owner@Example.com"), handle_key("scout.owner@example.COM"));
}

#[test]
fn claimed_name_removes_only_the_anchor() {
    assert_eq!(claimed_name("scout.owner@example.com", "owner@example.com"), "scout");
    assert_eq!(claimed_name("Public.Agent.jeff@gmail.com", "jeff@gmail.com"), "Public.Agent");
    assert_eq!(claimed_name("nodot", "owner@example.com"), "nodot");
    assert_eq!(claimed_name("scout.other@example.com", "owner@example.com"), "scout.other@example.com");
    assert_eq!(claimed_name("scoutXowner@example.com", "owner@example.com"), "scoutXowner@example.com");
}

#[test]
fn code_rate_limit() {
    assert!(code_issue_allowed(4).is_ok());
    match code_issue_allowed(5) {
        Err(RegistrarError::Invalid(m)) => {
            assert_eq!(m, "too many codes requested — try again in an hour")
        }
        _ => panic!("expected refusal"),
    }
}

#[test]
fn six_digit_codes() {
    let mut b = [0u8; 16];
    b[0] = 0x40;
    b[1] = 0x42;
    b[2] = 0x0f;
    b[3] = 0x00;
    // 0x000f4240 = 1_000_000, which is 0 modulo one million
    assert_eq!(six_digit_code_from(b), "000000");
    b[0] = 0x39;
    b[1] = 0x30;
    b[2] = 0x00;
    // 0x3039 = 12345
    assert_eq!(six_digit_code_from(b), "012345");
    let c = six_digit_code();
    assert_eq!(c.len(), 6);
    assert!(c.chars().all(|ch| ch.is_ascii_digit()));
}

#[test]
fn code_acceptance() {
    assert!(code_accepted(Some("123456"), " 123456 ").is_ok());
    assert!(code_accepted(Some("123456"), "123457").is_err());
    match code_accepted(None, "123456") {
        Err(RegistrarError::Invalid(m)) => assert_eq!(m, "wrong or expired code"),
        _ => panic!("expected refusal"),
    }
}

#[test]
fn session_ownership() {
    assert_eq!(
        session_owner(Some(("a@b.io".to_string(), "email".to_string()))).ok(),
        Some(("a@b.io".to_string(), "email".to_string()))
    );
    assert!(matches!(session_owner(None), Err(RegistrarError::Unauthorized)));
}

#[test]
fn email_binding_rules() {
    let mine = Some(("manual".to_string(), Some("a@b.io".to_string())));
    assert!(email_bindable(mine, "a@b.io").is_ok());
    let theirs = Some(("manual".to_string(), Some("c@d.io".to_string())));
    assert!(matches!(email_bindable(theirs, "a@b.io"), Err(RegistrarError::Unauthorized)));
    let unowned = Some(("manual".to_string(), None));
    assert!(matches!(email_bindable(unowned, "a@b.io"), Err(RegistrarError::Unauthorized)));
    match email_bindable(Some(("agentmesh".to_string(), None)), "a@b.io") {
        Err(RegistrarError::Invalid(m)) => assert_eq!(
            m,
            "this agent requires key pairing — proving you received an email doesn't prove you operate it"
        ),
        _ => panic!("expected refusal"),
    }
    match email_bindable(None, "a@b.io") {
        Err(RegistrarError::Invalid(m)) => assert_eq!(m, "no such listing"),
        _ => panic!("expected refusal"),
    }
}

#[test]
fn cooling_off_and_taken() {
    assert!(cooling_off_check(0).is_ok());
    match cooling_off_check(1) {
        Err(RegistrarError::Taken(m)) => assert_eq!(
            m,
            "that handle was recently released and is in its cooling-off period"
        ),
        _ => panic!("expected refusal"),
    }
    match handle_taken() {
        RegistrarError::Taken(m) => assert_eq!(m, "that handle is taken"),
        _ => panic!("expected Taken"),
    }
}

#[test]
fn bind_method_and_ownership() {
    assert_eq!(email_bind_method(Some([7u8; 16])), Some("email-submitter".to_string()));
    assert_eq!(email_bind_method(None), None);
    assert!(owned_update(1).is_ok());
    assert!(matches!(owned_update(0), Err(RegistrarError::Unauthorized)));
}

#[test]
fn pairing_codes() {
    let mut b = [0u8; 16];
    for (i, v) in [0u8, 8, 13, 24, 31, 32].iter().enumerate() {
        b[i] = *v;
    }
    assert_eq!(pairing_code_from(b), "AJP-29A");
    let (code, expires) = pairing_code(1_000);
    assert_eq!(expires, 1_000 + 600_000_000);
    assert_eq!(code.len(), 7);
    assert_eq!(&code[3..4], "-");
    assert!(code.chars().all(|c| c == '-' || "ABCDEFGHJKLMNPQRSTUVWXYZ23456789".contains(c)));
}

#[test]
fn pairing_code_is_accepted_as_typed() {
    let mut b = [0u8; 16];
    b[..6].copy_from_slice(&[3, 9, 14, 25, 30, 1]);
    let code = pairing_code_from(b);
    assert_eq!(normalize_pairing_code(&code), code);
    assert_eq!(normalize_pairing_code(&format!("  {}\n", code.to_ascii_lowercase())), code);
}

#[test]
fn pairing_helpers() {
    assert_eq!(pairing_owner(Some("X.a@b.io".to_string())).ok(), Some("X.a@b.io".to_string()));
    assert!(matches!(pairing_owner(None), Err(RegistrarError::Unauthorized)));
    assert_eq!(pairing_message("ABC-DEF", "UAGENT"), "pan-pair-v1:ABC-DEF:UAGENT");
    match pairing_claimed(None) {
        Err(RegistrarError::Invalid(m)) => assert_eq!(m, "unknown, used, or expired pairing code"),
        _ => panic!("expected refusal"),
    }
    let row = pairing_claimed(Some(("h.a@b.io".to_string(), "a@b.io".to_string())));
    assert_eq!(row.ok(), Some(("h.a@b.io".to_string(), "a@b.io".to_string())));
}

#[test]
fn signatures() {
    assert_eq!(signature_bytes(" aGVsbG8= ").ok(), Some(b"hello".to_vec()));
    match signature_bytes("not base64!") {
        Err(RegistrarError::Invalid(m)) => assert_eq!(m, "signature is not valid base64"),
        _ => panic!("expected refusal"),
    }
    assert!(signature_outcome(true, true).is_ok());
    match signature_outcome(false, true) {
        Err(RegistrarError::Invalid(m)) => assert_eq!(m, "agent_id is not a valid public key"),
        _ => panic!("expected refusal"),
    }
    match signature_outcome(true, false) {
        Err(RegistrarError::Invalid(m)) => {
            assert_eq!(m, "signature does not verify against the agent key")
        }
        _ => panic!("expected refusal"),
    }
}

#[test]
fn checkin_window_bounds() {
    assert!(checkin_window(1_000, 700).is_ok());
    assert!(checkin_window(1_000, 1_300).is_ok());
    assert!(checkin_window(1_000, 699).is_err());
    assert!(checkin_window(1_000, 1_301).is_err());
    assert!(checkin_window(i64::MIN, i64::MAX).is_err());
}

#[test]
fn checkin_messages() {
    let none = AgentProfile { kind: None, host: None, platform: None };
    assert_eq!(checkin_message(" UAGENT ", -5, &none), "pan-checkin-v1:-5:UAGENT");
    let some = AgentProfile {
        kind: Some("assistant".to_string()),
        host: None,
        platform: Some("linux".to_string()),
    };
    assert_eq!(
        checkin_message("UAGENT", 1700000000, &some),
        "pan-checkin-v2\n1700000000\nUAGENT\nassistant\n\nlinux"
    );
}

#[test]
fn recorded_profile_fields() {
    assert_eq!(record_field(&Some("  x ".to_string())), Some("x".to_string()));
    assert_eq!(record_field(&Some("   ".to_string())), None);
    assert_eq!(record_field(&Some("é".repeat(80))), Some("é".repeat(80)));
    assert_eq!(record_field(&Some("e".repeat(81))), None);
    assert_eq!(record_field(&None), None);
    let p = recorded_profile(&AgentProfile {
        kind: Some(" bot ".to_string()),
        host: Some(String::new()),
        platform: None,
    });
    assert_eq!(p.kind, Some("bot".to_string()));
    assert_eq!(p.host, None);
    assert_eq!(p.platform, None);
}

#[test]
fn error_messages() {
    assert_eq!(RegistrarError::Unauthorized.message(), "not authorized");
    assert_eq!(RegistrarError::Db("boom".to_string()).message(), "storage error: boom");
    assert_eq!(RegistrarError::Invalid("bad".to_string()).message(), "bad");
    assert_eq!(RegistrarError::Taken("held".to_string()).message(), "held");
}

#[test]
fn chain_genesis_and_link() {
    assert_eq!(chain_prev_hash(None), "");
    assert_eq!(chain_prev_hash(Some(None)), "");
    assert_eq!(chain_prev_hash(Some(Some("abc=".to_string()))), "abc=");
}

fn detail_with_listing() -> JsonValue {
    JsonValue::Object(vec![("listing_id".to_string(), JsonValue::Null)])
}

#[test]
fn log_entry_canonical_text() {
    let v = log_entry("claimed", 0, detail_with_listing(), "a@b.io", "x.a@b.io", "", 7);
    assert_eq!(
        canonical_json(&v),
        "{\"action\":\"claimed\",\"at\":\"1970-01-01T00:00:00.000000Z\",\"detail\":{\"listing_id\":null},\"email\":\"a@b.io\",\"handle\":\"x.a@b.io\",\"prev_hash\":\"\",\"seq\":7}"
    );
}

#[test]
fn log_entry_hash_is_base64_sha256_of_canonical_text() {


    let text = "{\"action\":\"claimed\",\"at\":\"1970-01-01T00:00:00.000000Z\",\"detail\":{\"listing_id\":null},\"email\":\"a@b.io\",\"handle\":\"x.a@b.io\",\"prev_hash\":\"\",\"seq\":7}";
    let expected = base64::engine::general_purpose::STANDARD.encode(sha2::Sha256::digest(text.as_bytes()));
    let h = log_entry_hash("claimed", 0, detail_with_listing(), "a@b.io", "x.a@b.io", "", 7);
    assert_eq!(h, expected);
    assert_eq!(h.len(), 44);
}

#[test]
fn log_hash_changes_with_the_previous_hash() {
    let a = log_entry_hash("bound", 1_000_000, detail_with_listing(), "a@b.io", "x.a@b.io", "p1", 2);
    let b = log_entry_hash("bound", 1_000_000, detail_with_listing(), "a@b.io", "x.a@b.io", "p2", 2);
    assert_ne!(a, b);
    let c = log_entry_hash("bound", 1_000_000, detail_with_listing(), "a@b.io", "y.a@b.io", "p1", 2);
    assert_ne!(a, c);
}

#[test]
fn log_limits_clamp() {
    assert_eq!(log_limit(0), 1);
    assert_eq!(log_limit(-3), 1);
    assert_eq!(log_limit(100), 100);
    assert_eq!(log_limit(501), 500);
}

#[test]
fn checkin_canonicals_do_not_collide() {
    let p1 = AgentProfile { kind: Some("ab".into()), host: Some(String::new()), platform: None };
    let p2 = AgentProfile { kind: Some("a".into()), host: Some("b".into()), platform: None };
    assert_ne!(checkin_message("U", 7, &p1), checkin_message("U", 7, &p2));
    let none = AgentProfile { kind: None, host: None, platform: None };
    let empty = AgentProfile { kind: Some(String::new()), host: None, platform: None };
    assert_ne!(checkin_message("U", 7, &none), checkin_message("U", 7, &empty));
    assert_ne!(checkin_message("U", 17, &none), checkin_message("7:U", 1, &none));
}

#[test]
fn pairing_strings_do_not_collide() {
    assert_ne!(pairing_message("ABC-DEF", "U1"), pairing_message("ABC-DE", "FU1"));
    assert_ne!(pairing_message("ABC-DEF", "U1"), pairing_message("ABC-DEG", "U1"));
}

#[test]
fn session_provenance_names_the_witness() {
    assert_eq!(session_provenance(None), "email");
    assert_eq!(session_provenance(Some("mesh")), "delegated:mesh");
    assert!(!delegated("email"));
    assert!(delegated("delegated:mesh"));
    assert!(delegated(&session_provenance(Some(""))));
    assert!(!delegated("delegated"));
}

#[test]
fn appended_rows_form_a_chain() {
    let first = log_entry_hash("claimed", 0, detail_with_listing(), "a@b.io", "x.a@b.io", &chain_prev_hash(None), 1);
    let prev = chain_prev_hash(Some(Some(first.clone())));
    assert_eq!(prev, first);
    let second = log_entry_hash("bound", 1_000_000, detail_with_listing(), "a@b.io", "x.a@b.io", &prev, 2);
    let text = format!(
        "{{\"action\":\"bound\",\"at\":\"1970-01-01T00:00:01.000000Z\",\"detail\":{{\"listing_id\":null}},\"email\":\"a@b.io\",\"handle\":\"x.a@b.io\",\"prev_hash\":\"{first}\",\"seq\":2}}"
    );
    let expected = base64::engine::general_purpose::STANDARD.encode(sha2::Sha256::digest(text.as_bytes()));
    assert_eq!(second, expected);
}
