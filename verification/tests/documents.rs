use pan_registrar::json::{canonical_json, JsonValue};
use pan_registrar::model::{Handle, Listing, SeenRow};
use pan_registrar::views::{
    agent_record_manifest, bind_detail, build_card, claim_detail, listing_ids, log_row_view,
    log_rows_view, operator_detail, owner_handles, owner_view, pair_detail, probe_view,
    release_detail, same_uuid, seen_for, LogRow, ProbeRow,
};

const ID: [u8; 16] = [0x67, 0xe5, 0x50, 0x44, 0x10, 0xb1, 0x42, 0x6f, 0x92, 0x47, 0xbb, 0x68, 0x0e, 0x5f, 0xe0, 0xc8];
const ID_TEXT: &str = "67e55044-10b1-426f-9247-bb680e5fe0c8";

fn handle(listing_id: Option<[u8; 16]>, bind_method: Option<&str>) -> Handle {
    Handle {
        handle: "scout.a@b.io".to_string(),
        email: "a@b.io".to_string(),
        listing_id,
        anchor: "email".to_string(),
        bind_method: bind_method.map(|s| s.to_string()),
        claimed_via: "email".to_string(),
        verified_at: None,
        stale: false,
        created_at: 1_700_000_000_000_000,
        released_at: None,
    }
}

fn obj(members: Vec<(&str, JsonValue)>) -> JsonValue {
    JsonValue::Object(members.into_iter().map(|(k, v)| (k.to_string(), v)).collect())
}

fn listing(source: &str, manifest: JsonValue, presence: Option<&str>) -> Listing {
    Listing {
        id: ID,
        source: source.to_string(),
        source_id: "UAGENTKEY".to_string(),
        name: "Scout".to_string(),
        description: String::new(),
        manifest,
        specialties: vec![],
        protocol: "a2a".to_string(),
        trust: None,
        created_at: 0,
        updated_at: 0,
        presence: presence.map(|s| s.to_string()),
        last_seen_at: Some(1_500_000),
    }
}

fn seen(kind: Option<&str>, key: Option<&str>) -> SeenRow {
    SeenRow {
        last_seen_ip: Some("198.51.100.7".to_string()),
        last_seen_ip_at: Some(2_000_000),
        agent_kind: kind.map(|s| s.to_string()),
        agent_host: None,
        agent_platform: None,
        first_connected_at: None,
        encryption_key: key.map(|s| s.to_string()),
    }
}

#[test]
fn delegated_claim_shows_on_the_card() {
    let mut h = handle(None, None);
    h.claimed_via = "delegated:mesh".to_string();
    let card = canonical_json(&build_card(&h, None, None, None));
    assert!(card.contains("\"claimed_via\":\"delegated:mesh\""));
}

#[test]
fn reserved_handle_card() {
    let h = handle(None, None);
    let card = build_card(&h, None, None, None);
    assert_eq!(
        canonical_json(&card),
        "{\"agent\":null,\"binding\":null,\"claimed_at\":\"2023-11-14T22:13:20Z\",\"claimed_via\":\"email\",\"encryption_key\":null,\"endpoints\":[],\"handle\":\"scout.a@b.io\",\"operator\":null,\"presence\":null,\"reserved\":true}"
    );
}

#[test]
fn key_bearing_agent_card() {
    let h = handle(Some(ID), Some("agent-key"));
    let m = obj(vec![("id", JsonValue::Str("UAGENTKEY".into())), ("node", obj(vec![("id", JsonValue::Str("NODE1".into()))]))]);
    let l = listing("agent", m, Some("online"));
    let d = seen(Some("assistant"), Some("X25519KEY"));
    let card = build_card(&h, Some(&l), Some("Acme"), Some(&d));
    assert_eq!(
        canonical_json(&card),
        "{\"agent\":{\"declared\":true,\"host\":null,\"kind\":\"assistant\",\"platform\":null},\"binding\":\"agent-key\",\"claimed_at\":\"2023-11-14T22:13:20Z\",\"claimed_via\":\"email\",\"encryption_key\":\"X25519KEY\",\"endpoints\":[{\"agent_id\":\"UAGENTKEY\",\"node\":\"NODE1\",\"protocol\":\"agentmesh\"}],\"handle\":\"scout.a@b.io\",\"operator\":{\"name\":\"Acme\"},\"presence\":{\"last_seen_at\":\"1970-01-01T00:00:01.500Z\",\"state\":\"online\"},\"reserved\":false}"
    );
}

#[test]
fn card_never_shows_owner_provenance() {
    let h = handle(Some(ID), Some("agent-key"));
    let l = listing("agentmesh", obj(vec![]), None);
    let d = seen(None, None);
    let text = canonical_json(&build_card(&h, Some(&l), None, Some(&d)));
    assert!(!text.contains("198.51.100.7"));
    assert!(text.contains("\"agent\":null"));
    assert!(text.contains("\"node\":null"));
    assert!(text.contains("\"presence\":null"));
}

#[test]
fn manual_listing_card_uses_the_manifest_endpoint() {
    let h = handle(Some(ID), Some("email-submitter"));
    let l = listing("manual", obj(vec![("endpoint", JsonValue::Str("https://agent.example/a2a".into()))]), None);
    let text = canonical_json(&build_card(&h, Some(&l), None, None));
    assert!(text.contains("\"endpoints\":[{\"protocol\":\"a2a\",\"url\":\"https://agent.example/a2a\"}]"));
    let l = listing("manual", obj(vec![("endpoint", JsonValue::Number("5".into()))]), None);
    let text = canonical_json(&build_card(&h, Some(&l), None, None));
    assert!(text.contains("\"endpoints\":[]"));
}

#[test]
fn owner_view_with_and_without_provenance() {
    let h = handle(Some(ID), Some("email-submitter"));
    let d = seen(Some("bot"), None);
    let v = owner_view(&h, Some(&d));
    assert_eq!(
        canonical_json(&v),
        format!("{{\"agent_host\":null,\"agent_kind\":\"bot\",\"agent_platform\":null,\"anchor\":\"email\",\"bind_method\":\"email-submitter\",\"claimed_via\":\"email\",\"created_at\":\"2023-11-14T22:13:20Z\",\"email\":\"a@b.io\",\"encryption_key\":null,\"first_connected_at\":null,\"handle\":\"scout.a@b.io\",\"last_seen_ip\":\"198.51.100.7\",\"last_seen_ip_at\":\"1970-01-01T00:00:02Z\",\"listing_id\":\"{ID_TEXT}\",\"released_at\":null,\"stale\":false,\"verified_at\":null}}")
    );
    let bare = owner_view(&handle(None, None), Some(&d));
    assert_eq!(
        canonical_json(&bare),
        "{\"anchor\":\"email\",\"bind_method\":null,\"claimed_via\":\"email\",\"created_at\":\"2023-11-14T22:13:20Z\",\"email\":\"a@b.io\",\"handle\":\"scout.a@b.io\",\"listing_id\":null,\"released_at\":null,\"stale\":false,\"verified_at\":null}"
    );
}

#[test]
fn owner_list_joins_the_last_provenance_row() {
    let hs = vec![handle(Some(ID), None), handle(None, None)];
    assert_eq!(listing_ids(&hs), vec![ID]);
    let rows = vec![(ID, seen(Some("first"), None)), ([9u8; 16], seen(Some("other"), None)), (ID, seen(Some("last"), None))];
    assert!(seen_for(&rows, &ID).map(|r| r.agent_kind.clone()) == Some(Some("last".to_string())));
    assert!(seen_for(&rows, &[1u8; 16]).is_none());
    let out = owner_handles(&hs, &rows);
    assert_eq!(out.len(), 2);
    assert!(canonical_json(&out[0]).contains("\"agent_kind\":\"last\""));
    assert!(!canonical_json(&out[1]).contains("agent_kind"));
    assert!(same_uuid(&ID, &ID));
    assert!(!same_uuid(&ID, &[0u8; 16]));
}

#[test]
fn log_rows_for_the_owner() {
    let row = LogRow {
        seq: 3,
        at: 0,
        action: "released".to_string(),
        handle: "scout.a@b.io".to_string(),
        email: "a@b.io".to_string(),
        detail: obj(vec![]),
        prev_hash: Some("cHJldg==".to_string()),
        entry_hash: None,
    };
    assert_eq!(
        canonical_json(&log_row_view(row)),
        "{\"action\":\"released\",\"at\":\"1970-01-01T00:00:00.000000Z\",\"detail\":{},\"email\":\"a@b.io\",\"entry_hash\":null,\"handle\":\"scout.a@b.io\",\"prev_hash\":\"cHJldg==\",\"seq\":3}"
    );
    let rows = vec![
        LogRow { seq: 2, at: 1, action: "bound".into(), handle: "h".into(), email: "e".into(), detail: JsonValue::Null, prev_hash: None, entry_hash: None },
        LogRow { seq: 1, at: 0, action: "claimed".into(), handle: "h".into(), email: "e".into(), detail: JsonValue::Null, prev_hash: None, entry_hash: None },
    ];
    let out = log_rows_view(rows);
    assert_eq!(out.len(), 2);
    assert!(canonical_json(&out[0]).ends_with("\"seq\":2}"));
    assert!(canonical_json(&out[1]).ends_with("\"seq\":1}"));
}

#[test]
fn probe_records() {
    let p = ProbeRow { at: 1_000_000, ok: true, latency_ms: Some(42), detail: None };
    assert_eq!(
        canonical_json(&probe_view(&p)),
        "{\"at\":\"1970-01-01T00:00:01Z\",\"detail\":null,\"latency_ms\":42,\"ok\":true}"
    );
    let p = ProbeRow { at: 0, ok: false, latency_ms: None, detail: Some("timeout".into()) };
    assert_eq!(
        canonical_json(&probe_view(&p)),
        "{\"at\":\"1970-01-01T00:00:00Z\",\"detail\":\"timeout\",\"latency_ms\":null,\"ok\":false}"
    );
}

#[test]
fn log_details() {
    assert_eq!(canonical_json(&claim_detail(None, "email")), "{\"claimed_via\":\"email\",\"listing_id\":null}");
    assert_eq!(
        canonical_json(&claim_detail(Some(ID), "delegated:mesh")),
        format!("{{\"claimed_via\":\"delegated:mesh\",\"listing_id\":\"{ID_TEXT}\"}}")
    );
    assert_eq!(
        canonical_json(&bind_detail(Some(ID), "email")),
        format!("{{\"listing_id\":\"{ID_TEXT}\",\"method\":\"email-submitter\",\"via\":\"email\"}}")
    );
    assert_eq!(
        canonical_json(&pair_detail("UAGENT", ID)),
        format!("{{\"agent_id\":\"UAGENT\",\"listing_id\":\"{ID_TEXT}\",\"method\":\"agent-key\"}}")
    );
    assert_eq!(canonical_json(&release_detail()), "{}");
    assert_eq!(
        canonical_json(&operator_detail("Acme", "delegated:mesh")),
        "{\"display_name\":\"Acme\",\"via\":\"delegated:mesh\"}"
    );
    assert_eq!(canonical_json(&agent_record_manifest("UAGENT")), "{\"id\":\"UAGENT\"}");
}
