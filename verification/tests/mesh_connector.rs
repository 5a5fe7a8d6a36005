use pan_registrar::json::JsonValue;
use pan_registrar::mesh::{
    connector_next, connector_start, harvest_listing, manifest_specialties, mesh_config,
    presence_update, reconnect_delay, ConnectorAction, ConnectorPhase, PresenceUpdate,
};

fn s(t: &str) -> JsonValue {
    JsonValue::Str(t.to_string())
}

fn obj(members: Vec<(&str, JsonValue)>) -> JsonValue {
    JsonValue::Object(members.into_iter().map(|(k, v)| (k.to_string(), v)).collect())
}

#[test]
fn config_needs_a_nats_url() {
    assert!(mesh_config(None, None, None, Some("10")).is_none());
    let c = mesh_config(Some("nats://x".into()), Some("jwt".into()), None, None).unwrap();
    assert_eq!(c.nats_url, "nats://x");
    assert_eq!(c.jwt, Some("jwt".to_string()));
    assert_eq!(c.seed, None);
    assert_eq!(c.poll_secs, 30);
    assert_eq!(mesh_config(Some("n".into()), None, None, Some("5")).unwrap().poll_secs, 5);
    assert_eq!(mesh_config(Some("n".into()), None, None, Some("five")).unwrap().poll_secs, 30);
    assert_eq!(mesh_config(Some("n".into()), None, None, Some("-5")).unwrap().poll_secs, 30);
}

#[test]
fn presence_events() {
    let payload = obj(vec![("event_type", s("node_online"))]);
    let data = obj(vec![("node", s("N1"))]);
    match presence_update(Some(&payload), &data) {
        PresenceUpdate::Mark { node, state } => {
            assert_eq!(node, "N1");
            assert_eq!(state, "online");
        }
        _ => panic!("expected an update"),
    }
    let payload = obj(vec![("event_type", s("node_offline"))]);
    assert!(matches!(presence_update(Some(&payload), &data), PresenceUpdate::Mark { state, .. } if state == "offline"));
    let payload = obj(vec![("event_type", s("agent_joined"))]);
    assert!(matches!(presence_update(Some(&payload), &data), PresenceUpdate::Ignored { event_type } if event_type == "agent_joined"));
    assert!(matches!(presence_update(None, &data), PresenceUpdate::Ignored { event_type } if event_type.is_empty()));
    let nodeless = obj(vec![("node", s(""))]);
    assert!(matches!(presence_update(Some(&payload), &nodeless), PresenceUpdate::MissingNode { .. }));
    assert!(matches!(presence_update(None, &JsonValue::Null), PresenceUpdate::MissingNode { .. }));
}

#[test]
fn harvest_requires_an_id() {
    let e = harvest_listing(&obj(vec![("name", s("x"))])).err().unwrap();
    assert_eq!(e, "manifest missing id");
    assert!(harvest_listing(&obj(vec![("id", JsonValue::Number("7".into()))])).is_err());
}

#[test]
fn harvest_defaults() {
    let l = harvest_listing(&obj(vec![("id", s("UAGENT"))])).ok().unwrap();
    assert_eq!(l.source, "agentmesh");
    assert_eq!(l.source_id, "UAGENT");
    assert_eq!(l.name, "UAGENT");
    assert_eq!(l.description, "");
    assert!(l.specialties.is_empty());
    assert_eq!(l.trust, None);
    assert_eq!(l.protocol, "mesh");
    assert_eq!(l.availability, "unknown");
}

#[test]
fn harvest_reads_the_manifest() {
    let m = obj(vec![
        ("id", s("UAGENT")),
        ("name", s("Scout")),
        ("description", s("finds things")),
        ("availability", s("online")),
        ("capabilities", JsonValue::Array(vec![s("search"), JsonValue::Number("1".into()), s("build:macos")])),
        (
            "skills",
            JsonValue::Array(vec![
                obj(vec![("id", s("web")), ("tags", JsonValue::Array(vec![s("search"), s("http")]))]),
                obj(vec![("tags", JsonValue::Array(vec![s("alpha")]))]),
                s("not a skill"),
            ]),
        ),
        ("node", obj(vec![("profile", obj(vec![("trust_tier", s("verified"))]))])),
    ]);
    let l = harvest_listing(&m).ok().unwrap();
    assert_eq!(l.name, "Scout");
    assert_eq!(l.description, "finds things");
    assert_eq!(l.availability, "online");
    assert_eq!(l.trust, Some("verified".to_string()));
    assert_eq!(l.specialties, vec!["alpha", "build:macos", "http", "search", "skill:web"]);
    assert_eq!(manifest_specialties(&m), l.specialties);
}

#[test]
fn reconnect_backoff() {
    assert_eq!(reconnect_delay(2, false), (2, 4));
    assert_eq!(reconnect_delay(128, false), (128, 256));
    assert_eq!(reconnect_delay(256, false), (256, 300));
    assert_eq!(reconnect_delay(300, false), (300, 300));
    assert_eq!(reconnect_delay(300, true), (2, 4));
}

#[test]
fn backoff_never_exceeds_five_minutes() {
    let mut b = 2;
    for _ in 0..20 {
        let (wait, next) = reconnect_delay(b, false);
        assert!((2..=300).contains(&wait));
        b = next;
    }
    assert_eq!(b, 300);
}

#[test]
fn connector_cycle() {
    let (c, a) = connector_start(30);
    assert!(matches!(a, ConnectorAction::Connect));
    let (c, a) = connector_next(c, true);
    assert!(matches!(a, ConnectorAction::Subscribe));
    let (c, a) = connector_next(c, true);
    assert!(matches!(a, ConnectorAction::Sweep));
    let (c, a) = connector_next(c, true);
    assert!(matches!(a, ConnectorAction::Sleep(30)));
    let (c, a) = connector_next(c, true);
    assert!(matches!(a, ConnectorAction::Sweep));
    let (c, a) = connector_next(c, false);
    assert!(matches!(a, ConnectorAction::Sleep(2)));
    assert!(matches!(c.phase, ConnectorPhase::BackingOff));
    assert_eq!(c.backoff, 4);
    let (c, a) = connector_next(c, true);
    assert!(matches!(a, ConnectorAction::Connect));
    let (c, a) = connector_next(c, false);
    assert!(matches!(a, ConnectorAction::Sleep(4)));
    assert_eq!(c.backoff, 8);
}
