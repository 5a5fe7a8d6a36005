//! The documents the registrar publishes: the resolution card, the owner's
//! view of their handles, their history log, and a listing's probe record.
//! Each is stated as the canonical JSON text it must have.

use vstd::prelude::*;
use crate::codec::{
    format_rfc3339, rfc3339_text, uuid_hyphenated, uuid_string, EARLIEST_MICROS, LATEST_MICROS,
};
use crate::json::{
    array_of_one, as_str, copy_value, empty_array, get, json_get, json_opt_str, json_str,
    json_str_value, json_string, json_text, lemma_ascending_object, member, member_texts,
    object_text, JsonValue,
};
use crate::model::{Handle, Listing, SeenRow};
use crate::order::text_lt;
use crate::numeric::{push_signed_decimal, signed_decimal};
use crate::text::{chars_eq, chars_of, string_of};
use crate::web::opt_text;

verus! {

/// The JSON literal `null`.
pub open spec fn null_text() -> Seq<char> {
    seq!['n', 'u', 'l', 'l']
}

/// The JSON literal for a boolean.
pub open spec fn bool_text(b: bool) -> Seq<char> {
    if b {
        seq!['t', 'r', 'u', 'e']
    } else {
        seq!['f', 'a', 'l', 's', 'e']
    }
}

/// An instant chrono can represent.
pub open spec fn instant_ok(t: i64) -> bool {
    EARLIEST_MICROS <= t <= LATEST_MICROS
}

/// An instant as serde writes a `DateTime<Utc>`: an RFC 3339 string.
pub open spec fn instant_text(t: i64) -> Seq<char> {
    json_string(rfc3339_text(t, false))
}

/// An optional instant: the RFC 3339 string, or null.
pub open spec fn opt_instant_text(t: Option<i64>) -> Seq<char> {
    match t {
        Some(x) => instant_text(x),
        None => null_text(),
    }
}

/// An instant as a JSON string.
pub fn instant_value(t: i64) -> (v: JsonValue)
    requires
        instant_ok(t),
    ensures
        v.wf(),
        json_text(v) == instant_text(t),
{
    JsonValue::Str(format_rfc3339(t, false))
}

/// An optional instant as JSON.
pub fn opt_instant_value(t: Option<i64>) -> (v: JsonValue)
    requires
        t matches Some(x) ==> instant_ok(x),
    ensures
        v.wf(),
        json_text(v) == opt_instant_text(t),
{
    match t {
        Some(x) => instant_value(x),
        None => JsonValue::Null,
    }
}

// ---------------------------------------------------------------------------
// The card

/// The declared agent profile on a card: present only when the row
/// declares at least one of kind, host and platform.
pub open spec fn agent_text(decl: Option<&SeenRow>) -> Seq<char> {
    match decl {
        Some(d) => if d.agent_kind is Some || d.agent_host is Some || d.agent_platform is Some {
            object_text(
                seq![
                    ("declared"@, bool_text(true)),
                    ("host"@, opt_text(d.agent_host)),
                    ("kind"@, opt_text(d.agent_kind)),
                    ("platform"@, opt_text(d.agent_platform)),
                ],
            )
        } else {
            null_text()
        },
        None => null_text(),
    }
}

/// The public encryption key on a card, if the row carries one.
pub open spec fn encryption_key_text(decl: Option<&SeenRow>) -> Seq<char> {
    match decl {
        Some(d) => opt_text(d.encryption_key),
        None => null_text(),
    }
}

/// Whether a listing's source is a key-bearing agent.
pub open spec fn key_bearing(source: Seq<char>) -> bool {
    source == "agent"@ || source == "agentmesh"@
}

/// The mesh node a manifest names (`manifest.node.id`), or null.
pub open spec fn node_text(manifest: JsonValue) -> Seq<char> {
    match json_get(manifest, "node"@) {
        Some(n) => match json_get(n, "id"@) {
            Some(id) => json_text(id),
            None => null_text(),
        },
        None => null_text(),
    }
}

/// A card's endpoints: a key-bearing agent is reached at its mesh inbox;
/// another listing at the URL its manifest gives under `endpoint`; a
/// reserved handle at none.
pub open spec fn endpoints_text(listing: Option<&Listing>) -> Seq<char> {
    match listing {
        Some(l) => if key_bearing(l.source@) {
            seq!['['] + object_text(
                seq![
                    ("agent_id"@, json_string(l.source_id@)),
                    ("node"@, node_text(l.manifest)),
                    ("protocol"@, json_string("agentmesh"@)),
                ],
            ) + seq![']']
        } else {
            match json_str(json_get(l.manifest, "endpoint"@)) {
                Some(url) => seq!['['] + object_text(
                    seq![("protocol"@, json_string(l.protocol@)), ("url"@, json_string(url))],
                ) + seq![']'],
                None => seq!['[', ']'],
            }
        },
        None => seq!['[', ']'],
    }
}

/// Presence on a card: only where a state has been observed.
pub open spec fn presence_text(listing: Option<&Listing>) -> Seq<char> {
    match listing {
        Some(l) => match l.presence {
            Some(state) => object_text(
                seq![
                    ("last_seen_at"@, opt_instant_text(l.last_seen_at)),
                    ("state"@, json_string(state@)),
                ],
            ),
            None => null_text(),
        },
        None => null_text(),
    }
}

/// The operator's chosen label on a card, or null.
pub open spec fn operator_text(operator_name: Option<&str>) -> Seq<char> {
    match operator_name {
        Some(n) => object_text(seq![("name"@, json_string(n@))]),
        None => null_text(),
    }
}

/// The PAN card of a handle.
pub open spec fn card_text(
    h: &Handle,
    listing: Option<&Listing>,
    operator_name: Option<&str>,
    decl: Option<&SeenRow>,
) -> Seq<char> {
    object_text(
        seq![
            ("agent"@, agent_text(decl)),
            ("binding"@, opt_text(h.bind_method)),
            ("claimed_at"@, instant_text(h.created_at)),
            ("claimed_via"@, json_string(h.claimed_via@)),
            ("encryption_key"@, encryption_key_text(decl)),
            ("endpoints"@, endpoints_text(listing)),
            ("handle"@, json_string(h.handle@)),
            ("operator"@, operator_text(operator_name)),
            ("presence"@, presence_text(listing)),
            ("reserved"@, bool_text(listing is None)),
        ],
    )
}

/// The public card never carries owner-only provenance: two provenance
/// rows that declare the same profile and key give the same card, whatever
/// addresses and times they record.
pub proof fn law_card_ignores_provenance(
    h: &Handle,
    listing: Option<&Listing>,
    operator_name: Option<&str>,
    d1: &SeenRow,
    d2: &SeenRow,
)
    requires
        d1.agent_kind == d2.agent_kind,
        d1.agent_host == d2.agent_host,
        d1.agent_platform == d2.agent_platform,
        d1.encryption_key == d2.encryption_key,
    ensures
        card_text(h, listing, operator_name, Some(d1)) == card_text(
            h,
            listing,
            operator_name,
            Some(d2),
        ),
{
}

/// A declared profile always reaches the card. When the provenance row
/// declares any of kind, host and platform, the card's `agent` member is
/// the object `{"declared": true, "host", "kind", "platform"}` holding what
/// was declared (null for what was not); when it declares none of them, or
/// there is no row, `agent` is null. The other members do not depend on it.
pub proof fn law_card_shows_declared_profile(
    h: &Handle,
    listing: Option<&Listing>,
    operator_name: Option<&str>,
    d: &SeenRow,
)
    ensures
        d.agent_kind is Some || d.agent_host is Some || d.agent_platform is Some ==> card_text(
            h,
            listing,
            operator_name,
            Some(d),
        ) == object_text(
            seq![
                ("agent"@, object_text(
                    seq![
                        ("declared"@, seq!['t', 'r', 'u', 'e']),
                        ("host"@, opt_text(d.agent_host)),
                        ("kind"@, opt_text(d.agent_kind)),
                        ("platform"@, opt_text(d.agent_platform)),
                    ],
                )),
                ("binding"@, opt_text(h.bind_method)),
                ("claimed_at"@, instant_text(h.created_at)),
                ("claimed_via"@, json_string(h.claimed_via@)),
                ("encryption_key"@, opt_text(d.encryption_key)),
                ("endpoints"@, endpoints_text(listing)),
                ("handle"@, json_string(h.handle@)),
                ("operator"@, operator_text(operator_name)),
                ("presence"@, presence_text(listing)),
                ("reserved"@, bool_text(listing is None)),
            ],
        ),
        d.agent_kind is None && d.agent_host is None && d.agent_platform is None ==> card_text(
            h,
            listing,
            operator_name,
            Some(d),
        ) == object_text(
            seq![
                ("agent"@, seq!['n', 'u', 'l', 'l']),
                ("binding"@, opt_text(h.bind_method)),
                ("claimed_at"@, instant_text(h.created_at)),
                ("claimed_via"@, json_string(h.claimed_via@)),
                ("encryption_key"@, opt_text(d.encryption_key)),
                ("endpoints"@, endpoints_text(listing)),
                ("handle"@, json_string(h.handle@)),
                ("operator"@, operator_text(operator_name)),
                ("presence"@, presence_text(listing)),
                ("reserved"@, bool_text(listing is None)),
            ],
        ),
        card_text(h, listing, operator_name, None) == object_text(
            seq![
                ("agent"@, seq!['n', 'u', 'l', 'l']),
                ("binding"@, opt_text(h.bind_method)),
                ("claimed_at"@, instant_text(h.created_at)),
                ("claimed_via"@, json_string(h.claimed_via@)),
                ("encryption_key"@, seq!['n', 'u', 'l', 'l']),
                ("endpoints"@, endpoints_text(listing)),
                ("handle"@, json_string(h.handle@)),
                ("operator"@, operator_text(operator_name)),
                ("presence"@, presence_text(listing)),
                ("reserved"@, bool_text(listing is None)),
            ],
        ),
{
}

/// The instants a listing carries are representable, and its manifest is
/// well formed.
pub open spec fn listing_ok(l: &Listing) -> bool {
    &&& instant_ok(l.created_at)
    &&& instant_ok(l.updated_at)
    &&& (l.last_seen_at matches Some(t) ==> instant_ok(t))
    &&& l.manifest.wf()
}

fn agent_value(decl: Option<&SeenRow>) -> (v: JsonValue)
    ensures
        v.wf(),
        json_text(v) == agent_text(decl),
{
    match decl {
        Some(d) => {
            if d.agent_kind.is_some() || d.agent_host.is_some() || d.agent_platform.is_some() {
                let mut ms: Vec<(String, JsonValue)> = Vec::new();
                ms.push(member("declared", JsonValue::Bool(true)));
                ms.push(member("host", json_opt_str(&d.agent_host)));
                ms.push(member("kind", json_opt_str(&d.agent_kind)));
                ms.push(member("platform", json_opt_str(&d.agent_platform)));
                proof {
                    reveal_strlit("declared");
                    reveal_strlit("host");
                    reveal_strlit("kind");
                    reveal_strlit("platform");
                    reveal_with_fuel(text_lt, 2);
                    assert(text_lt(ms@[0].0@, ms@[1].0@));
                    assert(text_lt(ms@[1].0@, ms@[2].0@));
                    assert(text_lt(ms@[2].0@, ms@[3].0@));
                    lemma_ascending_object(ms);
                    assert(member_texts(ms@) =~= seq![
                        ("declared"@, bool_text(true)),
                        ("host"@, opt_text(d.agent_host)),
                        ("kind"@, opt_text(d.agent_kind)),
                        ("platform"@, opt_text(d.agent_platform)),
                    ]);
                }
                JsonValue::Object(ms)
            } else {
                JsonValue::Null
            }
        },
        None => JsonValue::Null,
    }
}

fn node_value(manifest: &JsonValue) -> (v: JsonValue)
    ensures
        manifest.wf() ==> v.wf(),
        json_text(v) == node_text(*manifest),
{
    proof {
        if manifest.wf() {
            crate::json::lemma_get_wf(*manifest, "node"@);
            if let Some(n) = json_get(*manifest, "node"@) {
                crate::json::lemma_get_wf(n, "id"@);
            }
        }
    }
    match get(manifest, "node") {
        Some(n) => match get(n, "id") {
            Some(id) => copy_value(id),
            None => JsonValue::Null,
        },
        None => JsonValue::Null,
    }
}

fn endpoints_value(listing: Option<&Listing>) -> (v: JsonValue)
    requires
        listing matches Some(l) ==> listing_ok(l),
    ensures
        v.wf(),
        json_text(v) == endpoints_text(listing),
{
    match listing {
        Some(l) => {
            let source = chars_of(l.source.as_str());
            let agent = chars_of("agent");
            let agentmesh = chars_of("agentmesh");
            if chars_eq(&source, &agent) || chars_eq(&source, &agentmesh) {
                let mut ms: Vec<(String, JsonValue)> = Vec::new();
                ms.push(member("agent_id", JsonValue::Str(l.source_id.clone())));
                ms.push(member("node", node_value(&l.manifest)));
                ms.push(member("protocol", json_str_value("agentmesh")));
                proof {
                    reveal_strlit("agent_id");
                    reveal_strlit("node");
                    reveal_strlit("protocol");
                    reveal_with_fuel(text_lt, 2);
                    assert(text_lt(ms@[0].0@, ms@[1].0@));
                    assert(text_lt(ms@[1].0@, ms@[2].0@));
                    assert(crate::json::well_formed(ms@[1].1));
                    lemma_ascending_object(ms);
                    assert(member_texts(ms@) =~= seq![
                        ("agent_id"@, json_string(l.source_id@)),
                        ("node"@, node_text(l.manifest)),
                        ("protocol"@, json_string("agentmesh"@)),
                    ]);
                }
                array_of_one(JsonValue::Object(ms))
            } else {
                match as_str(get(&l.manifest, "endpoint")) {
                    Some(url) => {
                        let mut ms: Vec<(String, JsonValue)> = Vec::new();
                        ms.push(member("protocol", JsonValue::Str(l.protocol.clone())));
                        ms.push(member("url", json_str_value(url)));
                        proof {
                            reveal_strlit("protocol");
                            reveal_strlit("url");
                            reveal_with_fuel(text_lt, 2);
                            assert(text_lt(ms@[0].0@, ms@[1].0@));
                            lemma_ascending_object(ms);
                            assert(member_texts(ms@) =~= seq![
                                ("protocol"@, json_string(l.protocol@)),
                                ("url"@, json_string(url@)),
                            ]);
                        }
                        array_of_one(JsonValue::Object(ms))
                    },
                    None => empty_array(),
                }
            }
        },
        None => empty_array(),
    }
}

fn presence_value(listing: Option<&Listing>) -> (v: JsonValue)
    requires
        listing matches Some(l) ==> listing_ok(l),
    ensures
        v.wf(),
        json_text(v) == presence_text(listing),
{
    match listing {
        Some(l) => match &l.presence {
            Some(state) => {
                let mut ms: Vec<(String, JsonValue)> = Vec::new();
                ms.push(member("last_seen_at", opt_instant_value(l.last_seen_at)));
                ms.push(member("state", JsonValue::Str(state.clone())));
                proof {
                    reveal_strlit("last_seen_at");
                    reveal_strlit("state");
                    reveal_with_fuel(text_lt, 2);
                    assert(text_lt(ms@[0].0@, ms@[1].0@));
                    lemma_ascending_object(ms);
                    assert(member_texts(ms@) =~= seq![
                        ("last_seen_at"@, opt_instant_text(l.last_seen_at)),
                        ("state"@, json_string(state@)),
                    ]);
                }
                JsonValue::Object(ms)
            },
            None => JsonValue::Null,
        },
        None => JsonValue::Null,
    }
}

fn operator_value(operator_name: Option<&str>) -> (v: JsonValue)
    ensures
        v.wf(),
        json_text(v) == operator_text(operator_name),
{
    match operator_name {
        Some(n) => {
            let mut ms: Vec<(String, JsonValue)> = Vec::new();
            ms.push(member("name", json_str_value(n)));
            proof {
                lemma_ascending_object(ms);
                assert(member_texts(ms@) =~= seq![("name"@, json_string(n@))]);
            }
            JsonValue::Object(ms)
        },
        None => JsonValue::Null,
    }
}

/// The PAN card of a handle: its binding, when it was claimed and how the
/// claimant's session was witnessed (`email` or `delegated:<partner>`), the
/// endpoints that reach its agent (the address), the operator's label, the
/// agent's declared profile and public encryption key, and presence where
/// one has been observed. Owner-only provenance (addresses, timestamps)
/// never reaches it.
pub fn build_card(
    h: &Handle,
    listing: Option<&Listing>,
    operator_name: Option<&str>,
    agent_decl: Option<&SeenRow>,
) -> (card: JsonValue)
    requires
        instant_ok(h.created_at),
        listing matches Some(l) ==> listing_ok(l),
    ensures
        card.wf(),
        json_text(card) == card_text(h, listing, operator_name, agent_decl),
{
    let mut ms: Vec<(String, JsonValue)> = Vec::new();
    ms.push(member("agent", agent_value(agent_decl)));
    ms.push(member("binding", json_opt_str(&h.bind_method)));
    ms.push(member("claimed_at", instant_value(h.created_at)));
    ms.push(member("claimed_via", JsonValue::Str(h.claimed_via.clone())));
    let key = match agent_decl {
        Some(d) => json_opt_str(&d.encryption_key),
        None => JsonValue::Null,
    };
    ms.push(member("encryption_key", key));
    ms.push(member("endpoints", endpoints_value(listing)));
    ms.push(member("handle", JsonValue::Str(h.handle.clone())));
    ms.push(member("operator", operator_value(operator_name)));
    ms.push(member("presence", presence_value(listing)));
    ms.push(member("reserved", JsonValue::Bool(listing.is_none())));
    proof {
        reveal_strlit("agent");
        reveal_strlit("binding");
        reveal_strlit("claimed_at");
        reveal_strlit("claimed_via");
        reveal_strlit("encryption_key");
        reveal_strlit("endpoints");
        reveal_strlit("handle");
        reveal_strlit("operator");
        reveal_strlit("presence");
        reveal_strlit("reserved");
        reveal_with_fuel(text_lt, 3);
        assert(text_lt(ms@[0].0@, ms@[1].0@));
        assert(text_lt(ms@[1].0@, ms@[2].0@));
        assert(text_lt(ms@[2].0@, ms@[3].0@)) by {
            reveal_with_fuel(text_lt, 10);
        }
        assert(text_lt(ms@[3].0@, ms@[4].0@));
        assert(text_lt(ms@[4].0@, ms@[5].0@));
        assert(text_lt(ms@[5].0@, ms@[6].0@));
        assert(text_lt(ms@[6].0@, ms@[7].0@));
        assert(text_lt(ms@[7].0@, ms@[8].0@));
        assert(text_lt(ms@[8].0@, ms@[9].0@));
        lemma_ascending_object(ms);
        assert(member_texts(ms@) =~= seq![
            ("agent"@, agent_text(agent_decl)),
            ("binding"@, opt_text(h.bind_method)),
            ("claimed_at"@, instant_text(h.created_at)),
            ("claimed_via"@, json_string(h.claimed_via@)),
            ("encryption_key"@, encryption_key_text(agent_decl)),
            ("endpoints"@, endpoints_text(listing)),
            ("handle"@, json_string(h.handle@)),
            ("operator"@, operator_text(operator_name)),
            ("presence"@, presence_text(listing)),
            ("reserved"@, bool_text(listing is None)),
        ]);
    }
    JsonValue::Object(ms)
}


// ---------------------------------------------------------------------------
// The owner's view of their handles

/// A UUID as serde writes it: the hyphenated string, or null.
pub open spec fn opt_uuid_text(id: Option<[u8; 16]>) -> Seq<char> {
    match id {
        Some(b) => json_string(uuid_hyphenated(b@)),
        None => null_text(),
    }
}

/// The fields of a handle record, as serde writes them, in ascending key
/// order.
pub open spec fn handle_members(h: &Handle) -> Seq<(Seq<char>, Seq<char>)> {
    seq![
        ("anchor"@, json_string(h.anchor@)),
        ("bind_method"@, opt_text(h.bind_method)),
        ("claimed_via"@, json_string(h.claimed_via@)),
        ("created_at"@, instant_text(h.created_at)),
        ("email"@, json_string(h.email@)),
        ("handle"@, json_string(h.handle@)),
        ("listing_id"@, opt_uuid_text(h.listing_id)),
        ("released_at"@, opt_instant_text(h.released_at)),
        ("stale"@, bool_text(h.stale)),
        ("verified_at"@, opt_instant_text(h.verified_at)),
    ]
}

/// A handle in its owner's list: the record, and, for a bound handle whose
/// listing has a provenance row, where its agent last connected from and
/// what it declared (all in ascending key order).
pub open spec fn owner_view_text(h: &Handle, seen: Option<SeenRow>) -> Seq<char> {
    match (h.listing_id, seen) {
        (Some(_), Some(d)) => object_text(
            seq![
                ("agent_host"@, opt_text(d.agent_host)),
                ("agent_kind"@, opt_text(d.agent_kind)),
                ("agent_platform"@, opt_text(d.agent_platform)),
                ("anchor"@, json_string(h.anchor@)),
                ("bind_method"@, opt_text(h.bind_method)),
                ("claimed_via"@, json_string(h.claimed_via@)),
                ("created_at"@, instant_text(h.created_at)),
                ("email"@, json_string(h.email@)),
                ("encryption_key"@, opt_text(d.encryption_key)),
                ("first_connected_at"@, opt_instant_text(d.first_connected_at)),
                ("handle"@, json_string(h.handle@)),
                ("last_seen_ip"@, opt_text(d.last_seen_ip)),
                ("last_seen_ip_at"@, opt_instant_text(d.last_seen_ip_at)),
                ("listing_id"@, opt_uuid_text(h.listing_id)),
                ("released_at"@, opt_instant_text(h.released_at)),
                ("stale"@, bool_text(h.stale)),
                ("verified_at"@, opt_instant_text(h.verified_at)),
            ],
        ),
        _ => object_text(handle_members(h)),
    }
}

/// The instants a handle record carries are representable.
pub open spec fn handle_ok(h: &Handle) -> bool {
    &&& instant_ok(h.created_at)
    &&& (h.verified_at matches Some(t) ==> instant_ok(t))
    &&& (h.released_at matches Some(t) ==> instant_ok(t))
}

/// The instants a provenance row carries are representable.
pub open spec fn seen_ok(d: &SeenRow) -> bool {
    &&& (d.last_seen_ip_at matches Some(t) ==> instant_ok(t))
    &&& (d.first_connected_at matches Some(t) ==> instant_ok(t))
}

fn opt_uuid_value(id: Option<[u8; 16]>) -> (v: JsonValue)
    ensures
        v.wf(),
        json_text(v) == opt_uuid_text(id),
{
    match id {
        Some(b) => JsonValue::Str(uuid_string(b)),
        None => JsonValue::Null,
    }
}

/// One handle as its owner sees it (`seen` is the provenance row of its
/// listing, if any).
pub fn owner_view(h: &Handle, seen: Option<&SeenRow>) -> (v: JsonValue)
    requires
        handle_ok(h),
        seen matches Some(d) ==> seen_ok(d),
    ensures
        v.wf(),
        json_text(v) == owner_view_text(
            h,
            match seen {
                Some(d) => Some(*d),
                None => None,
            },
        ),
{
    let mut ms: Vec<(String, JsonValue)> = Vec::new();
    match (h.listing_id, seen) {
        (Some(_), Some(d)) => {
            ms.push(member("agent_host", json_opt_str(&d.agent_host)));
            ms.push(member("agent_kind", json_opt_str(&d.agent_kind)));
            ms.push(member("agent_platform", json_opt_str(&d.agent_platform)));
            ms.push(member("anchor", JsonValue::Str(h.anchor.clone())));
            ms.push(member("bind_method", json_opt_str(&h.bind_method)));
            ms.push(member("claimed_via", JsonValue::Str(h.claimed_via.clone())));
            ms.push(member("created_at", instant_value(h.created_at)));
            ms.push(member("email", JsonValue::Str(h.email.clone())));
            ms.push(member("encryption_key", json_opt_str(&d.encryption_key)));
            ms.push(member("first_connected_at", opt_instant_value(d.first_connected_at)));
            ms.push(member("handle", JsonValue::Str(h.handle.clone())));
            ms.push(member("last_seen_ip", json_opt_str(&d.last_seen_ip)));
            ms.push(member("last_seen_ip_at", opt_instant_value(d.last_seen_ip_at)));
            ms.push(member("listing_id", opt_uuid_value(h.listing_id)));
            ms.push(member("released_at", opt_instant_value(h.released_at)));
            ms.push(member("stale", JsonValue::Bool(h.stale)));
            ms.push(member("verified_at", opt_instant_value(h.verified_at)));
            proof {
                reveal_strlit("agent_host");
                reveal_strlit("agent_kind");
                reveal_strlit("agent_platform");
                reveal_strlit("anchor");
                reveal_strlit("bind_method");
                reveal_strlit("claimed_via");
                reveal_strlit("created_at");
                reveal_strlit("email");
                reveal_strlit("encryption_key");
                reveal_strlit("first_connected_at");
                reveal_strlit("handle");
                reveal_strlit("last_seen_ip");
                reveal_strlit("last_seen_ip_at");
                reveal_strlit("listing_id");
                reveal_strlit("released_at");
                reveal_strlit("stale");
                reveal_strlit("verified_at");
                assert(text_lt(ms@[0].0@, ms@[1].0@)) by {
                    reveal_with_fuel(text_lt, 8);
                }
                assert(text_lt(ms@[1].0@, ms@[2].0@)) by {
                    reveal_with_fuel(text_lt, 8);
                }
                assert(text_lt(ms@[2].0@, ms@[3].0@)) by {
                    reveal_with_fuel(text_lt, 3);
                }
                assert(text_lt(ms@[3].0@, ms@[4].0@)) by {
                    reveal_with_fuel(text_lt, 2);
                }
                assert(text_lt(ms@[4].0@, ms@[5].0@)) by {
                    reveal_with_fuel(text_lt, 2);
                }
                assert(text_lt(ms@[5].0@, ms@[6].0@)) by {
                    reveal_with_fuel(text_lt, 3);
                }
                assert(text_lt(ms@[6].0@, ms@[7].0@)) by {
                    reveal_with_fuel(text_lt, 2);
                }
                assert(text_lt(ms@[7].0@, ms@[8].0@)) by {
                    reveal_with_fuel(text_lt, 3);
                }
                assert(text_lt(ms@[8].0@, ms@[9].0@)) by {
                    reveal_with_fuel(text_lt, 2);
                }
                assert(text_lt(ms@[9].0@, ms@[10].0@)) by {
                    reveal_with_fuel(text_lt, 2);
                }
                assert(text_lt(ms@[10].0@, ms@[11].0@)) by {
                    reveal_with_fuel(text_lt, 2);
                }
                assert(text_lt(ms@[11].0@, ms@[12].0@)) by {
                    reveal_with_fuel(text_lt, 14);
                }
                assert(text_lt(ms@[12].0@, ms@[13].0@)) by {
                    reveal_with_fuel(text_lt, 3);
                }
                assert(text_lt(ms@[13].0@, ms@[14].0@)) by {
                    reveal_with_fuel(text_lt, 2);
                }
                assert(text_lt(ms@[14].0@, ms@[15].0@)) by {
                    reveal_with_fuel(text_lt, 2);
                }
                assert(text_lt(ms@[15].0@, ms@[16].0@)) by {
                    reveal_with_fuel(text_lt, 2);
                }
                lemma_ascending_object(ms);
                assert(member_texts(ms@) =~= seq![
                    ("agent_host"@, opt_text(d.agent_host)),
                    ("agent_kind"@, opt_text(d.agent_kind)),
                    ("agent_platform"@, opt_text(d.agent_platform)),
                    ("anchor"@, json_string(h.anchor@)),
                    ("bind_method"@, opt_text(h.bind_method)),
                    ("claimed_via"@, json_string(h.claimed_via@)),
                    ("created_at"@, instant_text(h.created_at)),
                    ("email"@, json_string(h.email@)),
                    ("encryption_key"@, opt_text(d.encryption_key)),
                    ("first_connected_at"@, opt_instant_text(d.first_connected_at)),
                    ("handle"@, json_string(h.handle@)),
                    ("last_seen_ip"@, opt_text(d.last_seen_ip)),
                    ("last_seen_ip_at"@, opt_instant_text(d.last_seen_ip_at)),
                    ("listing_id"@, opt_uuid_text(h.listing_id)),
                    ("released_at"@, opt_instant_text(h.released_at)),
                    ("stale"@, bool_text(h.stale)),
                    ("verified_at"@, opt_instant_text(h.verified_at)),
                ]);
            }
        },
        _ => {
            ms.push(member("anchor", JsonValue::Str(h.anchor.clone())));
            ms.push(member("bind_method", json_opt_str(&h.bind_method)));
            ms.push(member("claimed_via", JsonValue::Str(h.claimed_via.clone())));
            ms.push(member("created_at", instant_value(h.created_at)));
            ms.push(member("email", JsonValue::Str(h.email.clone())));
            ms.push(member("handle", JsonValue::Str(h.handle.clone())));
            ms.push(member("listing_id", opt_uuid_value(h.listing_id)));
            ms.push(member("released_at", opt_instant_value(h.released_at)));
            ms.push(member("stale", JsonValue::Bool(h.stale)));
            ms.push(member("verified_at", opt_instant_value(h.verified_at)));
            proof {
                reveal_strlit("anchor");
                reveal_strlit("bind_method");
                reveal_strlit("claimed_via");
                reveal_strlit("created_at");
                reveal_strlit("email");
                reveal_strlit("handle");
                reveal_strlit("listing_id");
                reveal_strlit("released_at");
                reveal_strlit("stale");
                reveal_strlit("verified_at");
                reveal_with_fuel(text_lt, 2);
                assert(text_lt(ms@[0].0@, ms@[1].0@));
                assert(text_lt(ms@[1].0@, ms@[2].0@));
                assert(text_lt(ms@[2].0@, ms@[3].0@));
                assert(text_lt(ms@[3].0@, ms@[4].0@));
                assert(text_lt(ms@[4].0@, ms@[5].0@));
                assert(text_lt(ms@[5].0@, ms@[6].0@));
                assert(text_lt(ms@[6].0@, ms@[7].0@));
                assert(text_lt(ms@[7].0@, ms@[8].0@));
                assert(text_lt(ms@[8].0@, ms@[9].0@));
                lemma_ascending_object(ms);
                assert(member_texts(ms@) =~= handle_members(h));
            }
        },
    }
    JsonValue::Object(ms)
}

/// The provenance row a list of `(listing id, row)` pairs holds for `id`:
/// the last one listed, as collecting the pairs into a map keeps.
pub open spec fn seen_lookup(rows: Seq<([u8; 16], SeenRow)>, id: [u8; 16]) -> Option<SeenRow>
    decreases rows.len(),
{
    if rows.len() == 0 {
        None
    } else if rows.last().0@ == id@ {
        Some(rows.last().1)
    } else {
        seen_lookup(rows.drop_last(), id)
    }
}

/// Two UUIDs are the same bytes.
pub fn same_uuid(a: &[u8; 16], b: &[u8; 16]) -> (r: bool)
    ensures
        r == (a@ == b@),
{
    let mut i: usize = 0;
    while i < 16
        invariant
            i <= 16,
            a@.len() == 16,
            b@.len() == 16,
            forall|k: int| 0 <= k < i ==> a@[k] == b@[k],
        decreases 16 - i,
    {
        if a[i] != b[i] {
            return false;
        }
        i += 1;
    }
    assert(a@ =~= b@);
    true
}

/// The provenance row held for `id`, if any.
pub fn seen_for<'a>(rows: &'a Vec<([u8; 16], SeenRow)>, id: &[u8; 16]) -> (r: Option<&'a SeenRow>)
    ensures
        match seen_lookup(rows@, *id) {
            Some(d) => r matches Some(x) && *x == d,
            None => r is None,
        },
{
    let mut i: usize = rows.len();
    assert(rows@.take(i as int) =~= rows@);
    while i > 0
        invariant
            i <= rows.len(),
            seen_lookup(rows@, *id) == seen_lookup(rows@.take(i as int), *id),
        decreases i,
    {
        assert(rows@.take(i as int).drop_last() =~= rows@.take(i - 1));
        if same_uuid(&rows[i - 1].0, id) {
            return Some(&rows[i - 1].1);
        }
        i -= 1;
    }
    None
}

/// The listings a list of handles is bound to, in order.
pub open spec fn bound_ids(hs: Seq<Handle>) -> Seq<[u8; 16]>
    decreases hs.len(),
{
    if hs.len() == 0 {
        seq![]
    } else {
        match hs.last().listing_id {
            Some(id) => bound_ids(hs.drop_last()).push(id),
            None => bound_ids(hs.drop_last()),
        }
    }
}

/// The ids of the listings the handles are bound to.
pub fn listing_ids(handles: &Vec<Handle>) -> (ids: Vec<[u8; 16]>)
    ensures
        ids@ == bound_ids(handles@),
{
    let mut ids: Vec<[u8; 16]> = Vec::new();
    let mut i: usize = 0;
    while i < handles.len()
        invariant
            i <= handles.len(),
            ids@ == bound_ids(handles@.take(i as int)),
        decreases handles.len() - i,
    {
        assert(handles@.take(i + 1).drop_last() =~= handles@.take(i as int));
        if let Some(id) = handles[i].listing_id {
            ids.push(id);
        }
        i += 1;
    }
    assert(handles@.take(handles.len() as int) =~= handles@);
    ids
}

/// The owner's list: each handle with the provenance of its listing
/// (owner-only; never on the public card).
pub fn owner_handles(handles: &Vec<Handle>, seen: &Vec<([u8; 16], SeenRow)>) -> (v: Vec<JsonValue>)
    requires
        forall|i: int| 0 <= i < handles@.len() ==> handle_ok(#[trigger] &handles@[i]),
        forall|i: int| 0 <= i < seen@.len() ==> seen_ok(#[trigger] &seen@[i].1),
    ensures
        v@.len() == handles@.len(),
        forall|i: int|
            0 <= i < v@.len() ==> (#[trigger] v@[i]).wf() && json_text(v@[i]) == owner_view_text(
                &handles@[i],
                match handles@[i].listing_id {
                    Some(id) => seen_lookup(seen@, id),
                    None => None,
                },
            ),
{
    let mut v: Vec<JsonValue> = Vec::new();
    let mut i: usize = 0;
    while i < handles.len()
        invariant
            i <= handles.len(),
            v@.len() == i,
            forall|j: int| 0 <= j < handles@.len() ==> handle_ok(#[trigger] &handles@[j]),
            forall|j: int| 0 <= j < seen@.len() ==> seen_ok(#[trigger] &seen@[j].1),
            forall|j: int|
                0 <= j < i ==> (#[trigger] v@[j]).wf() && json_text(v@[j]) == owner_view_text(
                    &handles@[j],
                    match handles@[j].listing_id {
                        Some(id) => seen_lookup(seen@, id),
                        None => None,
                    },
                ),
        decreases handles.len() - i,
    {
        let h = &handles[i];
        let row = match &h.listing_id {
            Some(id) => seen_for(seen, id),
            None => None,
        };
        proof {
            if let Some(id) = h.listing_id {
                lemma_seen_lookup_ok(seen@, id);
            }
        }
        let one = owner_view(h, row);
        v.push(one);
        i += 1;
    }
    v
}

proof fn lemma_seen_lookup_ok(rows: Seq<([u8; 16], SeenRow)>, id: [u8; 16])
    requires
        forall|i: int| 0 <= i < rows.len() ==> seen_ok(#[trigger] &rows[i].1),
    ensures
        seen_lookup(rows, id) matches Some(d) ==> seen_ok(&d),
    decreases rows.len(),
{
    if rows.len() > 0 {
        assert(seen_ok(&rows[rows.len() - 1].1));
        assert forall|i: int| 0 <= i < rows.drop_last().len() implies seen_ok(
            #[trigger] &rows.drop_last()[i].1,
        ) by {
            assert(rows.drop_last()[i] == rows[i]);
        }
        lemma_seen_lookup_ok(rows.drop_last(), id);
    }
}

// ---------------------------------------------------------------------------
// The history log, as its owner reads it

/// One row of the handle log.
pub struct LogRow {
    pub seq: i64,
    pub at: i64,
    pub action: String,
    pub handle: String,
    pub email: String,
    pub detail: JsonValue,
    pub prev_hash: Option<String>,
    pub entry_hash: Option<String>,
}

/// The hash a stored row's own fields call for, chaining to the previous
/// hash it records ("" when it records none).
pub open spec fn row_hash(r: LogRow) -> Seq<char> {
    crate::registrar::entry_hash_text(
        r.action@,
        rfc3339_text(r.at, true),
        r.detail,
        r.email@,
        r.handle@,
        match r.prev_hash {
            Some(p) => p@,
            None => Seq::<char>::empty(),
        },
        r.seq,
    )
}

/// The hash the entry after `rows` chains to: the newest row's hash, or ""
/// when there is no row or the newest predates the chain (no hash).
pub open spec fn chain_head(rows: Seq<LogRow>) -> Seq<char> {
    if rows.len() == 0 {
        Seq::<char>::empty()
    } else {
        match rows.last().entry_hash {
            Some(h) => h@,
            None => Seq::<char>::empty(),
        }
    }
}

/// A stored log is a valid chain: the rows come in ascending sequence, and
/// every row that carries a hash records as its previous hash the chain
/// head of the rows before it, and carries the hash of its own fields.
pub open spec fn chain_valid(rows: Seq<LogRow>) -> bool {
    &&& forall|i: int, j: int| 0 <= i < j < rows.len() ==> rows[i].seq < rows[j].seq
    &&& forall|i: int|
        0 <= i < rows.len() && (#[trigger] rows[i]).entry_hash is Some ==> {
            &&& rows[i].prev_hash matches Some(p) && p@ == chain_head(rows.take(i))
            &&& rows[i].entry_hash matches Some(h) && h@ == row_hash(rows[i])
        }
}

/// Appending keeps the chain: onto a valid stored log, a row whose previous
/// hash is the chain head (what `chain_prev_hash` gives for the newest
/// row), whose hash is the one `log_entry_hash` computes over its fields,
/// and whose sequence number follows every stored one, gives a valid log
/// again, and every earlier row stays as it was.
pub proof fn law_append_keeps_chain(rows: Seq<LogRow>, e: LogRow)
    requires
        chain_valid(rows),
        e.prev_hash matches Some(p) && p@ == chain_head(rows),
        e.entry_hash matches Some(h) && h@ == row_hash(e),
        forall|i: int| 0 <= i < rows.len() ==> (#[trigger] rows[i]).seq < e.seq,
    ensures
        chain_valid(rows.push(e)),
        rows.push(e).take(rows.len() as int) == rows,
        rows.push(e).last() == e,
{
    let all = rows.push(e);
    assert forall|i: int| 0 <= i < rows.len() implies #[trigger] all.take(i) == rows.take(i) by {
        assert(all.take(i) =~= rows.take(i));
    }
    assert(all.take(rows.len() as int) =~= rows);
    assert forall|i: int, j: int| 0 <= i < j < all.len() implies all[i].seq < all[j].seq by {
        if j == rows.len() {
            assert(all[i] == rows[i]);
        } else {
            assert(all[i] == rows[i] && all[j] == rows[j]);
        }
    }
    assert forall|i: int|
        0 <= i < all.len() && (#[trigger] all[i]).entry_hash is Some implies {
            &&& all[i].prev_hash matches Some(p) && p@ == chain_head(all.take(i))
            &&& all[i].entry_hash matches Some(h) && h@ == row_hash(all[i])
        } by {
        if i < rows.len() {
            assert(all[i] == rows[i]);
            assert(rows[i].entry_hash is Some);
            assert(all.take(i) == rows.take(i));
        }
    }
}

/// A log row as its owner reads it; the instant carries six fraction
/// digits, as in the hashed text.
pub open spec fn log_row_text(r: LogRow) -> Seq<char> {
    object_text(
        seq![
            ("action"@, json_string(r.action@)),
            ("at"@, json_string(rfc3339_text(r.at, true))),
            ("detail"@, json_text(r.detail)),
            ("email"@, json_string(r.email@)),
            ("entry_hash"@, opt_text(r.entry_hash)),
            ("handle"@, json_string(r.handle@)),
            ("prev_hash"@, opt_text(r.prev_hash)),
            ("seq"@, signed_decimal(r.seq as int)),
        ],
    )
}

/// One log row as JSON.
pub fn log_row_view(r: LogRow) -> (v: JsonValue)
    requires
        instant_ok(r.at),
        r.detail.wf(),
    ensures
        v.wf(),
        json_text(v) == log_row_text(r),
{
    let ghost g = r;
    let mut seq_text: Vec<char> = Vec::new();
    push_signed_decimal(r.seq, &mut seq_text);
    let mut ms: Vec<(String, JsonValue)> = Vec::new();
    ms.push(member("action", JsonValue::Str(r.action)));
    ms.push(member("at", JsonValue::Str(format_rfc3339(r.at, true))));
    ms.push(member("detail", r.detail));
    ms.push(member("email", JsonValue::Str(r.email)));
    ms.push(member("entry_hash", json_opt_str(&r.entry_hash)));
    ms.push(member("handle", JsonValue::Str(r.handle)));
    ms.push(member("prev_hash", json_opt_str(&r.prev_hash)));
    ms.push(member("seq", JsonValue::Number(string_of(&seq_text))));
    proof {
        reveal_strlit("action");
        reveal_strlit("at");
        reveal_strlit("detail");
        reveal_strlit("email");
        reveal_strlit("entry_hash");
        reveal_strlit("handle");
        reveal_strlit("prev_hash");
        reveal_strlit("seq");
        reveal_with_fuel(text_lt, 3);
        assert(text_lt(ms@[0].0@, ms@[1].0@));
        assert(text_lt(ms@[1].0@, ms@[2].0@));
        assert(text_lt(ms@[2].0@, ms@[3].0@));
        assert(text_lt(ms@[3].0@, ms@[4].0@));
        assert(text_lt(ms@[4].0@, ms@[5].0@));
        assert(text_lt(ms@[5].0@, ms@[6].0@));
        assert(text_lt(ms@[6].0@, ms@[7].0@));
        lemma_ascending_object(ms);
        assert(member_texts(ms@) =~= seq![
            ("action"@, json_string(g.action@)),
            ("at"@, json_string(rfc3339_text(g.at, true))),
            ("detail"@, json_text(g.detail)),
            ("email"@, json_string(g.email@)),
            ("entry_hash"@, opt_text(g.entry_hash)),
            ("handle"@, json_string(g.handle@)),
            ("prev_hash"@, opt_text(g.prev_hash)),
            ("seq"@, signed_decimal(g.seq as int)),
        ]);
    }
    JsonValue::Object(ms)
}

/// The owner's history, one JSON object per row, in the rows' order.
pub fn log_rows_view(rows: Vec<LogRow>) -> (v: Vec<JsonValue>)
    requires
        forall|i: int| 0 <= i < rows@.len() ==> instant_ok((#[trigger] rows@[i]).at) && rows@[i].detail.wf(),
    ensures
        v@.len() == rows@.len(),
        forall|i: int| 0 <= i < v@.len() ==> (#[trigger] v@[i]).wf() && json_text(v@[i]) == log_row_text(rows@[i]),
{
    let ghost all = rows@;
    let mut rest = rows;
    let mut out: Vec<JsonValue> = Vec::new();
    while rest.len() > 0
        invariant
            out@.len() + rest@.len() == all.len(),
            rest@ =~= all.subrange(out@.len() as int, all.len() as int),
            forall|i: int| 0 <= i < all.len() ==> instant_ok((#[trigger] all[i]).at) && all[i].detail.wf(),
            forall|i: int| 0 <= i < out@.len() ==> (#[trigger] out@[i]).wf() && json_text(out@[i]) == log_row_text(all[i]),
        decreases rest.len(),
    {
        let ghost k = out@.len() as int;
        let r = rest.remove(0);
        proof {
            assert(r == all[k]);
        }
        let one = log_row_view(r);
        out.push(one);
        proof {
            assert(rest@ =~= all.subrange(k + 1, all.len() as int));
        }
    }
    out
}

// ---------------------------------------------------------------------------
// Probes

/// One probe outcome of a listing.
pub struct ProbeRow {
    pub at: i64,
    pub ok: bool,
    pub latency_ms: Option<i32>,
    pub detail: Option<String>,
}

/// A probe outcome as shown on a listing's detail view.
pub open spec fn probe_text(p: ProbeRow) -> Seq<char> {
    object_text(
        seq![
            ("at"@, instant_text(p.at)),
            ("detail"@, opt_text(p.detail)),
            ("latency_ms"@, match p.latency_ms {
                Some(ms) => signed_decimal(ms as int),
                None => null_text(),
            }),
            ("ok"@, bool_text(p.ok)),
        ],
    )
}

/// One probe outcome as JSON.
pub fn probe_view(p: &ProbeRow) -> (v: JsonValue)
    requires
        instant_ok(p.at),
    ensures
        v.wf(),
        json_text(v) == probe_text(*p),
{
    let latency = match p.latency_ms {
        Some(ms) => {
            let mut t: Vec<char> = Vec::new();
            push_signed_decimal(ms as i64, &mut t);
            JsonValue::Number(string_of(&t))
        },
        None => JsonValue::Null,
    };
    let mut ms: Vec<(String, JsonValue)> = Vec::new();
    ms.push(member("at", instant_value(p.at)));
    ms.push(member("detail", json_opt_str(&p.detail)));
    ms.push(member("latency_ms", latency));
    ms.push(member("ok", JsonValue::Bool(p.ok)));
    proof {
        reveal_strlit("at");
        reveal_strlit("detail");
        reveal_strlit("latency_ms");
        reveal_strlit("ok");
        reveal_with_fuel(text_lt, 2);
        assert(text_lt(ms@[0].0@, ms@[1].0@));
        assert(text_lt(ms@[1].0@, ms@[2].0@));
        assert(text_lt(ms@[2].0@, ms@[3].0@));
        lemma_ascending_object(ms);
        assert(member_texts(ms@) =~= seq![
            ("at"@, instant_text(p.at)),
            ("detail"@, opt_text(p.detail)),
            ("latency_ms"@, match p.latency_ms {
                Some(ms) => signed_decimal(ms as int),
                None => null_text(),
            }),
            ("ok"@, bool_text(p.ok)),
        ]);
    }
    JsonValue::Object(ms)
}

// ---------------------------------------------------------------------------
// Details recorded in the log

/// Detail of a claim: how the claimant's session was witnessed, and the
/// listing the handle was bound to, if any.
pub open spec fn claim_detail_text(listing_id: Option<[u8; 16]>, via: Seq<char>) -> Seq<char> {
    object_text(
        seq![("claimed_via"@, json_string(via)), ("listing_id"@, opt_uuid_text(listing_id))],
    )
}

/// Detail of a claim: `{"claimed_via": <provenance>, "listing_id": <uuid or
/// null>}`.
pub fn claim_detail(listing_id: Option<[u8; 16]>, via: &str) -> (d: JsonValue)
    ensures
        d.wf(),
        json_text(d) == claim_detail_text(listing_id, via@),
{
    let mut ms: Vec<(String, JsonValue)> = Vec::new();
    ms.push(member("claimed_via", json_str_value(via)));
    ms.push(member("listing_id", opt_uuid_value(listing_id)));
    proof {
        reveal_strlit("claimed_via");
        reveal_strlit("listing_id");
        reveal_with_fuel(text_lt, 2);
        assert(text_lt(ms@[0].0@, ms@[1].0@));
        lemma_ascending_object(ms);
        assert(member_texts(ms@) =~= seq![
            ("claimed_via"@, json_string(via@)),
            ("listing_id"@, opt_uuid_text(listing_id)),
        ]);
    }
    JsonValue::Object(ms)
}

/// Detail of an email-proof binding.
pub open spec fn bind_detail_text(listing_id: Option<[u8; 16]>, via: Seq<char>) -> Seq<char> {
    object_text(
        seq![
            ("listing_id"@, opt_uuid_text(listing_id)),
            ("method"@, json_string("email-submitter"@)),
            ("via"@, json_string(via)),
        ],
    )
}

/// Detail of an email-proof binding: `{"listing_id": <uuid or null>,
/// "method": "email-submitter", "via": <provenance>}`.
pub fn bind_detail(listing_id: Option<[u8; 16]>, via: &str) -> (d: JsonValue)
    ensures
        d.wf(),
        json_text(d) == bind_detail_text(listing_id, via@),
{
    let mut ms: Vec<(String, JsonValue)> = Vec::new();
    ms.push(member("listing_id", opt_uuid_value(listing_id)));
    ms.push(member("method", json_str_value("email-submitter")));
    ms.push(member("via", json_str_value(via)));
    proof {
        reveal_strlit("listing_id");
        reveal_strlit("method");
        reveal_strlit("via");
        reveal_with_fuel(text_lt, 2);
        assert(text_lt(ms@[0].0@, ms@[1].0@));
        assert(text_lt(ms@[1].0@, ms@[2].0@));
        lemma_ascending_object(ms);
        assert(member_texts(ms@) =~= seq![
            ("listing_id"@, opt_uuid_text(listing_id)),
            ("method"@, json_string("email-submitter"@)),
            ("via"@, json_string(via@)),
        ]);
    }
    JsonValue::Object(ms)
}

/// Detail of a key-pairing binding.
pub open spec fn pair_detail_text(agent_id: Seq<char>, listing_id: [u8; 16]) -> Seq<char> {
    object_text(
        seq![
            ("agent_id"@, json_string(agent_id)),
            ("listing_id"@, json_string(uuid_hyphenated(listing_id@))),
            ("method"@, json_string("agent-key"@)),
        ],
    )
}

/// Detail of a key-pairing binding: `{"agent_id": .., "listing_id": ..,
/// "method": "agent-key"}`.
pub fn pair_detail(agent_id: &str, listing_id: [u8; 16]) -> (d: JsonValue)
    ensures
        d.wf(),
        json_text(d) == pair_detail_text(agent_id@, listing_id),
{
    let mut ms: Vec<(String, JsonValue)> = Vec::new();
    ms.push(member("agent_id", json_str_value(agent_id)));
    ms.push(member("listing_id", JsonValue::Str(uuid_string(listing_id))));
    ms.push(member("method", json_str_value("agent-key")));
    proof {
        reveal_strlit("agent_id");
        reveal_strlit("listing_id");
        reveal_strlit("method");
        reveal_with_fuel(text_lt, 2);
        assert(text_lt(ms@[0].0@, ms@[1].0@));
        assert(text_lt(ms@[1].0@, ms@[2].0@));
        lemma_ascending_object(ms);
        assert(member_texts(ms@) =~= seq![
            ("agent_id"@, json_string(agent_id@)),
            ("listing_id"@, json_string(uuid_hyphenated(listing_id@))),
            ("method"@, json_string("agent-key"@)),
        ]);
    }
    JsonValue::Object(ms)
}

/// Detail of a release: the empty object.
pub fn release_detail() -> (d: JsonValue)
    ensures
        d.wf(),
        json_text(d) == seq!['{', '}'],
{
    let ms: Vec<(String, JsonValue)> = Vec::new();
    proof {
        lemma_ascending_object(ms);
        assert(member_texts(ms@) =~= Seq::<(Seq<char>, Seq<char>)>::empty());
        assert(object_text(member_texts(ms@)) =~= seq!['{', '}']);
    }
    JsonValue::Object(ms)
}

/// Detail of an operator-name change.
pub open spec fn operator_detail_text(display_name: Seq<char>, via: Seq<char>) -> Seq<char> {
    object_text(seq![("display_name"@, json_string(display_name)), ("via"@, json_string(via))])
}

/// Detail of an operator-name change: `{"display_name": .., "via":
/// <provenance>}`.
pub fn operator_detail(display_name: &str, via: &str) -> (d: JsonValue)
    ensures
        d.wf(),
        json_text(d) == operator_detail_text(display_name@, via@),
{
    let mut ms: Vec<(String, JsonValue)> = Vec::new();
    ms.push(member("display_name", json_str_value(display_name)));
    ms.push(member("via", json_str_value(via)));
    proof {
        reveal_strlit("display_name");
        reveal_strlit("via");
        reveal_with_fuel(text_lt, 2);
        assert(text_lt(ms@[0].0@, ms@[1].0@));
        lemma_ascending_object(ms);
        assert(member_texts(ms@) =~= seq![
            ("display_name"@, json_string(display_name@)),
            ("via"@, json_string(via@)),
        ]);
    }
    JsonValue::Object(ms)
}

/// The minimal record of a key-proven agent: its manifest is `{"id": ..}`.
pub fn agent_record_manifest(agent_id: &str) -> (m: JsonValue)
    ensures
        m.wf(),
        json_text(m) == object_text(seq![("id"@, json_string(agent_id@))]),
        json_get(m, "id"@) matches Some(JsonValue::Str(s)) && s@ == agent_id@,
{
    let mut ms: Vec<(String, JsonValue)> = Vec::new();
    ms.push(member("id", json_str_value(agent_id)));
    proof {
        lemma_ascending_object(ms);
        assert(member_texts(ms@) =~= seq![("id"@, json_string(agent_id@))]);
        assert(ms@.drop_first().len() == 0);
    }
    JsonValue::Object(ms)
}

} // verus!
