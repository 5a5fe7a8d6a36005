//! The AgentMesh connector's decisions: its settings, how a registry
//! manifest becomes a listing, how presence events map to liveness, and the
//! reconnect backoff. The network session itself runs outside the library.

use vstd::prelude::*;
use crate::json::{as_str, get, json_get, json_str, JsonValue};
use crate::model::MeshConfig;
use crate::numeric::{parse_u64, u64_parsed};
use crate::order::{same_elements, sort_dedup, strictly_sorted, texts_of};
use crate::text::{append_str, chars_of, owned, string_of};

verus! {

/// Delay before the first reconnect, and after any session that ended
/// cleanly.
pub const INITIAL_BACKOFF_SECS: u64 = 2;

/// The longest the connector waits between reconnects.
pub const MAX_BACKOFF_SECS: u64 = 300;

/// Seconds between harvest sweeps unless configured.
pub const DEFAULT_POLL_SECS: u64 = 30;

/// How many manifests one sweep asks the registry for.
pub const HARVEST_LIMIT: usize = 500;

// ---------------------------------------------------------------------------
// Settings

/// The sweep interval a `MESH_POLL_SECS` value gives: its number where it
/// parses as one, else the default.
pub open spec fn poll_secs_value(v: Option<Seq<char>>) -> u64 {
    match v {
        Some(t) => match u64_parsed(t) {
            Some(n) => n,
            None => DEFAULT_POLL_SECS,
        },
        None => DEFAULT_POLL_SECS,
    }
}

/// The connector's settings from its environment values: none unless a
/// NATS URL is given.
pub fn mesh_config(
    nats_url: Option<String>,
    jwt: Option<String>,
    seed: Option<String>,
    poll_secs: Option<&str>,
) -> (c: Option<MeshConfig>)
    ensures
        match nats_url {
            None => c is None,
            Some(u) => c matches Some(cfg) && cfg.nats_url == u && cfg.jwt == jwt && cfg.seed
                == seed && cfg.poll_secs == poll_secs_value(
                match poll_secs {
                    Some(p) => Some(p@),
                    None => None,
                },
            ),
        },
{
    match nats_url {
        None => None,
        Some(u) => {
            let poll = match poll_secs {
                Some(p) => match parse_u64(p) {
                    Some(n) => n,
                    None => DEFAULT_POLL_SECS,
                },
                None => DEFAULT_POLL_SECS,
            };
            Some(MeshConfig { nats_url: u, jwt, seed, poll_secs: poll })
        },
    }
}

// ---------------------------------------------------------------------------
// Presence events

/// What to do with one presence event.
pub enum PresenceUpdate {
    /// Set every listing hosted by `node` to `state`.
    Mark { node: String, state: String },
    /// The event names no node; it is dropped.
    MissingNode { event_type: String },
    /// An event kind the catalog does not track.
    Ignored { event_type: String },
}

/// The event kind an envelope's payload carries (`""` if none).
pub open spec fn event_type_of(payload: Option<&JsonValue>) -> Seq<char> {
    match payload {
        Some(p) => match json_str(json_get(*p, "event_type"@)) {
            Some(t) => t,
            None => seq![],
        },
        None => seq![],
    }
}

/// The node an event's data names (`""` if none).
pub open spec fn node_of(data: JsonValue) -> Seq<char> {
    match json_str(json_get(data, "node"@)) {
        Some(n) => n,
        None => seq![],
    }
}

/// The liveness an event kind reports.
pub open spec fn presence_state(event_type: Seq<char>) -> Option<Seq<char>> {
    if event_type == "node_online"@ {
        Some("online"@)
    } else if event_type == "node_offline"@ {
        Some("offline"@)
    } else {
        None
    }
}

fn str_or_empty(v: Option<&str>) -> (s: String)
    ensures
        match v {
            Some(t) => s@ == t@,
            None => s@ == Seq::<char>::empty(),
        },
{
    match v {
        Some(t) => owned(t),
        None => String::new(),
    }
}

/// Maps a presence event (its envelope payload and its data) to the update
/// it calls for: node-level online/offline fan out to the node's listings;
/// an event without a node, or of another kind, changes nothing.
pub fn presence_update(payload: Option<&JsonValue>, data: &JsonValue) -> (u: PresenceUpdate)
    ensures
        node_of(*data).len() == 0 ==> (u matches PresenceUpdate::MissingNode { event_type }
            && event_type@ == event_type_of(payload)),
        node_of(*data).len() > 0 ==> match presence_state(event_type_of(payload)) {
            Some(st) => (u matches PresenceUpdate::Mark { node, state } && node@ == node_of(*data)
                && state@ == st),
            None => (u matches PresenceUpdate::Ignored { event_type } && event_type@
                == event_type_of(payload)),
        },
{
    let event_type = match payload {
        Some(p) => str_or_empty(as_str(get(p, "event_type"))),
        None => String::new(),
    };
    let node = str_or_empty(as_str(get(data, "node")));
    if chars_of(node.as_str()).len() == 0 {
        return PresenceUpdate::MissingNode { event_type };
    }
    let ev = chars_of(event_type.as_str());
    let online = chars_of("node_online");
    let offline = chars_of("node_offline");
    if crate::text::chars_eq(&ev, &online) {
        PresenceUpdate::Mark { node, state: owned("online") }
    } else if crate::text::chars_eq(&ev, &offline) {
        PresenceUpdate::Mark { node, state: owned("offline") }
    } else {
        PresenceUpdate::Ignored { event_type }
    }
}

// ---------------------------------------------------------------------------
// Harvest

/// A manifest harvested into the fields of an upserted listing.
pub struct HarvestedListing {
    pub source: String,
    pub source_id: String,
    pub name: String,
    pub description: String,
    /// Distinct specialty claims, in ascending order.
    pub specialties: Vec<String>,
    /// Operator-attested node standing, if the registry joined one.
    pub trust: Option<String>,
    pub protocol: String,
    /// Presence joined at discover time; "unknown" when absent.
    pub availability: String,
}

/// The items of a value that is an array (none for anything else).
pub open spec fn array_items(v: Option<JsonValue>) -> Seq<JsonValue> {
    match v {
        Some(JsonValue::Array(items)) => items@,
        _ => seq![],
    }
}

/// The strings among some items, in order (other items are skipped).
pub open spec fn str_items(items: Seq<JsonValue>) -> Seq<Seq<char>>
    decreases items.len(),
{
    if items.len() == 0 {
        seq![]
    } else {
        match items.last() {
            JsonValue::Str(s) => str_items(items.drop_last()).push(s@),
            _ => str_items(items.drop_last()),
        }
    }
}

/// The claims skills make: `skill:<id>` for each skill with a string id,
/// then the skill's string tags.
pub open spec fn skill_claims(skills: Seq<JsonValue>) -> Seq<Seq<char>>
    decreases skills.len(),
{
    if skills.len() == 0 {
        seq![]
    } else {
        let s = skills.last();
        skill_claims(skills.drop_last()) + match json_str(json_get(s, "id"@)) {
            Some(id) => seq!["skill:"@ + id],
            None => seq![],
        } + str_items(array_items(json_get(s, "tags"@)))
    }
}

/// The specialty claims a manifest makes: its capabilities as they are,
/// and its skills' claims.
pub open spec fn manifest_claims(m: JsonValue) -> Seq<Seq<char>> {
    str_items(array_items(json_get(m, "capabilities"@))) + skill_claims(
        array_items(json_get(m, "skills"@)),
    )
}

/// A string member's text, or a default.
pub open spec fn str_or(v: Option<JsonValue>, default: Seq<char>) -> Seq<char> {
    match json_str(v) {
        Some(t) => t,
        None => default,
    }
}

/// The member `key` of an optional value.
pub open spec fn get_in(v: Option<JsonValue>, key: Seq<char>) -> Option<JsonValue> {
    match v {
        Some(x) => json_get(x, key),
        None => None,
    }
}

/// The node standing a manifest carries (`node.profile.trust_tier`).
pub open spec fn trust_of(m: JsonValue) -> Option<Seq<char>> {
    json_str(get_in(get_in(get_in(Some(m), "node"@), "profile"@), "trust_tier"@))
}

/// Only the operator-attested standing is harvested as trust: it is read
/// from the manifest's `node` member and nowhere else. Two manifests with
/// the same `node` are harvested with the same trust, whatever else they
/// carry (a self-declared top-level `trust_tier` included); a manifest
/// without a node has none.
pub proof fn law_trust_comes_from_the_node(m1: JsonValue, m2: JsonValue)
    ensures
        json_get(m1, "node"@) == json_get(m2, "node"@) ==> trust_of(m1) == trust_of(m2),
        json_get(m1, "node"@) is None ==> trust_of(m1) is None,
        trust_of(m1) is Some ==> json_get(m1, "node"@) is Some,
{
}

/// The texts of some strings.
pub open spec fn strings_of(v: Seq<String>) -> Seq<Seq<char>> {
    Seq::new(v.len(), |i: int| v[i]@)
}

/// An optional string's text.
pub open spec fn opt_string_text(s: Option<String>) -> Option<Seq<char>> {
    match s {
        Some(t) => Some(t@),
        None => None,
    }
}

/// The items of an array value (`as_array`).
fn items_of<'a>(v: Option<&'a JsonValue>) -> (r: Option<&'a Vec<JsonValue>>)
    ensures
        match r {
            Some(a) => array_items(
                match v {
                    Some(x) => Some(*x),
                    None => None,
                },
            ) == a@,
            None => array_items(
                match v {
                    Some(x) => Some(*x),
                    None => None,
                },
            ) == Seq::<JsonValue>::empty(),
        },
{
    match v {
        Some(JsonValue::Array(items)) => Some(items),
        _ => None,
    }
}

/// Appends the strings among `items`.
fn push_str_items(items: &Vec<JsonValue>, out: &mut Vec<Vec<char>>)
    ensures
        texts_of(final(out)@) == texts_of(old(out)@) + str_items(items@),
{
    let ghost start = texts_of(out@);
    let mut i: usize = 0;
    while i < items.len()
        invariant
            i <= items.len(),
            texts_of(out@) == start + str_items(items@.take(i as int)),
        decreases items.len() - i,
    {
        assert(items@.take(i + 1).drop_last() =~= items@.take(i as int));
        assert(items@.take(i + 1).last() == items@[i as int]);
        let ghost before = texts_of(out@);
        if let JsonValue::Str(s) = &items[i] {
            let c = chars_of(s.as_str());
            out.push(c);
            assert(texts_of(out@) =~= before.push(s@));
        }
        assert(texts_of(out@) =~= start + str_items(items@.take(i + 1)));
        i += 1;
    }
    assert(items@.take(items.len() as int) =~= items@);
}

/// The specialty claims of a manifest, distinct and in ascending order.
pub fn manifest_specialties(m: &JsonValue) -> (r: Vec<String>)
    ensures
        strictly_sorted(strings_of(r@)),
        same_elements(strings_of(r@), manifest_claims(*m)),
{
    let mut claims: Vec<Vec<char>> = Vec::new();
    let caps = items_of(get(m, "capabilities"));
    if let Some(a) = caps {
        push_str_items(a, &mut claims);
    }
    assert(texts_of(claims@) =~= str_items(array_items(json_get(*m, "capabilities"@))));
    let skills_opt = items_of(get(m, "skills"));
    let none: Vec<JsonValue> = Vec::new();
    let skills: &Vec<JsonValue> = match skills_opt {
        Some(a) => a,
        None => &none,
    };
    let ghost sk = array_items(json_get(*m, "skills"@));
    assert(skills@ == sk);
    let ghost base = texts_of(claims@);
    let mut i: usize = 0;
    while i < skills.len()
        invariant
            i <= skills.len(),
            skills@ == sk,
            texts_of(claims@) == base + skill_claims(sk.take(i as int)),
        decreases skills.len() - i,
    {
        let s = &skills[i];
        let ghost before = texts_of(claims@);
        assert(sk.take(i + 1).drop_last() =~= sk.take(i as int));
        assert(sk.take(i + 1).last() == *s);
        match as_str(get(s, "id")) {
            Some(sid) => {
                let mut c: Vec<char> = Vec::new();
                append_str(&mut c, "skill:");
                append_str(&mut c, sid);
                claims.push(c);
            },
            None => {},
        }
        let ghost mid = texts_of(claims@);
        proof {
            assert(mid =~= before + match json_str(json_get(*s, "id"@)) {
                Some(id) => seq!["skill:"@ + id],
                None => seq![],
            });
        }
        if let Some(tags) = items_of(get(s, "tags")) {
            push_str_items(tags, &mut claims);
        }
        proof {
            assert(texts_of(claims@) =~= mid + str_items(array_items(json_get(*s, "tags"@))));
            assert(texts_of(claims@) =~= base + skill_claims(sk.take(i + 1)));
        }
        i += 1;
    }
    assert(sk.take(sk.len() as int) =~= sk);
    let sorted = sort_dedup(&claims);
    let mut r: Vec<String> = Vec::new();
    let mut k: usize = 0;
    while k < sorted.len()
        invariant
            k <= sorted.len(),
            strings_of(r@) =~= texts_of(sorted@).take(k as int),
        decreases sorted.len() - k,
    {
        let ghost before = strings_of(r@);
        let t = string_of(&sorted[k]);
        r.push(t);
        assert(strings_of(r@) =~= before.push(sorted@[k as int]@));
        assert(texts_of(sorted@).take(k + 1) =~= texts_of(sorted@).take(k as int).push(
            sorted@[k as int]@,
        ));
        k += 1;
    }
    assert(strings_of(r@) =~= texts_of(sorted@));
    r
}

/// A manifest from the registry as the listing it upserts: the id is
/// required; the name defaults to the id, the description to empty, the
/// availability to "unknown"; trust is the operator-attested node standing.
pub fn harvest_listing(m: &JsonValue) -> (r: Result<HarvestedListing, String>)
    ensures
        match json_str(json_get(*m, "id"@)) {
            None => r matches Err(e) && e@ == "manifest missing id"@,
            Some(id) => r matches Ok(l) && l.source@ == "agentmesh"@ && l.source_id@ == id
                && l.name@ == str_or(json_get(*m, "name"@), id) && l.description@ == str_or(
                json_get(*m, "description"@),
                seq![],
            ) && strictly_sorted(strings_of(l.specialties@)) && same_elements(
                strings_of(l.specialties@),
                manifest_claims(*m),
            ) && opt_string_text(l.trust) == trust_of(*m) && l.protocol@ == "mesh"@
                && l.availability@ == str_or(json_get(*m, "availability"@), "unknown"@),
        },
{
    let id = match as_str(get(m, "id")) {
        Some(id) => id,
        None => {
            return Err(owned("manifest missing id"));
        },
    };
    let name = match as_str(get(m, "name")) {
        Some(n) => owned(n),
        None => owned(id),
    };
    let description = str_or_empty(as_str(get(m, "description")));
    let specialties = manifest_specialties(m);
    let trust = match get(m, "node") {
        Some(n) => match get(n, "profile") {
            Some(p) => match as_str(get(p, "trust_tier")) {
                Some(t) => Some(owned(t)),
                None => None,
            },
            None => None,
        },
        None => None,
    };
    let availability = match as_str(get(m, "availability")) {
        Some(a) => owned(a),
        None => owned("unknown"),
    };
    Ok(
        HarvestedListing {
            source: owned("agentmesh"),
            source_id: owned(id),
            name,
            description,
            specialties,
            trust,
            protocol: owned("mesh"),
            availability,
        },
    )
}

// ---------------------------------------------------------------------------
// Reconnect backoff

/// The backoff held after waiting `waited` seconds: doubled, capped.
pub open spec fn doubled_capped(waited: u64) -> u64 {
    if 2 * waited > MAX_BACKOFF_SECS {
        MAX_BACKOFF_SECS
    } else {
        (2 * waited) as u64
    }
}

/// After a session ends: how long to wait before reconnecting (the initial
/// delay after a clean end, else the current backoff), and the backoff to
/// hold next (the wait doubled, at most five minutes).
pub fn reconnect_delay(backoff: u64, served_ok: bool) -> (r: (u64, u64))
    ensures
        r.0 == if served_ok {
            INITIAL_BACKOFF_SECS
        } else {
            backoff
        },
        r.1 == doubled_capped(r.0),
{
    let wait = if served_ok {
        INITIAL_BACKOFF_SECS
    } else {
        backoff
    };
    let next = if wait > MAX_BACKOFF_SECS / 2 {
        MAX_BACKOFF_SECS
    } else {
        wait * 2
    };
    (wait, next)
}

/// The backoff held after a run of sessions, each ending cleanly (`true`)
/// or in failure.
pub open spec fn backoff_after(outcomes: Seq<bool>) -> u64
    decreases outcomes.len(),
{
    if outcomes.len() == 0 {
        INITIAL_BACKOFF_SECS
    } else {
        let b = backoff_after(outcomes.drop_last());
        doubled_capped(
            if outcomes.last() {
                INITIAL_BACKOFF_SECS
            } else {
                b
            },
        )
    }
}

/// The wait before the reconnect that follows a run of sessions.
pub open spec fn wait_after(outcomes: Seq<bool>) -> u64 {
    if outcomes.len() > 0 && outcomes.last() {
        INITIAL_BACKOFF_SECS
    } else if outcomes.len() == 0 {
        INITIAL_BACKOFF_SECS
    } else {
        backoff_after(outcomes.drop_last())
    }
}

/// Whatever the sessions' outcomes, the connector never waits longer than
/// five minutes nor less than two seconds, and consecutive failures never
/// shorten the wait.
pub proof fn law_backoff_bounded(outcomes: Seq<bool>)
    ensures
        INITIAL_BACKOFF_SECS <= backoff_after(outcomes) <= MAX_BACKOFF_SECS,
        outcomes.len() > 0 ==> INITIAL_BACKOFF_SECS <= wait_after(outcomes) <= MAX_BACKOFF_SECS,
        backoff_after(outcomes.push(false)) >= backoff_after(outcomes),
    decreases outcomes.len(),
{
    if outcomes.len() > 0 {
        law_backoff_bounded(outcomes.drop_last());
    }
    assert(outcomes.push(false).drop_last() =~= outcomes);
}

/// A session that ends cleanly resets the backoff: the next wait is the
/// initial two seconds whatever came before.
pub proof fn law_clean_end_resets(outcomes: Seq<bool>)
    ensures
        wait_after(outcomes.push(true)) == INITIAL_BACKOFF_SECS,
        backoff_after(outcomes.push(true)) == 2 * INITIAL_BACKOFF_SECS,
{
    assert(outcomes.push(true).drop_last() =~= outcomes);
}

// ---------------------------------------------------------------------------
// The connector's loop

/// Where the connector stands.
pub enum ConnectorPhase {
    Connecting,
    Subscribing,
    Sweeping,
    Polling,
    BackingOff,
}

/// The connector's state: its phase, the backoff held for the next
/// failure, and the sweep interval.
pub struct Connector {
    pub phase: ConnectorPhase,
    pub backoff: u64,
    pub poll_secs: u64,
}

/// What the connector asks its driver to do next.
pub enum ConnectorAction {
    /// Connect to the mesh.
    Connect,
    /// Subscribe to the registry's presence events.
    Subscribe,
    /// Run one harvest sweep.
    Sweep,
    /// Wait this many seconds.
    Sleep(u64),
}

/// The connector starts by connecting, holding the initial backoff.
pub fn connector_start(poll_secs: u64) -> (r: (Connector, ConnectorAction))
    ensures
        r.0.phase is Connecting,
        r.0.backoff == INITIAL_BACKOFF_SECS,
        r.0.poll_secs == poll_secs,
        r.1 is Connect,
{
    (
        Connector { phase: ConnectorPhase::Connecting, backoff: INITIAL_BACKOFF_SECS, poll_secs },
        ConnectorAction::Connect,
    )
}

/// Advances the connector with the outcome of its last action: connect,
/// then subscribe, then sweep every `poll_secs` seconds; any failure of
/// these waits out the current backoff, doubles it (up to five minutes) and
/// reconnects. The connector never stops.
pub fn connector_next(c: Connector, succeeded: bool) -> (r: (Connector, ConnectorAction))
    ensures
        r.0.poll_secs == c.poll_secs,
        match c.phase {
            ConnectorPhase::Connecting | ConnectorPhase::Subscribing | ConnectorPhase::Sweeping => if succeeded {
                &&& r.0.backoff == c.backoff
                &&& match c.phase {
                    ConnectorPhase::Connecting => r.0.phase is Subscribing && r.1 is Subscribe,
                    ConnectorPhase::Subscribing => r.0.phase is Sweeping && r.1 is Sweep,
                    _ => r.0.phase is Polling && r.1 == ConnectorAction::Sleep(c.poll_secs),
                }
            } else {
                &&& r.0.phase is BackingOff
                &&& r.1 == ConnectorAction::Sleep(c.backoff)
                &&& r.0.backoff == doubled_capped(c.backoff)
            },
            ConnectorPhase::Polling => r.0.phase is Sweeping && r.1 is Sweep && r.0.backoff
                == c.backoff,
            ConnectorPhase::BackingOff => r.0.phase is Connecting && r.1 is Connect && r.0.backoff
                == c.backoff,
        },
        INITIAL_BACKOFF_SECS <= c.backoff <= MAX_BACKOFF_SECS ==> INITIAL_BACKOFF_SECS
            <= r.0.backoff <= MAX_BACKOFF_SECS,
        r.0.phase is BackingOff ==> (r.1 matches ConnectorAction::Sleep(w) && w == c.backoff),
{
    let Connector { phase, backoff, poll_secs } = c;
    match phase {
        ConnectorPhase::Connecting | ConnectorPhase::Subscribing | ConnectorPhase::Sweeping => {
            if !succeeded {
                let (wait, next) = reconnect_delay(backoff, false);
                return (
                    Connector { phase: ConnectorPhase::BackingOff, backoff: next, poll_secs },
                    ConnectorAction::Sleep(wait),
                );
            }
            match phase {
                ConnectorPhase::Connecting => (
                    Connector { phase: ConnectorPhase::Subscribing, backoff, poll_secs },
                    ConnectorAction::Subscribe,
                ),
                ConnectorPhase::Subscribing => (
                    Connector { phase: ConnectorPhase::Sweeping, backoff, poll_secs },
                    ConnectorAction::Sweep,
                ),
                _ => (
                    Connector { phase: ConnectorPhase::Polling, backoff, poll_secs },
                    ConnectorAction::Sleep(poll_secs),
                ),
            }
        },
        ConnectorPhase::Polling => (
            Connector { phase: ConnectorPhase::Sweeping, backoff, poll_secs },
            ConnectorAction::Sweep,
        ),
        ConnectorPhase::BackingOff => (
            Connector { phase: ConnectorPhase::Connecting, backoff, poll_secs },
            ConnectorAction::Connect,
        ),
    }
}

} // verus!
