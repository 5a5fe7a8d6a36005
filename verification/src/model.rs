//! The catalog's data shapes. Identifiers are UUID bytes; instants are
//! microseconds since the Unix epoch (UTC); manifests are JSON documents.

use vstd::prelude::*;
use crate::json::JsonValue;

verus! {

/// A catalog listing, with its presence joined in where a source reports
/// one.
pub struct Listing {
    pub id: [u8; 16],
    pub source: String,
    pub source_id: String,
    pub name: String,
    pub description: String,
    /// The full manifest document, stored verbatim.
    pub manifest: JsonValue,
    pub specialties: Vec<String>,
    pub protocol: String,
    pub trust: Option<String>,
    pub created_at: i64,
    pub updated_at: i64,
    /// Presence state, if any source has reported one.
    pub presence: Option<String>,
    pub last_seen_at: Option<i64>,
}

/// A manual submission (the 'manual' connector).
pub struct SubmitListing {
    pub name: String,
    pub description: String,
    /// Full document; stored verbatim.
    pub manifest: JsonValue,
    /// Namespaced claims: "build:macos", "access:hubspot-api", ...
    pub specialties: Vec<String>,
    pub protocol: Option<String>,
    /// Stable identity for idempotent re-submission; defaults to a fresh id.
    pub source_id: Option<String>,
}

/// Search parameters over listings.
pub struct SearchQuery {
    /// Full-text query over name + description.
    pub q: Option<String>,
    /// Exact specialty claim filter, e.g. "access:hubspot-api".
    pub specialty: Option<String>,
    pub protocol: Option<String>,
    pub source: Option<String>,
    /// "online" filters to listings with live presence.
    pub presence: Option<String>,
    pub limit: Option<i64>,
}

/// An email-anchored handle record.
pub struct Handle {
    pub handle: String,
    pub email: String,
    pub listing_id: Option<[u8; 16]>,
    pub anchor: String,
    pub bind_method: Option<String>,
    /// How the claimant's session was witnessed: `email`, or
    /// `delegated:<partner>` when a partner vouched for the email.
    pub claimed_via: String,
    pub verified_at: Option<i64>,
    pub stale: bool,
    pub created_at: i64,
    pub released_at: Option<i64>,
}

/// The declared agent profile (User-Agent trust class): what kind of agent,
/// hosted by what, on which platform.
pub struct AgentProfile {
    pub kind: Option<String>,
    pub host: Option<String>,
    pub platform: Option<String>,
}

/// Owner-only provenance and the declared profile of one listing.
pub struct SeenRow {
    pub last_seen_ip: Option<String>,
    pub last_seen_ip_at: Option<i64>,
    pub agent_kind: Option<String>,
    pub agent_host: Option<String>,
    pub agent_platform: Option<String>,
    pub first_connected_at: Option<i64>,
    pub encryption_key: Option<String>,
}

/// Settings of the AgentMesh connector.
pub struct MeshConfig {
    pub nats_url: String,
    pub jwt: Option<String>,
    pub seed: Option<String>,
    /// Seconds between harvest sweeps.
    pub poll_secs: u64,
}

} // verus!
