//! The registrar and catalog logic of Personal Agent Naming (PAN): handle
//! claims anchored to email, agent-key pairing, resolution cards, the
//! hash-chained history log, and the AgentMesh harvest rules.

pub mod order;
pub mod text;
pub mod json;
pub mod codec;
pub mod numeric;
pub mod model;
pub mod registrar;
pub mod netaddr;
pub mod web;
pub mod views;
pub mod mesh;
pub mod flows;
pub mod dial;
