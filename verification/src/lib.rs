//! Workspace-scoped secrets and policy authority: the domain core.
//!
//! The crate models the decision logic of a multi-tenant secrets server:
//! hierarchical paths with parent-existence and in-use rules, named access
//! policies with a small boolean expression language, claim-based
//! authorization, token minting over a rotating key set, and the algebraic
//! wrappers of the BN462 pairing curve used to seal secret payloads.
//!
//! Everything that touches the outside world (the database, the network, the
//! clock) is kept at the edges: the functions here take the rows and events
//! those edges produce as plain values and decide what must happen, under
//! contracts that pin the outcome down.

pub mod claim;
pub mod config;
pub mod pairing;
pub mod path;
pub mod path_text;
pub mod policy;
pub mod policy_lang;
pub mod saml;
pub mod secret;
pub mod store;
pub mod token;
pub mod workspace;

pub use claim::NebulaClaim;
pub use claim::Role;
