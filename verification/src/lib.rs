//! Inbound-policy control plane for a service mesh.
//!
//! The library ingests a stream of cluster events (nodes, namespaces, pods,
//! `Server` resources and `ServerAuthorization` resources), maintains a
//! derived view of "for pod P on port N, what is the effective inbound server
//! configuration?", and answers per-(pod, port) discovery queries against
//! that view.  The consumer side decodes the wire messages back into
//! authorization decisions.

pub mod client;
pub mod defaults;
pub mod discover;
pub mod inbound;
pub mod index;
pub mod labels;
pub mod laws;
pub mod lookup;
pub mod net;
pub mod resource;
pub mod text;
pub mod wire;
