//! Endpoint discovery for client-side load balancing.
//!
//! A watch on the control plane reports revisions of the objects that list a
//! workload's endpoints. This library extracts the ready socket addresses from
//! each revision, reconciles them against the set of addresses already handed
//! downstream, and turns the resulting insert / remove actions into change
//! messages for a connection pool.

pub mod address;
pub mod config;
pub mod emit;
pub mod reconcile;
pub mod revision;

pub use address::{Address, AddressSet, IpAddress};
pub use config::{DiscoveryConfig, Port, PortSpec};
pub use emit::{changes_for, Change};
pub use reconcile::{process_event, EndpointAction, EventView, WatchEvent};
pub use revision::{extract_ready_endpoints, EndpointEntry, PortEntry, Revision, RevisionView};
