//! Control-plane core for named packet-processing graphs.
//!
//! A registry owns a set of named graphs; each graph owns a set of named
//! bricks wired west-to-east. The registry and graph operations, the
//! two-sided link/unlink protocol, and the typed brick constructors are
//! implemented and verified here. Packet processing itself, the transport
//! that fronts these operations, and topology rendering are external
//! collaborators and stay outside this crate's model.

pub mod brick;
pub mod errors;
pub mod graph;
pub mod laws;
pub mod names;
pub mod registry;

pub use brick::Brick;
pub use brick::BrickConfig;
pub use brick::BrickKind;
pub use brick::FirewallRule;
pub use errors::ApiError;
pub use errors::Side;
pub use graph::Graph;
pub use registry::BrickDescription;
pub use registry::GraphDescription;
pub use registry::GraphHandle;
pub use registry::Registry;
