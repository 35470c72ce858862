//! x0x-compute — trusted-friends compute mesh built on x0x: capability
//! screening and the trusted peer registry, x0x identity encoding, local
//! model inventory with slot reservations, and a skeleton OpenAI-compatible
//! gateway.

pub mod capability;
pub mod clock;
pub mod config;
pub mod error;
pub mod identity;
pub mod keyed;
pub mod mesh;
pub mod runtime;
pub mod text;

pub use capability::{CapabilityAnnouncement, HardwareProfile, TrustedMeshPolicy};
pub use config::{
    ComputeConfig, MeshConfig, ModelConfig, RuntimeBackend, RuntimeConfig, X0xConfig,
    CAPABILITY_TOPIC, PROTOCOL_VERSION,
};
pub use error::{ComputeError, IdentityEncodingIssue};
pub use identity::{
    encode_agent_id, encode_machine_id, encode_user_id, parse_agent_id_hex, parse_machine_id_hex,
    AgentIdentitySnapshot,
};
pub use mesh::{
    CapabilityDisposition, CapabilityMessage, PeerCapabilityRecord, TrustDecision,
    TrustedPeerRegistry,
};
pub use runtime::SkeletonRuntimeAdapter;
