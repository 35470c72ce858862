//! Compute capability advertisements for trusted meshes.

use vstd::prelude::*;

use crate::clock::unix_timestamp_secs;
use crate::config::{ComputeConfig, MeshConfig, PROTOCOL_VERSION};
use crate::identity::AgentIdentitySnapshot;

verus! {

/// Local hardware profile.
#[derive(Debug, PartialEq, Eq)]
pub struct HardwareProfile {
    pub hostname: Option<String>,
    pub cpu_brand: String,
    pub logical_cores: usize,
    pub total_memory_bytes: u64,
    pub available_memory_bytes: u64,
}

impl Clone for HardwareProfile {
    fn clone(&self) -> (res: Self)
        ensures
            res == *self,
    {
        HardwareProfile {
            hostname: self.hostname.clone(),
            cpu_brand: self.cpu_brand.clone(),
            logical_cores: self.logical_cores,
            total_memory_bytes: self.total_memory_bytes,
            available_memory_bytes: self.available_memory_bytes,
        }
    }
}

impl HardwareProfile {
    /// Builds a profile from what the system reports: the brand of the first
    /// CPU is kept unless there is none or it is empty, in which case it is
    /// `unknown`.
    pub fn from_probe(
        hostname: Option<String>,
        first_cpu_brand: Option<String>,
        logical_cores: usize,
        total_memory_bytes: u64,
        available_memory_bytes: u64,
    ) -> (r: Self)
        ensures
            r.hostname == hostname,
            first_cpu_brand is Some && first_cpu_brand->0@.len() > 0 ==> r.cpu_brand
                == first_cpu_brand->0,
            !(first_cpu_brand is Some && first_cpu_brand->0@.len() > 0) ==> r.cpu_brand@
                == "unknown"@,
            r.logical_cores == logical_cores,
            r.total_memory_bytes == total_memory_bytes,
            r.available_memory_bytes == available_memory_bytes,
    {
        let cpu_brand = match first_cpu_brand {
            Some(brand) => {
                if brand.as_str().is_empty() {
                    String::from_str("unknown")
                } else {
                    brand
                }
            },
            None => String::from_str("unknown"),
        };
        HardwareProfile {
            hostname,
            cpu_brand,
            logical_cores,
            total_memory_bytes,
            available_memory_bytes,
        }
    }
}

/// Mesh policy derived from x0x-compute configuration.
#[derive(Debug, PartialEq, Eq)]
pub struct TrustedMeshPolicy {
    pub mesh_name: String,
    pub trusted_friends_only: bool,
    pub require_trusted_contacts: bool,
    pub prefer_user_identity: bool,
}

impl Clone for TrustedMeshPolicy {
    fn clone(&self) -> (res: Self)
        ensures
            res == *self,
    {
        TrustedMeshPolicy {
            mesh_name: self.mesh_name.clone(),
            trusted_friends_only: self.trusted_friends_only,
            require_trusted_contacts: self.require_trusted_contacts,
            prefer_user_identity: self.prefer_user_identity,
        }
    }
}

/// The policy that a mesh configuration advertises.
pub open spec fn policy_of(mesh: MeshConfig) -> TrustedMeshPolicy {
    TrustedMeshPolicy {
        mesh_name: mesh.name,
        trusted_friends_only: mesh.trusted_friends_only,
        require_trusted_contacts: mesh.require_trusted_contacts,
        prefer_user_identity: mesh.prefer_user_identity,
    }
}

impl TrustedMeshPolicy {
    /// The policy that `mesh` advertises.
    pub fn from_mesh(mesh: &MeshConfig) -> (r: Self)
        ensures
            r == policy_of(*mesh),
            r.mesh_name == mesh.name,
            r.trusted_friends_only == mesh.trusted_friends_only,
            r.require_trusted_contacts == mesh.require_trusted_contacts,
            r.prefer_user_identity == mesh.prefer_user_identity,
    {
        TrustedMeshPolicy {
            mesh_name: mesh.name.clone(),
            trusted_friends_only: mesh.trusted_friends_only,
            require_trusted_contacts: mesh.require_trusted_contacts,
            prefer_user_identity: mesh.prefer_user_identity,
        }
    }
}

/// Compute capability advertisement for trusted meshes.
#[derive(Debug, PartialEq, Eq)]
pub struct CapabilityAnnouncement {
    pub protocol_version: u32,
    pub identity: AgentIdentitySnapshot,
    pub hardware: HardwareProfile,
    pub policy: TrustedMeshPolicy,
    pub available_models: Vec<String>,
    pub observed_at_unix_secs: u64,
}

/// The content of a capability announcement.
pub struct CapabilityView {
    pub protocol_version: u32,
    pub identity: AgentIdentitySnapshot,
    pub hardware: HardwareProfile,
    pub policy: TrustedMeshPolicy,
    pub available_models: Seq<String>,
    pub observed_at_unix_secs: u64,
}

impl View for CapabilityAnnouncement {
    type V = CapabilityView;

    open spec fn view(&self) -> CapabilityView {
        CapabilityView {
            protocol_version: self.protocol_version,
            identity: self.identity,
            hardware: self.hardware,
            policy: self.policy,
            available_models: self.available_models@,
            observed_at_unix_secs: self.observed_at_unix_secs,
        }
    }
}

impl Clone for CapabilityAnnouncement {
    fn clone(&self) -> (res: Self)
        ensures
            res@ == self@,
    {
        let available_models = self.available_models.clone();
        assert(available_models@ =~= self.available_models@);
        CapabilityAnnouncement {
            protocol_version: self.protocol_version,
            identity: self.identity.clone(),
            hardware: self.hardware.clone(),
            policy: self.policy.clone(),
            available_models,
            observed_at_unix_secs: self.observed_at_unix_secs,
        }
    }
}

/// The announcement that `config` and the given identity and hardware make
/// at `observed_at`: the current protocol version, the configured mesh
/// policy, and no models yet.
pub open spec fn announcement_of(
    config: ComputeConfig,
    identity: AgentIdentitySnapshot,
    hardware: HardwareProfile,
    observed_at: u64,
) -> CapabilityView {
    CapabilityView {
        protocol_version: PROTOCOL_VERSION,
        identity,
        hardware,
        policy: policy_of(config.mesh),
        available_models: Seq::empty(),
        observed_at_unix_secs: observed_at,
    }
}

impl CapabilityAnnouncement {
    /// Builds the capability snapshot observed at `observed_at_unix_secs`.
    pub fn snapshot_at(
        config: &ComputeConfig,
        identity: AgentIdentitySnapshot,
        hardware: HardwareProfile,
        observed_at_unix_secs: u64,
    ) -> (r: Self)
        ensures
            r@ == announcement_of(*config, identity, hardware, observed_at_unix_secs),
            r.protocol_version == PROTOCOL_VERSION,
            r.identity == identity,
            r.hardware == hardware,
            r.policy.mesh_name == config.mesh.name,
            r.policy.trusted_friends_only == config.mesh.trusted_friends_only,
            r.policy.require_trusted_contacts == config.mesh.require_trusted_contacts,
            r.policy.prefer_user_identity == config.mesh.prefer_user_identity,
            r.available_models@.len() == 0,
            r.observed_at_unix_secs == observed_at_unix_secs,
    {
        CapabilityAnnouncement {
            protocol_version: PROTOCOL_VERSION,
            identity,
            hardware,
            policy: TrustedMeshPolicy::from_mesh(&config.mesh),
            available_models: Vec::new(),
            observed_at_unix_secs,
        }
    }

    /// Builds a local capability snapshot from config, a live x0x identity
    /// and the local hardware profile, observed now.
    pub fn local(config: &ComputeConfig, identity: AgentIdentitySnapshot, hardware: HardwareProfile) -> (r:
        Self)
        ensures
            r@ == announcement_of(*config, identity, hardware, r.observed_at_unix_secs),
            r.protocol_version == PROTOCOL_VERSION,
            r.identity == identity,
            r.hardware == hardware,
            r.policy.mesh_name == config.mesh.name,
            r.policy.trusted_friends_only == config.mesh.trusted_friends_only,
            r.policy.require_trusted_contacts == config.mesh.require_trusted_contacts,
            r.policy.prefer_user_identity == config.mesh.prefer_user_identity,
            r.available_models@.len() == 0,
    {
        let now = unix_timestamp_secs();
        Self::snapshot_at(config, identity, hardware, now)
    }
}

/// Each flag of the policy that a mesh configuration advertises is the
/// configuration's flag of the same name, and the mesh name is kept, for
/// every combination of flags.
pub proof fn lemma_policy_mirrors_mesh(mesh: MeshConfig)
    ensures
        policy_of(mesh).mesh_name == mesh.name,
        policy_of(mesh).trusted_friends_only == mesh.trusted_friends_only,
        policy_of(mesh).require_trusted_contacts == mesh.require_trusted_contacts,
        policy_of(mesh).prefer_user_identity == mesh.prefer_user_identity,
{
}

/// An announcement carries the identity, hardware and observation time it
/// was made with, the current protocol version, no models yet, and the
/// configured mesh's name and flags unchanged.
pub proof fn lemma_announcement_carries_its_inputs(
    config: ComputeConfig,
    identity: AgentIdentitySnapshot,
    hardware: HardwareProfile,
    observed_at: u64,
)
    ensures
        announcement_of(config, identity, hardware, observed_at).protocol_version == PROTOCOL_VERSION,
        announcement_of(config, identity, hardware, observed_at).identity == identity,
        announcement_of(config, identity, hardware, observed_at).hardware == hardware,
        announcement_of(config, identity, hardware, observed_at).observed_at_unix_secs == observed_at,
        announcement_of(config, identity, hardware, observed_at).available_models.len() == 0,
        announcement_of(config, identity, hardware, observed_at).policy.mesh_name == config.mesh.name,
        announcement_of(config, identity, hardware, observed_at).policy.trusted_friends_only
            == config.mesh.trusted_friends_only,
        announcement_of(config, identity, hardware, observed_at).policy.require_trusted_contacts
            == config.mesh.require_trusted_contacts,
        announcement_of(config, identity, hardware, observed_at).policy.prefer_user_identity
            == config.mesh.prefer_user_identity,
{
}

} // verus!
