//! x0x-compute configuration and its defaults.

use vstd::prelude::*;

use crate::error::ComputeError;

verus! {

/// Reserved topic for compute capability advertisements.
pub const CAPABILITY_TOPIC: &'static str = "x0x.compute.capabilities.v1";

/// Initial wire protocol version for x0x-compute announcements.
pub const PROTOCOL_VERSION: u32 = 1;

/// Address the daemon binds to unless configured otherwise.
pub const DEFAULT_API_BIND: &'static str = "127.0.0.1:12800";

/// Local runtime backends.
#[derive(Debug, Clone, Copy, PartialEq, Eq, Structural)]
pub enum RuntimeBackend {
    /// Deterministic in-process runtime that echoes prompts.
    Skeleton,
}

/// Local runtime settings.
#[derive(Debug)]
pub struct RuntimeConfig {
    pub backend: RuntimeBackend,
    pub skeleton_response_prefix: String,
}

impl Clone for RuntimeConfig {
    fn clone(&self) -> (res: Self)
        ensures
            res == *self,
    {
        RuntimeConfig {
            backend: self.backend,
            skeleton_response_prefix: self.skeleton_response_prefix.clone(),
        }
    }
}

impl Default for RuntimeConfig {
    fn default() -> (r: Self)
        ensures
            r.backend == RuntimeBackend::Skeleton,
            r.skeleton_response_prefix@ == "x0x-compute skeleton"@,
    {
        RuntimeConfig {
            backend: RuntimeBackend::Skeleton,
            skeleton_response_prefix: String::from_str("x0x-compute skeleton"),
        }
    }
}

/// A locally served model, as configured.
#[derive(Debug)]
pub struct ModelConfig {
    pub id: String,
    pub family: String,
    pub context_window_tokens: u32,
    pub max_output_tokens: u32,
    pub max_parallel_reservations: u16,
    pub tags: Vec<String>,
}

/// The content of a model configuration.
pub struct ModelConfigView {
    pub id: Seq<char>,
    pub family: Seq<char>,
    pub context_window_tokens: u32,
    pub max_output_tokens: u32,
    pub max_parallel_reservations: u16,
    pub tags: Seq<Seq<char>>,
}

/// The characters of each string in `v`.
pub open spec fn texts(v: Seq<String>) -> Seq<Seq<char>> {
    v.map_values(|s: String| s@)
}

impl View for ModelConfig {
    type V = ModelConfigView;

    open spec fn view(&self) -> ModelConfigView {
        ModelConfigView {
            id: self.id@,
            family: self.family@,
            context_window_tokens: self.context_window_tokens,
            max_output_tokens: self.max_output_tokens,
            max_parallel_reservations: self.max_parallel_reservations,
            tags: texts(self.tags@),
        }
    }
}

impl Clone for ModelConfig {
    fn clone(&self) -> (res: Self)
        ensures
            res@ == self@,
    {
        let tags = self.tags.clone();
        assert(tags@ =~= self.tags@);
        ModelConfig {
            id: self.id.clone(),
            family: self.family.clone(),
            context_window_tokens: self.context_window_tokens,
            max_output_tokens: self.max_output_tokens,
            max_parallel_reservations: self.max_parallel_reservations,
            tags,
        }
    }
}

/// The content of each configured model.
pub open spec fn model_views(ms: Seq<ModelConfig>) -> Seq<ModelConfigView> {
    ms.map_values(|m: ModelConfig| m@)
}

/// Mesh-level policy for trusted friend groups.
#[derive(Debug)]
pub struct MeshConfig {
    pub name: String,
    pub trusted_friends_only: bool,
    pub require_trusted_contacts: bool,
    pub prefer_user_identity: bool,
}

impl Clone for MeshConfig {
    fn clone(&self) -> (res: Self)
        ensures
            res == *self,
    {
        MeshConfig {
            name: self.name.clone(),
            trusted_friends_only: self.trusted_friends_only,
            require_trusted_contacts: self.require_trusted_contacts,
            prefer_user_identity: self.prefer_user_identity,
        }
    }
}

impl Default for MeshConfig {
    /// The trusted-friends policy: a mesh named `friends` that only admits
    /// trusted contacts and prefers user identities.
    fn default() -> (r: Self)
        ensures
            r.name@ == "friends"@,
            r.trusted_friends_only,
            r.require_trusted_contacts,
            r.prefer_user_identity,
    {
        MeshConfig {
            name: String::from_str("friends"),
            trusted_friends_only: true,
            require_trusted_contacts: true,
            prefer_user_identity: true,
        }
    }
}

/// Optional overrides for x0x identity and contact-store paths.
#[derive(Debug)]
pub struct X0xConfig {
    pub machine_key_path: Option<String>,
    pub agent_key_path: Option<String>,
    pub user_key_path: Option<String>,
    pub contact_store_path: Option<String>,
}

impl Clone for X0xConfig {
    fn clone(&self) -> (res: Self)
        ensures
            res == *self,
    {
        X0xConfig {
            machine_key_path: self.machine_key_path.clone(),
            agent_key_path: self.agent_key_path.clone(),
            user_key_path: self.user_key_path.clone(),
            contact_store_path: self.contact_store_path.clone(),
        }
    }
}

impl Default for X0xConfig {
    fn default() -> (r: Self)
        ensures
            r.machine_key_path is None,
            r.agent_key_path is None,
            r.user_key_path is None,
            r.contact_store_path is None,
    {
        X0xConfig {
            machine_key_path: None,
            agent_key_path: None,
            user_key_path: None,
            contact_store_path: None,
        }
    }
}

/// x0x-compute configuration. The bind address and the data directory are
/// held as text, as they are written in the configuration file.
#[derive(Debug)]
pub struct ComputeConfig {
    pub api_bind: String,
    pub data_dir: String,
    pub capability_topic: String,
    pub join_network_on_start: bool,
    pub announce_on_start: bool,
    pub require_user_id: bool,
    pub resource_announce_interval_secs: u64,
    pub mesh: MeshConfig,
    pub runtime: RuntimeConfig,
    pub models: Vec<ModelConfig>,
    pub x0x: X0xConfig,
}

impl Clone for ComputeConfig {
    fn clone(&self) -> (res: Self)
        ensures
            res.api_bind == self.api_bind,
            res.data_dir == self.data_dir,
            res.capability_topic == self.capability_topic,
            res.join_network_on_start == self.join_network_on_start,
            res.announce_on_start == self.announce_on_start,
            res.require_user_id == self.require_user_id,
            res.resource_announce_interval_secs == self.resource_announce_interval_secs,
            res.mesh == self.mesh,
            res.runtime == self.runtime,
            model_views(res.models@) == model_views(self.models@),
            res.x0x == self.x0x,
    {
        let models = self.models.clone();
        assert(model_views(models@) =~= model_views(self.models@));
        ComputeConfig {
            api_bind: self.api_bind.clone(),
            data_dir: self.data_dir.clone(),
            capability_topic: self.capability_topic.clone(),
            join_network_on_start: self.join_network_on_start,
            announce_on_start: self.announce_on_start,
            require_user_id: self.require_user_id,
            resource_announce_interval_secs: self.resource_announce_interval_secs,
            mesh: self.mesh.clone(),
            runtime: self.runtime.clone(),
            models,
            x0x: self.x0x.clone(),
        }
    }
}

/// What the daemon does with the network when it starts.
#[derive(Debug, Clone, Copy, PartialEq, Eq, Structural)]
pub struct StartupPlan {
    /// Join the x0x network.
    pub join_network: bool,
    /// Subscribe to capability gossip and keep the peer registry.
    pub subscribe_capabilities: bool,
    /// Publish the local capability announcement once subscribed.
    pub announce_capability: bool,
}

impl ComputeConfig {
    /// The default configuration, with its data directory at `data_dir`:
    /// bound to `127.0.0.1:12800`, on the reserved capability topic, not
    /// joining the network on start, announcing every 60 seconds, with the
    /// default mesh, runtime and x0x settings and no models.
    pub fn with_data_dir(data_dir: String) -> (r: Self)
        ensures
            r.api_bind@ == DEFAULT_API_BIND@,
            r.data_dir == data_dir,
            r.capability_topic@ == CAPABILITY_TOPIC@,
            !r.join_network_on_start,
            !r.announce_on_start,
            !r.require_user_id,
            r.resource_announce_interval_secs == 60,
            r.mesh.name@ == "friends"@,
            r.mesh.trusted_friends_only,
            r.mesh.require_trusted_contacts,
            r.mesh.prefer_user_identity,
            r.runtime.backend == RuntimeBackend::Skeleton,
            r.runtime.skeleton_response_prefix@ == "x0x-compute skeleton"@,
            r.models@.len() == 0,
            r.x0x.machine_key_path is None,
            r.x0x.agent_key_path is None,
            r.x0x.user_key_path is None,
            r.x0x.contact_store_path is None,
    {
        ComputeConfig {
            api_bind: String::from_str(DEFAULT_API_BIND),
            data_dir,
            capability_topic: String::from_str(CAPABILITY_TOPIC),
            join_network_on_start: false,
            announce_on_start: false,
            require_user_id: false,
            resource_announce_interval_secs: 60,
            mesh: MeshConfig::default(),
            runtime: RuntimeConfig::default(),
            models: Vec::new(),
            x0x: X0xConfig::default(),
        }
    }

    /// The daemon joins the network and subscribes to capability gossip only
    /// when `join_network_on_start` is set, and announces only then and when
    /// `announce_on_start` is set too.
    pub fn startup_plan(&self) -> (plan: StartupPlan)
        ensures
            plan.join_network == self.join_network_on_start,
            plan.subscribe_capabilities == self.join_network_on_start,
            plan.announce_capability == (self.join_network_on_start && self.announce_on_start),
    {
        StartupPlan {
            join_network: self.join_network_on_start,
            subscribe_capabilities: self.join_network_on_start,
            announce_capability: self.join_network_on_start && self.announce_on_start,
        }
    }

    /// Refuses an agent without a user identity when the configuration
    /// requires one.
    pub fn check_user_identity(&self, user_id: Option<&[u8; 32]>) -> (r: Result<(), ComputeError>)
        ensures
            r is Err <==> (self.require_user_id && user_id is None),
            r matches Err(e) ==> e == ComputeError::UserIdentityRequired,
    {
        if self.require_user_id && user_id.is_none() {
            Err(ComputeError::UserIdentityRequired)
        } else {
            Ok(())
        }
    }
}

} // verus!
