use x0x_compute::{AgentIdentitySnapshot, CapabilityAnnouncement, ComputeConfig, HardwareProfile};

fn config() -> ComputeConfig {
    ComputeConfig::with_data_dir("./var/test".to_string())
}

fn hardware() -> HardwareProfile {
    HardwareProfile::from_probe(
        Some("friendbox".to_string()),
        Some("Apple M4".to_string()),
        10,
        64 * 1024,
        32 * 1024,
    )
}

#[test]
fn capability_snapshot_carries_identity_and_policy() {
    let config = config();
    let identity = AgentIdentitySnapshot {
        machine_id: "machine-123".to_string(),
        agent_id: "agent-456".to_string(),
        user_id: Some("user-789".to_string()),
    };

    let capability = CapabilityAnnouncement::local(&config, identity.clone(), hardware());

    assert_eq!(capability.identity.machine_id, identity.machine_id);
    assert_eq!(capability.identity.agent_id, identity.agent_id);
    assert!(capability.policy.trusted_friends_only);
    assert!(capability.observed_at_unix_secs > 0);
}

#[test]
fn snapshot_at_uses_config_policy_and_protocol() {
    let mut config = config();
    config.mesh.name = "lab".to_string();
    config.mesh.require_trusted_contacts = false;
    let identity = AgentIdentitySnapshot {
        machine_id: "aa".to_string(),
        agent_id: "bb".to_string(),
        user_id: None,
    };
    let capability = CapabilityAnnouncement::snapshot_at(&config, identity.clone(), hardware(), 42);
    assert_eq!(capability.protocol_version, 1);
    assert_eq!(capability.identity, identity);
    assert_eq!(capability.policy.mesh_name, "lab");
    assert!(capability.policy.trusted_friends_only);
    assert!(!capability.policy.require_trusted_contacts);
    assert!(capability.policy.prefer_user_identity);
    assert!(capability.available_models.is_empty());
    assert_eq!(capability.observed_at_unix_secs, 42);
    assert_eq!(capability.hardware, hardware());
}

#[test]
fn hardware_profile_keeps_reported_cpu_brand() {
    let profile = hardware();
    assert_eq!(profile.cpu_brand, "Apple M4");
    assert_eq!(profile.hostname.as_deref(), Some("friendbox"));
    assert_eq!(profile.logical_cores, 10);
    assert_eq!(profile.total_memory_bytes, 65536);
    assert_eq!(profile.available_memory_bytes, 32768);
}

#[test]
fn hardware_profile_defaults_missing_or_empty_cpu_brand() {
    let missing = HardwareProfile::from_probe(None, None, 0, 0, 0);
    assert_eq!(missing.cpu_brand, "unknown");
    assert_eq!(missing.hostname, None);
    let empty = HardwareProfile::from_probe(None, Some(String::new()), 4, 1, 1);
    assert_eq!(empty.cpu_brand, "unknown");
}

#[test]
fn capability_clone_is_equal() {
    let identity = AgentIdentitySnapshot {
        machine_id: "m".to_string(),
        agent_id: "a".to_string(),
        user_id: None,
    };
    let mut capability = CapabilityAnnouncement::snapshot_at(&config(), identity, hardware(), 7);
    capability.available_models.push("gemma-4".to_string());
    assert_eq!(capability.clone(), capability);
}
