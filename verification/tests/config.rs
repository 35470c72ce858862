use x0x_compute::config::StartupPlan;
use x0x_compute::{ComputeConfig, ComputeError, MeshConfig, RuntimeBackend, CAPABILITY_TOPIC};

#[test]
fn default_config_has_trusted_friends_policy() {
    let config = ComputeConfig::with_data_dir("./var/test".to_string());
    assert!(config.mesh.trusted_friends_only);
    assert!(config.mesh.require_trusted_contacts);
    assert!(config.mesh.prefer_user_identity);
}

#[test]
fn default_config_values() {
    let config = ComputeConfig::with_data_dir("/data".to_string());
    assert_eq!(config.api_bind, "127.0.0.1:12800");
    assert_eq!(config.data_dir, "/data");
    assert_eq!(config.capability_topic, CAPABILITY_TOPIC);
    assert_eq!(config.capability_topic, "x0x.compute.capabilities.v1");
    assert!(!config.join_network_on_start);
    assert!(!config.announce_on_start);
    assert!(!config.require_user_id);
    assert_eq!(config.resource_announce_interval_secs, 60);
    assert_eq!(config.mesh.name, "friends");
    assert_eq!(config.runtime.backend, RuntimeBackend::Skeleton);
    assert!(config.models.is_empty());
    assert!(config.x0x.machine_key_path.is_none());
    assert!(config.x0x.contact_store_path.is_none());
}

#[test]
fn mesh_default_is_friends() {
    let mesh = MeshConfig::default();
    assert_eq!(mesh.name, "friends");
}

#[test]
fn startup_plan_announces_only_after_joining() {
    let mut config = ComputeConfig::with_data_dir("/data".to_string());
    assert_eq!(
        config.startup_plan(),
        StartupPlan { join_network: false, subscribe_capabilities: false, announce_capability: false }
    );
    config.announce_on_start = true;
    assert!(!config.startup_plan().announce_capability);
    config.join_network_on_start = true;
    assert_eq!(
        config.startup_plan(),
        StartupPlan { join_network: true, subscribe_capabilities: true, announce_capability: true }
    );
    config.announce_on_start = false;
    assert_eq!(
        config.startup_plan(),
        StartupPlan { join_network: true, subscribe_capabilities: true, announce_capability: false }
    );
}

#[test]
fn user_identity_required_when_configured() {
    let mut config = ComputeConfig::with_data_dir("/data".to_string());
    assert!(config.check_user_identity(None).is_ok());
    config.require_user_id = true;
    assert!(matches!(config.check_user_identity(None), Err(ComputeError::UserIdentityRequired)));
    assert!(config.check_user_identity(Some(&[7u8; 32])).is_ok());
}

#[test]
fn error_status_codes() {
    assert_eq!(ComputeError::ModelNotFound("x".to_string()).http_status(), 404);
    assert_eq!(ComputeError::ReservationNotFound("x".to_string()).http_status(), 404);
    assert_eq!(
        ComputeError::ModelCapacityExceeded {
            model: "x".to_string(),
            requested_slots: 2,
            available_slots: 1
        }
        .http_status(),
        409
    );
    assert_eq!(ComputeError::UnsupportedFeature("x".to_string()).http_status(), 501);
    assert_eq!(ComputeError::InvalidReservationRequest("x".to_string()).http_status(), 400);
    assert_eq!(ComputeError::InvalidChatRequest("x".to_string()).http_status(), 400);
    assert_eq!(ComputeError::UserIdentityRequired.http_status(), 500);
}
