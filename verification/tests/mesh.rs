use x0x_compute::mesh::allows_peer;
use x0x_compute::{
    encode_agent_id, encode_machine_id, AgentIdentitySnapshot, CapabilityAnnouncement,
    CapabilityDisposition, CapabilityMessage, ComputeConfig, HardwareProfile, TrustDecision,
    TrustedMeshPolicy, TrustedPeerRegistry, PROTOCOL_VERSION,
};

/// Contact trust as the x0x contact store would report it for a test.
#[derive(Clone, Copy, PartialEq)]
enum Level {
    Trusted,
    Known,
}

/// A small stand-in for the contact store: who is trusted or known, and the
/// machine a contact pinned, evaluated as x0x's trust evaluator does.
struct Contacts {
    entries: Vec<([u8; 32], Level, Option<[u8; 32]>)>,
}

impl Contacts {
    fn new() -> Self {
        Contacts { entries: Vec::new() }
    }

    fn set_trust(&mut self, agent: [u8; 32], level: Level) {
        self.entries.push((agent, level, None));
    }

    fn pin(&mut self, agent: [u8; 32], level: Level, machine: [u8; 32]) {
        self.entries.push((agent, level, Some(machine)));
    }

    fn evaluate(&self, agent: [u8; 32], machine: [u8; 32]) -> TrustDecision {
        match self.entries.iter().find(|(a, _, _)| *a == agent) {
            None => TrustDecision::Unknown,
            Some((_, level, pinned)) => {
                if let Some(pinned) = pinned {
                    if *pinned != machine {
                        return TrustDecision::RejectMachineMismatch;
                    }
                }
                match level {
                    Level::Trusted => TrustDecision::Accept,
                    Level::Known => TrustDecision::AcceptWithFlag,
                }
            }
        }
    }
}

fn key(seed: u8) -> [u8; 32] {
    let mut out = [0u8; 32];
    for (i, byte) in out.iter_mut().enumerate() {
        *byte = seed.wrapping_mul(13).wrapping_add(i as u8);
    }
    out
}

fn config() -> ComputeConfig {
    ComputeConfig::with_data_dir("./var/test".to_string())
}

fn relaxed_config() -> ComputeConfig {
    let mut config = config();
    config.mesh.trusted_friends_only = false;
    config.mesh.require_trusted_contacts = false;
    config
}

fn capability_for(
    agent_id: &[u8; 32],
    machine_id: &[u8; 32],
    mesh_name: &str,
    available_models: Vec<String>,
) -> CapabilityAnnouncement {
    CapabilityAnnouncement {
        protocol_version: PROTOCOL_VERSION,
        identity: AgentIdentitySnapshot {
            machine_id: encode_machine_id(machine_id),
            agent_id: encode_agent_id(agent_id),
            user_id: None,
        },
        hardware: HardwareProfile {
            hostname: Some("friendbox".to_string()),
            cpu_brand: "Apple M4".to_string(),
            logical_cores: 10,
            total_memory_bytes: 64 * 1024,
            available_memory_bytes: 32 * 1024,
        },
        policy: TrustedMeshPolicy {
            mesh_name: mesh_name.to_string(),
            trusted_friends_only: true,
            require_trusted_contacts: true,
            prefer_user_identity: true,
        },
        available_models,
        observed_at_unix_secs: 1,
    }
}

fn message_for(sender: [u8; 32], capability: &CapabilityAnnouncement) -> CapabilityMessage {
    CapabilityMessage { sender: Some(sender), verified: true, payload: Some(capability.clone()) }
}

fn apply(
    registry: &mut TrustedPeerRegistry,
    config: &ComputeConfig,
    local_agent: &[u8; 32],
    store: &Contacts,
    message: CapabilityMessage,
) -> CapabilityDisposition {
    registry.apply_message(config, &encode_agent_id(local_agent), message, |a, m| {
        store.evaluate(a, m)
    })
}

#[test]
fn accepts_trusted_peer_with_matching_sender() {
    let mut registry = TrustedPeerRegistry::new();
    let local_agent = key(1);
    let sender = key(2);
    let machine_id = key(3);
    let capability = capability_for(&sender, &machine_id, "friends", vec!["qwen3.5:32b".into()]);
    let message = message_for(sender, &capability);

    let mut store = Contacts::new();
    store.set_trust(sender, Level::Trusted);

    let disposition = apply(&mut registry, &config(), &local_agent, &store, message);

    assert_eq!(disposition, CapabilityDisposition::AcceptedNewPeer);
    assert_eq!(registry.len(), 1);
    assert_eq!(registry.snapshot()[0].capability, capability);
    assert_eq!(registry.snapshot()[0].trust_decision, TrustDecision::Accept);
}

#[test]
fn rejects_sender_mismatch() {
    let mut registry = TrustedPeerRegistry::new();
    let local_agent = key(1);
    let sender = key(2);
    let different_agent = key(4);
    let machine_id = key(3);
    let capability = capability_for(&different_agent, &machine_id, "friends", Vec::new());
    let message = message_for(sender, &capability);

    let mut store = Contacts::new();
    store.set_trust(sender, Level::Trusted);

    let disposition = apply(&mut registry, &config(), &local_agent, &store, message);

    assert_eq!(disposition, CapabilityDisposition::RejectedSenderMismatch);
    assert!(registry.is_empty());
}

#[test]
fn rejects_unknown_peer_under_trusted_friends_policy() {
    let mut registry = TrustedPeerRegistry::new();
    let local_agent = key(1);
    let sender = key(2);
    let machine_id = key(3);
    let capability = capability_for(&sender, &machine_id, "friends", Vec::new());
    let message = message_for(sender, &capability);
    let store = Contacts::new();

    let disposition = apply(&mut registry, &config(), &local_agent, &store, message);

    assert_eq!(disposition, CapabilityDisposition::RejectedTrust(TrustDecision::Unknown));
    assert!(registry.is_empty());
}

#[test]
fn accepts_known_peer_when_policy_is_relaxed() {
    let mut registry = TrustedPeerRegistry::new();
    let local_agent = key(1);
    let sender = key(2);
    let machine_id = key(3);
    let capability = capability_for(&sender, &machine_id, "friends", vec!["gemma-4".into()]);
    let message = message_for(sender, &capability);

    let mut store = Contacts::new();
    store.set_trust(sender, Level::Known);

    let disposition = apply(&mut registry, &relaxed_config(), &local_agent, &store, message);

    assert_eq!(disposition, CapabilityDisposition::AcceptedNewPeer);
    assert_eq!(registry.snapshot()[0].trust_decision, TrustDecision::AcceptWithFlag);
}

#[test]
fn rejects_known_peer_when_policy_requires_trusted_contacts() {
    let mut registry = TrustedPeerRegistry::new();
    let local_agent = key(1);
    let sender = key(2);
    let machine_id = key(3);
    let capability = capability_for(&sender, &machine_id, "friends", Vec::new());
    let message = message_for(sender, &capability);

    let mut store = Contacts::new();
    store.set_trust(sender, Level::Known);

    let disposition = apply(&mut registry, &config(), &local_agent, &store, message);

    assert_eq!(
        disposition,
        CapabilityDisposition::RejectedTrust(TrustDecision::AcceptWithFlag)
    );
    assert!(registry.is_empty());
}

#[test]
fn rejects_pinned_machine_mismatch() {
    let mut registry = TrustedPeerRegistry::new();
    let local_agent = key(1);
    let sender = key(2);
    let pinned_machine = key(3);
    let other_machine = key(5);
    let capability = capability_for(&sender, &other_machine, "friends", Vec::new());
    let message = message_for(sender, &capability);

    let mut store = Contacts::new();
    store.pin(sender, Level::Trusted, pinned_machine);

    let disposition = apply(&mut registry, &config(), &local_agent, &store, message);

    assert_eq!(
        disposition,
        CapabilityDisposition::RejectedTrust(TrustDecision::RejectMachineMismatch)
    );
    assert!(registry.is_empty());
}

#[test]
fn accepts_pinned_machine_match() {
    let mut registry = TrustedPeerRegistry::new();
    let local_agent = key(1);
    let sender = key(2);
    let pinned_machine = key(3);
    let capability = capability_for(&sender, &pinned_machine, "friends", Vec::new());
    let message = message_for(sender, &capability);

    let mut store = Contacts::new();
    store.pin(sender, Level::Trusted, pinned_machine);

    let disposition = apply(&mut registry, &config(), &local_agent, &store, message);

    assert_eq!(disposition, CapabilityDisposition::AcceptedNewPeer);
    assert_eq!(registry.snapshot()[0].trust_decision, TrustDecision::Accept);
}

#[test]
fn ignores_self_announcement() {
    let mut registry = TrustedPeerRegistry::new();
    let local_agent = key(1);
    let machine_id = key(3);
    let capability = capability_for(&local_agent, &machine_id, "friends", Vec::new());
    let message = message_for(local_agent, &capability);
    let store = Contacts::new();

    let disposition = apply(&mut registry, &config(), &local_agent, &store, message);

    assert_eq!(disposition, CapabilityDisposition::IgnoredSelf);
    assert!(registry.is_empty());
}

#[test]
fn rejects_wrong_mesh_name() {
    let mut registry = TrustedPeerRegistry::new();
    let local_agent = key(1);
    let sender = key(2);
    let machine_id = key(3);
    let capability = capability_for(&sender, &machine_id, "other-mesh", Vec::new());
    let message = message_for(sender, &capability);

    let mut store = Contacts::new();
    store.set_trust(sender, Level::Trusted);

    let disposition = apply(&mut registry, &config(), &local_agent, &store, message);

    assert_eq!(disposition, CapabilityDisposition::RejectedWrongMesh);
    assert!(registry.is_empty());
}

#[test]
fn updates_existing_peer_record() {
    let mut registry = TrustedPeerRegistry::new();
    let local_agent = key(1);
    let sender = key(2);
    let machine_id = key(3);
    let first = capability_for(&sender, &machine_id, "friends", vec!["gemma-4".into()]);
    let second = capability_for(
        &sender,
        &machine_id,
        "friends",
        vec!["gemma-4".into(), "qwen3.5:32b".into()],
    );

    let mut store = Contacts::new();
    store.set_trust(sender, Level::Trusted);

    let first_disposition =
        apply(&mut registry, &config(), &local_agent, &store, message_for(sender, &first));
    let second_disposition =
        apply(&mut registry, &config(), &local_agent, &store, message_for(sender, &second));

    assert_eq!(first_disposition, CapabilityDisposition::AcceptedNewPeer);
    assert_eq!(second_disposition, CapabilityDisposition::UpdatedPeer);
    assert_eq!(registry.len(), 1);
    assert_eq!(registry.snapshot()[0].capability.available_models, second.available_models);
}

#[test]
fn rejects_invalid_payload() {
    let mut registry = TrustedPeerRegistry::new();
    let local_agent = key(1);
    let sender = key(2);
    let mut store = Contacts::new();
    store.set_trust(sender, Level::Trusted);

    let message = CapabilityMessage { sender: Some(sender), verified: true, payload: None };

    let disposition = apply(&mut registry, &config(), &local_agent, &store, message);

    assert_eq!(disposition, CapabilityDisposition::RejectedInvalidPayload);
    assert!(registry.is_empty());
}

#[test]
fn rejects_unverified_sender() {
    let mut registry = TrustedPeerRegistry::new();
    let local_agent = key(1);
    let sender = key(2);
    let machine_id = key(3);
    let capability = capability_for(&sender, &machine_id, "friends", Vec::new());
    let mut message = message_for(sender, &capability);
    let mut store = Contacts::new();
    store.set_trust(sender, Level::Trusted);
    message.verified = false;

    let disposition = apply(&mut registry, &config(), &local_agent, &store, message);

    assert_eq!(disposition, CapabilityDisposition::RejectedUnverifiedSender);
    assert!(registry.is_empty());
}

#[test]
fn rejects_missing_sender() {
    let mut registry = TrustedPeerRegistry::new();
    let capability = capability_for(&key(2), &key(3), "friends", Vec::new());
    let message = CapabilityMessage { sender: None, verified: true, payload: Some(capability) };
    let disposition = apply(&mut registry, &config(), &key(1), &Contacts::new(), message);
    assert_eq!(disposition, CapabilityDisposition::RejectedMissingSender);
    assert!(registry.is_empty());
}

#[test]
fn rejects_unsupported_protocol() {
    let mut registry = TrustedPeerRegistry::new();
    let sender = key(2);
    let mut capability = capability_for(&sender, &key(3), "friends", Vec::new());
    capability.protocol_version = 2;
    let mut store = Contacts::new();
    store.set_trust(sender, Level::Trusted);
    let disposition =
        apply(&mut registry, &config(), &key(1), &store, message_for(sender, &capability));
    assert_eq!(disposition, CapabilityDisposition::RejectedUnsupportedProtocol);
}

#[test]
fn rejects_invalid_machine_id() {
    let mut registry = TrustedPeerRegistry::new();
    let sender = key(2);
    let mut capability = capability_for(&sender, &key(3), "friends", Vec::new());
    capability.identity.machine_id = "not-hex".to_string();
    let mut store = Contacts::new();
    store.set_trust(sender, Level::Trusted);
    let disposition =
        apply(&mut registry, &config(), &key(1), &store, message_for(sender, &capability));
    assert_eq!(disposition, CapabilityDisposition::RejectedInvalidMachineId);
    assert!(registry.is_empty());
}

#[test]
fn trust_is_asked_for_sender_and_advertised_machine() {
    let mut registry = TrustedPeerRegistry::new();
    let sender = key(2);
    let machine = key(3);
    let capability = capability_for(&sender, &machine, "friends", Vec::new());
    let seen = std::cell::RefCell::new(Vec::new());
    let disposition = registry.apply_message(
        &config(),
        &encode_agent_id(&key(1)),
        message_for(sender, &capability),
        |a, m| {
            seen.borrow_mut().push((a, m));
            TrustDecision::RejectBlocked
        },
    );
    assert_eq!(disposition, CapabilityDisposition::RejectedTrust(TrustDecision::RejectBlocked));
    assert_eq!(seen.into_inner(), vec![(sender, machine)]);
}

#[test]
fn snapshot_is_ordered_by_agent_id_and_keeps_first_sighting() {
    let mut registry = TrustedPeerRegistry::new();
    let config = config();
    let a = capability_for(&[0xaa; 32], &key(3), "friends", Vec::new());
    let b = capability_for(&[0x11; 32], &key(3), "friends", Vec::new());
    assert_eq!(
        registry.record_decision(&config, a.clone(), TrustDecision::Accept, 10),
        CapabilityDisposition::AcceptedNewPeer
    );
    assert_eq!(
        registry.record_decision(&config, b.clone(), TrustDecision::Accept, 20),
        CapabilityDisposition::AcceptedNewPeer
    );
    assert_eq!(
        registry.record_decision(&config, a.clone(), TrustDecision::Accept, 30),
        CapabilityDisposition::UpdatedPeer
    );
    let snapshot = registry.snapshot();
    assert_eq!(snapshot.len(), 2);
    assert_eq!(snapshot[0].capability, b);
    assert_eq!(snapshot[1].capability, a);
    assert_eq!(snapshot[1].first_seen_unix_secs, 10);
    assert_eq!(snapshot[1].last_seen_unix_secs, 30);
    assert_eq!(snapshot[0].first_seen_unix_secs, 20);
}

#[test]
fn refused_decision_leaves_registry_unchanged() {
    let mut registry = TrustedPeerRegistry::new();
    let a = capability_for(&[0xaa; 32], &key(3), "friends", Vec::new());
    assert_eq!(
        registry.record_decision(&config(), a, TrustDecision::RejectBlocked, 10),
        CapabilityDisposition::RejectedTrust(TrustDecision::RejectBlocked)
    );
    assert!(registry.is_empty());
}

#[test]
fn allows_peer_follows_policy() {
    let strict = config();
    let relaxed = relaxed_config();
    assert!(allows_peer(&strict, TrustDecision::Accept));
    assert!(!allows_peer(&strict, TrustDecision::AcceptWithFlag));
    assert!(allows_peer(&relaxed, TrustDecision::AcceptWithFlag));
    assert!(!allows_peer(&relaxed, TrustDecision::Unknown));
    assert!(!allows_peer(&relaxed, TrustDecision::RejectBlocked));
    assert!(!allows_peer(&relaxed, TrustDecision::RejectMachineMismatch));
}

#[test]
fn run_of_messages_keeps_only_admitted_peers() {
    let mut registry = TrustedPeerRegistry::new();
    let local_agent = key(1);
    let trusted = key(2);
    let known = key(4);
    let stranger = key(5);
    let mut store = Contacts::new();
    store.set_trust(trusted, Level::Trusted);
    store.set_trust(known, Level::Known);

    let own = capability_for(&local_agent, &key(9), "friends", Vec::new());
    let from_trusted = capability_for(&trusted, &key(3), "friends", Vec::new());
    let from_known = capability_for(&known, &key(6), "friends", Vec::new());
    let from_stranger = capability_for(&stranger, &key(7), "friends", Vec::new());
    let other_mesh = capability_for(&trusted, &key(3), "elsewhere", Vec::new());

    let runs = vec![
        (message_for(local_agent, &own), CapabilityDisposition::IgnoredSelf, 0),
        (message_for(known, &from_known), CapabilityDisposition::RejectedTrust(TrustDecision::AcceptWithFlag), 0),
        (message_for(stranger, &from_stranger), CapabilityDisposition::RejectedTrust(TrustDecision::Unknown), 0),
        (message_for(trusted, &other_mesh), CapabilityDisposition::RejectedWrongMesh, 0),
        (message_for(trusted, &from_trusted), CapabilityDisposition::AcceptedNewPeer, 1),
        (message_for(trusted, &from_trusted), CapabilityDisposition::UpdatedPeer, 1),
    ];
    for (message, expected, len) in runs {
        let disposition = apply(&mut registry, &config(), &local_agent, &store, message);
        assert_eq!(disposition, expected);
        assert_eq!(registry.len(), len);
    }

    for record in registry.snapshot() {
        assert_ne!(record.capability.identity.agent_id, encode_agent_id(&local_agent));
        assert_eq!(record.capability.protocol_version, PROTOCOL_VERSION);
        assert_eq!(record.capability.policy.mesh_name, config().mesh.name);
        assert!(allows_peer(&config(), record.trust_decision));
    }
}
