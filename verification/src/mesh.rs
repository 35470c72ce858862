//! Trusted peer registry fed by capability gossip.

use vstd::prelude::*;

use crate::capability::{CapabilityAnnouncement, CapabilityView};
use crate::clock::unix_timestamp_secs;
use crate::config::{ComputeConfig, MeshConfig, PROTOCOL_VERSION};
use crate::identity::{encode_agent_id, hex_decoded, hex_lower, is_hex, parse_machine_id_hex};
use crate::keyed::{lemma_insert_sorted, lemma_update_sorted, locate, Keyed};
use crate::text::{lemma_text_lt_irreflexive, str_eq, text_lt};
use vstd::utf8::encode_utf8;

verus! {

/// The verdict of x0x's trust evaluation for an agent on a machine.
#[derive(Debug, Clone, Copy, PartialEq, Eq, Structural)]
pub enum TrustDecision {
    /// A trusted contact on an acceptable machine.
    Accept,
    /// A known but not trusted contact.
    AcceptWithFlag,
    /// The contact pinned a different machine.
    RejectMachineMismatch,
    /// The contact is blocked.
    RejectBlocked,
    /// Nothing is known of the agent.
    Unknown,
}

/// Outcome of processing an incoming capability announcement.
#[derive(Debug, Clone, Copy, PartialEq, Eq, Structural)]
pub enum CapabilityDisposition {
    AcceptedNewPeer,
    UpdatedPeer,
    IgnoredSelf,
    RejectedMissingSender,
    RejectedUnverifiedSender,
    RejectedInvalidPayload,
    RejectedUnsupportedProtocol,
    RejectedWrongMesh,
    RejectedSenderMismatch,
    RejectedInvalidMachineId,
    RejectedTrust(TrustDecision),
}

/// An incoming capability message: the signed sender's agent id when there
/// is one, whether its signature was verified, and the payload read as an
/// announcement (`None` when it is no valid announcement).
#[derive(Debug)]
pub struct CapabilityMessage {
    pub sender: Option<[u8; 32]>,
    pub verified: bool,
    pub payload: Option<CapabilityAnnouncement>,
}

/// Stored view of a trusted peer capability announcement.
#[derive(Debug, PartialEq, Eq)]
pub struct PeerCapabilityRecord {
    pub capability: CapabilityAnnouncement,
    pub trust_decision: TrustDecision,
    pub first_seen_unix_secs: u64,
    pub last_seen_unix_secs: u64,
}

/// The content of a peer record.
pub struct PeerRecordView {
    pub capability: CapabilityView,
    pub trust_decision: TrustDecision,
    pub first_seen_unix_secs: u64,
    pub last_seen_unix_secs: u64,
}

impl View for PeerCapabilityRecord {
    type V = PeerRecordView;

    open spec fn view(&self) -> PeerRecordView {
        PeerRecordView {
            capability: self.capability@,
            trust_decision: self.trust_decision,
            first_seen_unix_secs: self.first_seen_unix_secs,
            last_seen_unix_secs: self.last_seen_unix_secs,
        }
    }
}

impl Clone for PeerCapabilityRecord {
    fn clone(&self) -> (res: Self)
        ensures
            res@ == self@,
    {
        PeerCapabilityRecord {
            capability: self.capability.clone(),
            trust_decision: self.trust_decision,
            first_seen_unix_secs: self.first_seen_unix_secs,
            last_seen_unix_secs: self.last_seen_unix_secs,
        }
    }
}

impl Keyed for PeerCapabilityRecord {
    open spec fn key_of(&self) -> Seq<char> {
        self.capability.identity.agent_id@
    }

    fn key(&self) -> (r: &str) {
        self.capability.identity.agent_id.as_str()
    }
}

/// The agent id under which a record is kept.
pub open spec fn peer_key(r: PeerRecordView) -> Seq<char> {
    r.capability.identity.agent_id@
}

/// Records in strictly increasing order of agent id, so no agent twice.
pub open spec fn sorted_by_agent(s: Seq<PeerRecordView>) -> bool {
    forall|i: int, j: int|
        0 <= i < j < s.len() ==> text_lt(#[trigger] peer_key(s[i]), #[trigger] peer_key(s[j]))
}

/// Whether the mesh policy admits a peer with this trust decision: a trusted
/// contact always, a merely known one only when the mesh neither restricts
/// itself to trusted friends nor requires trusted contacts.
pub open spec fn allows(mesh: MeshConfig, decision: TrustDecision) -> bool {
    match decision {
        TrustDecision::Accept => true,
        TrustDecision::AcceptWithFlag => !mesh.trusted_friends_only
            && !mesh.require_trusted_contacts,
        _ => false,
    }
}

/// Whether `config` admits a peer with this trust decision.
pub fn allows_peer(config: &ComputeConfig, decision: TrustDecision) -> (r: bool)
    ensures
        r == allows(config.mesh, decision),
{
    match decision {
        TrustDecision::Accept => true,
        TrustDecision::AcceptWithFlag => {
            !config.mesh.trusted_friends_only && !config.mesh.require_trusted_contacts
        },
        TrustDecision::RejectMachineMismatch | TrustDecision::RejectBlocked
        | TrustDecision::Unknown => false,
    }
}

/// The new record for a peer first seen at `now`.
pub open spec fn new_record(cap: CapabilityView, decision: TrustDecision, now: u64) -> PeerRecordView {
    PeerRecordView {
        capability: cap,
        trust_decision: decision,
        first_seen_unix_secs: now,
        last_seen_unix_secs: now,
    }
}

/// A known peer's record after a new announcement at `now`: the new
/// capability and decision, the first sighting kept.
pub open spec fn refreshed_record(
    old: PeerRecordView,
    cap: CapabilityView,
    decision: TrustDecision,
    now: u64,
) -> PeerRecordView {
    PeerRecordView {
        capability: cap,
        trust_decision: decision,
        first_seen_unix_secs: old.first_seen_unix_secs,
        last_seen_unix_secs: now,
    }
}

/// Whether the registry holds a record for agent id `k`.
pub open spec fn has_peer(s: Seq<PeerRecordView>, k: Seq<char>) -> bool {
    exists|j: int| 0 <= j < s.len() && peer_key(s[j]) == k
}

/// What admitting an announcement with a trust decision at `now` does to
/// the records `old`, giving `new` and the disposition `r`: a decision that
/// the policy refuses changes nothing; otherwise a known peer's record is
/// refreshed in place, and an unknown peer is added in agent-id order.
pub open spec fn admission(
    old: Seq<PeerRecordView>,
    mesh: MeshConfig,
    cap: CapabilityView,
    decision: TrustDecision,
    now: u64,
    new: Seq<PeerRecordView>,
    r: CapabilityDisposition,
) -> bool {
    if !allows(mesh, decision) {
        r == CapabilityDisposition::RejectedTrust(decision) && new == old
    } else if has_peer(old, cap.identity.agent_id@) {
        r == CapabilityDisposition::UpdatedPeer && forall|j: int|
            0 <= j < old.len() && peer_key(old[j]) == cap.identity.agent_id@ ==> new == old.update(
                j,
                refreshed_record(old[j], cap, decision, now),
            )
    } else {
        r == CapabilityDisposition::AcceptedNewPeer && sorted_by_agent(new) && exists|i: int|
            0 <= i <= old.len() && new == old.insert(i, new_record(cap, decision, now))
    }
}

/// Whether a stored record could only have come from an announcement that
/// passed screening for `mesh` and the local agent `local_agent_id`: not our
/// own agent, our protocol version, our mesh, and a trust decision that the
/// mesh policy admits.
pub open spec fn admitted_record(mesh: MeshConfig, local_agent_id: Seq<char>, rec: PeerRecordView) -> bool {
    &&& rec.capability.identity.agent_id@ != local_agent_id
    &&& rec.capability.protocol_version == PROTOCOL_VERSION
    &&& rec.capability.policy.mesh_name@ == mesh.name@
    &&& allows(mesh, rec.trust_decision)
}

/// Every record of `s` is an admitted record.
pub open spec fn all_admitted(s: Seq<PeerRecordView>, mesh: MeshConfig, local_agent_id: Seq<char>) -> bool {
    forall|i: int| 0 <= i < s.len() ==> admitted_record(mesh, local_agent_id, #[trigger] s[i])
}

/// What applying message `m` does to the records `old`, giving `new` and the
/// disposition `r`: a message that fails screening is answered with the
/// first check it fails and changes nothing; one that passes is admitted
/// under some trust decision and sighting time.
pub open spec fn message_outcome(
    old: Seq<PeerRecordView>,
    config: ComputeConfig,
    local_agent_id: Seq<char>,
    m: CapabilityMessage,
    new: Seq<PeerRecordView>,
    r: CapabilityDisposition,
) -> bool {
    match screening(config, local_agent_id, m) {
        Some(d) => r == d && new == old,
        None => exists|decision: TrustDecision, now: u64|
            admission(old, config.mesh, m.payload->0@, decision, now, new, r),
    }
}

/// The bytes of the machine id that a message's announcement advertises.
pub open spec fn advertised_machine(m: CapabilityMessage) -> Seq<u8> {
    encode_utf8(m.payload->0.identity.machine_id@)
}

/// The checks that a message must pass before trust is evaluated, in order:
/// a sender, a verified signature, not our own agent, a valid announcement,
/// of our protocol version, for our mesh, made by its sender, and naming a
/// valid 32-byte machine id. `None` when it passes them all.
pub open spec fn screening(config: ComputeConfig, local_agent_id: Seq<char>, m: CapabilityMessage) -> Option<
    CapabilityDisposition,
> {
    if m.sender is None {
        Some(CapabilityDisposition::RejectedMissingSender)
    } else if !m.verified {
        Some(CapabilityDisposition::RejectedUnverifiedSender)
    } else if hex_lower(m.sender->0@) == local_agent_id {
        Some(CapabilityDisposition::IgnoredSelf)
    } else if m.payload is None {
        Some(CapabilityDisposition::RejectedInvalidPayload)
    } else if m.payload->0.protocol_version != PROTOCOL_VERSION {
        Some(CapabilityDisposition::RejectedUnsupportedProtocol)
    } else if m.payload->0.policy.mesh_name@ != config.mesh.name@ {
        Some(CapabilityDisposition::RejectedWrongMesh)
    } else if m.payload->0.identity.agent_id@ != hex_lower(m.sender->0@) {
        Some(CapabilityDisposition::RejectedSenderMismatch)
    } else if !is_hex(advertised_machine(m)) || advertised_machine(m).len() != 64 {
        Some(CapabilityDisposition::RejectedInvalidMachineId)
    } else {
        None
    }
}

/// In-memory registry of trusted peer capabilities, kept in agent-id order.
#[derive(Debug)]
pub struct TrustedPeerRegistry {
    peers: Vec<PeerCapabilityRecord>,
}

impl View for TrustedPeerRegistry {
    type V = Seq<PeerRecordView>;

    closed spec fn view(&self) -> Seq<PeerRecordView> {
        self.peers@.map_values(|r: PeerCapabilityRecord| r@)
    }
}

impl TrustedPeerRegistry {
    /// The registry keeps its records in agent-id order.
    pub open spec fn wf(&self) -> bool {
        sorted_by_agent(self@)
    }

    /// Creates an empty registry.
    pub fn new() -> (r: Self)
        ensures
            r@ == Seq::<PeerRecordView>::empty(),
            r.wf(),
    {
        let r = TrustedPeerRegistry { peers: Vec::new() };
        assert(r@ =~= Seq::<PeerRecordView>::empty());
        r
    }

    /// Returns a stable snapshot of the currently accepted peer capabilities,
    /// in agent-id order.
    pub fn snapshot(&self) -> (r: Vec<PeerCapabilityRecord>)
        ensures
            r@.map_values(|p: PeerCapabilityRecord| p@) == self@,
    {
        let mut out: Vec<PeerCapabilityRecord> = Vec::new();
        let mut i: usize = 0;
        while i < self.peers.len()
            invariant
                i <= self.peers@.len(),
                out@.len() == i,
                forall|j: int| 0 <= j < i ==> out@[j]@ == self.peers@[j]@,
            decreases self.peers@.len() - i,
        {
            out.push(self.peers[i].clone());
            i = i + 1;
        }
        assert(out@.map_values(|p: PeerCapabilityRecord| p@) =~= self@);
        out
    }

    /// Returns the number of accepted peers currently tracked.
    pub fn len(&self) -> (r: usize)
        ensures
            r == self@.len(),
    {
        self.peers.len()
    }

    /// Returns whether the registry is empty.
    pub fn is_empty(&self) -> (r: bool)
        ensures
            r == (self@.len() == 0),
    {
        self.peers.len() == 0
    }

    /// Records an announcement that passed screening, with the trust
    /// decision that x0x gave for its sender and machine, at `now`.
    pub fn record_decision(
        &mut self,
        config: &ComputeConfig,
        capability: CapabilityAnnouncement,
        decision: TrustDecision,
        now: u64,
    ) -> (r: CapabilityDisposition)
        requires
            old(self).wf(),
        ensures
            final(self).wf(),
            admission(old(self)@, config.mesh, capability@, decision, now, final(self)@, r),
    {
        if !allows_peer(config, decision) {
            return CapabilityDisposition::RejectedTrust(decision);
        }
        let ghost old_view = self@;
        let ghost old_peers = self.peers@;
        let ghost cap = capability@;
        proof {
            assert forall|i: int, j: int| 0 <= i < j < old_peers.len() implies text_lt(
                #[trigger] old_peers[i].key_of(),
                #[trigger] old_peers[j].key_of(),
            ) by {
                assert(peer_key(old_view[i]) == old_peers[i].key_of());
                assert(peer_key(old_view[j]) == old_peers[j].key_of());
            }
        }
        let (pos, found) = locate(&self.peers, capability.identity.agent_id.as_str());
        proof {
            assert forall|j: int| 0 <= j < old_peers.len() implies peer_key(old_view[j])
                == #[trigger] old_peers[j].key_of() by {}
        }
        if found {
            let first_seen = self.peers[pos].first_seen_unix_secs;
            let rec = PeerCapabilityRecord {
                capability,
                trust_decision: decision,
                first_seen_unix_secs: first_seen,
                last_seen_unix_secs: now,
            };
            proof {
                lemma_update_sorted(old_peers, pos as int, rec);
            }
            self.peers.set(pos, rec);
            proof {
                let upd = refreshed_record(old_view[pos as int], cap, decision, now);
                assert(self@ =~= old_view.update(pos as int, upd));
                assert(self.peers@ == old_peers.update(pos as int, rec));
                assert forall|a: int, b: int|
                    0 <= a < b < self@.len() implies text_lt(
                    #[trigger] peer_key(self@[a]),
                    #[trigger] peer_key(self@[b]),
                ) by {
                    assert(peer_key(self@[a]) == self.peers@[a].key_of());
                    assert(peer_key(self@[b]) == self.peers@[b].key_of());
                }
                assert(old_peers[pos as int].key_of() == peer_key(old_view[pos as int]));
                assert(has_peer(old_view, cap.identity.agent_id@));
                assert forall|j: int|
                    0 <= j < old_view.len() && peer_key(old_view[j]) == cap.identity.agent_id@
                    implies j == pos by {
                    assert(old_peers[j].key_of() == cap.identity.agent_id@);
                }
            }
            CapabilityDisposition::UpdatedPeer
        } else {
            let rec = PeerCapabilityRecord {
                capability,
                trust_decision: decision,
                first_seen_unix_secs: now,
                last_seen_unix_secs: now,
            };
            proof {
                lemma_insert_sorted(old_peers, pos as int, rec);
                assert forall|j: int| 0 <= j < old_view.len() implies peer_key(old_view[j])
                    != cap.identity.agent_id@ by {
                    if peer_key(old_view[j]) == cap.identity.agent_id@ {
                        assert(old_peers[j].key_of() == cap.identity.agent_id@);
                    }
                }
            }
            self.peers.insert(pos, rec);
            proof {
                assert(self@ =~= old_view.insert(pos as int, new_record(cap, decision, now)));
                assert forall|a: int, b: int|
                    0 <= a < b < self@.len() implies text_lt(
                    #[trigger] peer_key(self@[a]),
                    #[trigger] peer_key(self@[b]),
                ) by {
                    assert(peer_key(self@[a]) == self.peers@[a].key_of());
                    assert(peer_key(self@[b]) == self.peers@[b].key_of());
                }
            }
            CapabilityDisposition::AcceptedNewPeer
        }
    }

    /// Applies a single incoming capability message to the registry.
    /// `evaluate_trust` is x0x's trust evaluation over the contact store,
    /// asked for the signed sender and the advertised machine once the
    /// message passes screening; the sighting is stamped with the current
    /// time.
    pub fn apply_message<F: Fn([u8; 32], [u8; 32]) -> TrustDecision>(
        &mut self,
        config: &ComputeConfig,
        local_agent_id: &str,
        message: CapabilityMessage,
        evaluate_trust: F,
    ) -> (r: CapabilityDisposition)
        requires
            old(self).wf(),
            forall|agent: [u8; 32], machine: [u8; 32]|
                call_requires(evaluate_trust, (agent, machine)),
        ensures
            final(self).wf(),
            screening(*config, local_agent_id@, message) is Some ==> r == screening(
                *config,
                local_agent_id@,
                message,
            )->0,
            screening(*config, local_agent_id@, message) is Some ==> final(self)@ == old(self)@,
            screening(*config, local_agent_id@, message) is None ==> exists|
                machine: [u8; 32],
                decision: TrustDecision,
                now: u64,
            |
                machine@ == hex_decoded(advertised_machine(message)) && call_ensures(
                    evaluate_trust,
                    (message.sender->0, machine),
                    decision,
                ) && admission(
                    old(self)@,
                    config.mesh,
                    message.payload->0@,
                    decision,
                    now,
                    final(self)@,
                    r,
                ),
            message_outcome(old(self)@, *config, local_agent_id@, message, final(self)@, r),
            all_admitted(old(self)@, config.mesh, local_agent_id@) ==> all_admitted(
                final(self)@,
                config.mesh,
                local_agent_id@,
            ),
            r == CapabilityDisposition::AcceptedNewPeer ==> final(self)@.len() == old(self)@.len()
                + 1,
            r == CapabilityDisposition::UpdatedPeer ==> final(self)@.len() == old(self)@.len(),
            r != CapabilityDisposition::AcceptedNewPeer && r != CapabilityDisposition::UpdatedPeer
                ==> final(self)@ == old(self)@,
    {
        let now = unix_timestamp_secs();
        self.apply_message_at(config, local_agent_id, message, evaluate_trust, now)
    }

    /// Applies a single incoming capability message to the registry, as
    /// `apply_message` does, stamping the sighting with `now`.
    pub fn apply_message_at<F: Fn([u8; 32], [u8; 32]) -> TrustDecision>(
        &mut self,
        config: &ComputeConfig,
        local_agent_id: &str,
        message: CapabilityMessage,
        evaluate_trust: F,
        now: u64,
    ) -> (r: CapabilityDisposition)
        requires
            old(self).wf(),
            forall|agent: [u8; 32], machine: [u8; 32]|
                call_requires(evaluate_trust, (agent, machine)),
        ensures
            final(self).wf(),
            screening(*config, local_agent_id@, message) is Some ==> r == screening(
                *config,
                local_agent_id@,
                message,
            )->0,
            screening(*config, local_agent_id@, message) is Some ==> final(self)@ == old(self)@,
            screening(*config, local_agent_id@, message) is None ==> exists|
                machine: [u8; 32],
                decision: TrustDecision,
            |
                machine@ == hex_decoded(advertised_machine(message)) && call_ensures(
                    evaluate_trust,
                    (message.sender->0, machine),
                    decision,
                ) && admission(
                    old(self)@,
                    config.mesh,
                    message.payload->0@,
                    decision,
                    now,
                    final(self)@,
                    r,
                ),
            message_outcome(old(self)@, *config, local_agent_id@, message, final(self)@, r),
            all_admitted(old(self)@, config.mesh, local_agent_id@) ==> all_admitted(
                final(self)@,
                config.mesh,
                local_agent_id@,
            ),
            r == CapabilityDisposition::AcceptedNewPeer ==> final(self)@.len() == old(self)@.len()
                + 1,
            r == CapabilityDisposition::UpdatedPeer ==> final(self)@.len() == old(self)@.len(),
            r != CapabilityDisposition::AcceptedNewPeer && r != CapabilityDisposition::UpdatedPeer
                ==> final(self)@ == old(self)@,
            r == CapabilityDisposition::AcceptedNewPeer || r == CapabilityDisposition::UpdatedPeer
                ==> exists|i: int|
                0 <= i < final(self)@.len() && (#[trigger] final(self)@[i]).capability
                    == message.payload->0@ && final(self)@[i].last_seen_unix_secs == now && (r
                    == CapabilityDisposition::AcceptedNewPeer ==> final(self)@[i].first_seen_unix_secs
                    == now),
    {
        let sender = match message.sender {
            Some(sender) => sender,
            None => return CapabilityDisposition::RejectedMissingSender,
        };
        if !message.verified {
            return CapabilityDisposition::RejectedUnverifiedSender;
        }
        let sender_hex = encode_agent_id(&sender);
        if str_eq(sender_hex.as_str(), local_agent_id) {
            return CapabilityDisposition::IgnoredSelf;
        }
        let capability = match message.payload {
            Some(capability) => capability,
            None => return CapabilityDisposition::RejectedInvalidPayload,
        };
        if capability.protocol_version != PROTOCOL_VERSION {
            return CapabilityDisposition::RejectedUnsupportedProtocol;
        }
        if !str_eq(capability.policy.mesh_name.as_str(), config.mesh.name.as_str()) {
            return CapabilityDisposition::RejectedWrongMesh;
        }
        if !str_eq(capability.identity.agent_id.as_str(), sender_hex.as_str()) {
            return CapabilityDisposition::RejectedSenderMismatch;
        }
        let machine_id = match parse_machine_id_hex(capability.identity.machine_id.as_str()) {
            Ok(machine_id) => machine_id,
            Err(_) => return CapabilityDisposition::RejectedInvalidMachineId,
        };
        let decision = evaluate_trust(sender, machine_id);
        let ghost old_view = self@;
        let r = self.record_decision(config, capability, decision, now);
        proof {
            lemma_admission_stamps_sighting(
                old_view,
                config.mesh,
                message.payload->0@,
                decision,
                now,
                self@,
                r,
            );
            lemma_message_step(
                old_view,
                *config,
                local_agent_id@,
                message,
                self@,
                r,
            );
        }
        r
    }
}

/// Under a trusted-friends mesh, or one that requires trusted contacts,
/// only a trusted contact on an acceptable machine is admitted: unknown,
/// merely known, blocked and machine-mismatched peers never are.
pub proof fn lemma_strict_mesh_admits_only_trusted(mesh: MeshConfig, decision: TrustDecision)
    requires
        mesh.trusted_friends_only || mesh.require_trusted_contacts,
    ensures
        allows(mesh, decision) <==> decision == TrustDecision::Accept,
{
}

/// The registry holds at most one record per agent.
pub proof fn lemma_one_record_per_agent(s: Seq<PeerRecordView>, i: int, j: int)
    requires
        sorted_by_agent(s),
        0 <= i < s.len(),
        0 <= j < s.len(),
        peer_key(s[i]) == peer_key(s[j]),
    ensures
        i == j,
{
    lemma_text_lt_irreflexive(peer_key(s[i]));
    if i < j {
        assert(text_lt(peer_key(s[i]), peer_key(s[j])));
    } else if j < i {
        assert(text_lt(peer_key(s[j]), peer_key(s[i])));
    }
}

/// An announcement that is admitted is then held, with its trust decision
/// and last seen at the time of admission; a refused one changes nothing.
pub proof fn lemma_admitted_peer_is_held(
    old: Seq<PeerRecordView>,
    mesh: MeshConfig,
    cap: CapabilityView,
    decision: TrustDecision,
    now: u64,
    new: Seq<PeerRecordView>,
    r: CapabilityDisposition,
)
    requires
        sorted_by_agent(old),
        admission(old, mesh, cap, decision, now, new, r),
    ensures
        (r == CapabilityDisposition::AcceptedNewPeer || r == CapabilityDisposition::UpdatedPeer)
            <==> allows(mesh, decision),
        allows(mesh, decision) ==> exists|i: int|
            0 <= i < new.len() && #[trigger] new[i].capability == cap && new[i].trust_decision
                == decision && new[i].last_seen_unix_secs == now,
        !allows(mesh, decision) ==> new == old,
{
    if allows(mesh, decision) {
        if has_peer(old, cap.identity.agent_id@) {
            let j = choose|j: int| 0 <= j < old.len() && peer_key(old[j]) == cap.identity.agent_id@;
            assert(new == old.update(j, refreshed_record(old[j], cap, decision, now)));
            assert(new[j].capability == cap);
        } else {
            let i = choose|i: int|
                0 <= i <= old.len() && new == old.insert(i, new_record(cap, decision, now));
            assert(new[i].capability == cap);
        }
    }
}

/// A message that passes screening was sent by the agent that its
/// announcement names, for the local mesh, in the current protocol.
pub proof fn lemma_screened_sender_matches(
    config: ComputeConfig,
    local_agent_id: Seq<char>,
    m: CapabilityMessage,
)
    requires
        screening(config, local_agent_id, m) is None,
    ensures
        m.sender is Some,
        m.verified,
        m.payload is Some,
        m.payload->0.identity.agent_id@ == hex_lower(m.sender->0@),
        m.payload->0.identity.agent_id@ != local_agent_id,
        m.payload->0.policy.mesh_name@ == config.mesh.name@,
        m.payload->0.protocol_version == PROTOCOL_VERSION,
{
}

/// Applying one message keeps the records in agent-id order and keeps
/// every record admitted: a message admitted as a new peer adds one record,
/// one admitted for a known peer keeps the count, and any other answer
/// leaves the records as they were.
pub proof fn lemma_message_step(
    old: Seq<PeerRecordView>,
    config: ComputeConfig,
    local_agent_id: Seq<char>,
    m: CapabilityMessage,
    new: Seq<PeerRecordView>,
    r: CapabilityDisposition,
)
    requires
        sorted_by_agent(old),
        message_outcome(old, config, local_agent_id, m, new, r),
    ensures
        sorted_by_agent(new),
        all_admitted(old, config.mesh, local_agent_id) ==> all_admitted(
            new,
            config.mesh,
            local_agent_id,
        ),
        r == CapabilityDisposition::AcceptedNewPeer ==> new.len() == old.len() + 1,
        r == CapabilityDisposition::UpdatedPeer ==> new.len() == old.len(),
        r != CapabilityDisposition::AcceptedNewPeer && r != CapabilityDisposition::UpdatedPeer
            ==> new == old,
{
    if screening(config, local_agent_id, m) is None {
        let (decision, now) = choose|decision: TrustDecision, now: u64|
            admission(old, config.mesh, m.payload->0@, decision, now, new, r);
        let cap = m.payload->0@;
        lemma_screened_sender_matches(config, local_agent_id, m);
        let fresh = new_record(cap, decision, now);
        if allows(config.mesh, decision) && has_peer(old, cap.identity.agent_id@) {
            let j = choose|j: int| 0 <= j < old.len() && peer_key(old[j]) == cap.identity.agent_id@;
            let upd = refreshed_record(old[j], cap, decision, now);
            assert(new == old.update(j, upd));
            assert forall|a: int, b: int| 0 <= a < b < new.len() implies text_lt(
                #[trigger] peer_key(new[a]),
                #[trigger] peer_key(new[b]),
            ) by {
                assert(peer_key(new[a]) == peer_key(old[a]));
                assert(peer_key(new[b]) == peer_key(old[b]));
            }
            if all_admitted(old, config.mesh, local_agent_id) {
                assert forall|i: int| 0 <= i < new.len() implies admitted_record(
                    config.mesh,
                    local_agent_id,
                    #[trigger] new[i],
                ) by {
                    if i != j {
                        assert(new[i] == old[i]);
                    }
                }
            }
        } else if allows(config.mesh, decision) {
            let i = choose|i: int| 0 <= i <= old.len() && new == old.insert(i, fresh);
            if all_admitted(old, config.mesh, local_agent_id) {
                assert forall|k: int| 0 <= k < new.len() implies admitted_record(
                    config.mesh,
                    local_agent_id,
                    #[trigger] new[k],
                ) by {
                    if k < i {
                        assert(new[k] == old[k]);
                    } else if k > i {
                        assert(new[k] == old[k - 1]);
                    }
                }
            }
        }
    }
}

/// Along any run of messages applied to a fresh registry with one
/// configuration and one local agent, every registry holds only admitted
/// records, in agent-id order, one per agent, each kept under the agent id
/// that its announcement names.
pub proof fn lemma_registry_history(
    config: ComputeConfig,
    local_agent_id: Seq<char>,
    messages: Seq<CapabilityMessage>,
    dispositions: Seq<CapabilityDisposition>,
    states: Seq<Seq<PeerRecordView>>,
)
    requires
        states.len() == messages.len() + 1,
        dispositions.len() == messages.len(),
        states[0] == Seq::<PeerRecordView>::empty(),
        forall|i: int|
            0 <= i < messages.len() ==> message_outcome(
                states[i],
                config,
                local_agent_id,
                #[trigger] messages[i],
                states[i + 1],
                dispositions[i],
            ),
    ensures
        forall|i: int|
            0 <= i < states.len() ==> sorted_by_agent(#[trigger] states[i]) && all_admitted(
                states[i],
                config.mesh,
                local_agent_id,
            ),
    decreases messages.len(),
{
    if messages.len() > 0 {
        let k = messages.len() - 1;
        lemma_registry_history(
            config,
            local_agent_id,
            messages.take(k),
            dispositions.take(k),
            states.take(k + 1),
        );
        assert forall|i: int| 0 <= i <= k implies sorted_by_agent(#[trigger] states[i])
            && all_admitted(states[i], config.mesh, local_agent_id) by {
            assert(states.take(k + 1)[i] == states[i]);
        }
        assert(message_outcome(
            states[k],
            config,
            local_agent_id,
            messages[k],
            states[k + 1],
            dispositions[k],
        ));
        lemma_message_step(
            states[k],
            config,
            local_agent_id,
            messages[k],
            states[k + 1],
            dispositions[k],
        );
        assert forall|i: int| 0 <= i < states.len() implies sorted_by_agent(#[trigger] states[i])
            && all_admitted(states[i], config.mesh, local_agent_id) by {
            if i <= k {
                assert(states.take(k + 1)[i] == states[i]);
            }
        }
    }
}

/// An admitted announcement is held with the time of the sighting as its
/// last sighting; a new peer is first seen then too, and a known peer keeps
/// its first sighting.
pub proof fn lemma_admission_stamps_sighting(
    old: Seq<PeerRecordView>,
    mesh: MeshConfig,
    cap: CapabilityView,
    decision: TrustDecision,
    now: u64,
    new: Seq<PeerRecordView>,
    r: CapabilityDisposition,
)
    requires
        sorted_by_agent(old),
        admission(old, mesh, cap, decision, now, new, r),
    ensures
        r == CapabilityDisposition::AcceptedNewPeer || r == CapabilityDisposition::UpdatedPeer
            ==> exists|i: int|
            0 <= i < new.len() && (#[trigger] new[i]).capability == cap && new[i].last_seen_unix_secs
                == now && new[i].trust_decision == decision && (r
                == CapabilityDisposition::AcceptedNewPeer ==> new[i].first_seen_unix_secs == now),
        r == CapabilityDisposition::UpdatedPeer ==> forall|j: int|
            0 <= j < old.len() && peer_key(old[j]) == cap.identity.agent_id@ ==> new[j].capability
                == cap && new[j].last_seen_unix_secs == now && new[j].first_seen_unix_secs
                == old[j].first_seen_unix_secs,
{
    if allows(mesh, decision) {
        if has_peer(old, cap.identity.agent_id@) {
            let j = choose|j: int| 0 <= j < old.len() && peer_key(old[j]) == cap.identity.agent_id@;
            assert(new[j].capability == cap);
        } else {
            let i = choose|i: int|
                0 <= i <= old.len() && new == old.insert(i, new_record(cap, decision, now));
            assert(new[i].capability == cap);
        }
    }
}

} // verus!
