//! Local model runtime: static inventory, slot reservations and a skeleton
//! OpenAI-compatible gateway.

use vstd::prelude::*;

use crate::clock::unix_timestamp_secs;
use crate::config::{
    model_views, texts, ComputeConfig, ModelConfig, ModelConfigView, RuntimeBackend,
};
use crate::error::ComputeError;
use crate::keyed::{
    has_key, keys_sorted, lemma_insert_sorted, lemma_remove_sorted, lemma_update_sorted, locate, Keyed,
};
use crate::text::{count_words, push_zero_padded, str_eq, text_lt, trim, trimmed, word_count,
    zero_padded};

verus! {

/// Inventory record for a local model runtime.
#[derive(Debug, PartialEq, Eq)]
pub struct LocalModelInventory {
    pub id: String,
    pub family: String,
    pub runtime_backend: RuntimeBackend,
    pub context_window_tokens: u32,
    pub max_output_tokens: u32,
    pub total_slots: u16,
    pub reserved_slots: u16,
    pub available_slots: u16,
    pub tags: Vec<String>,
}

/// Reservation creation request.
#[derive(Debug, PartialEq, Eq)]
pub struct CreateReservationRequest {
    pub model: String,
    pub consumer: String,
    pub requested_slots: u16,
}

/// Number of slots a reservation request asks for when it names none.
pub fn default_requested_slots() -> (r: u16)
    ensures
        r == 1,
{
    1
}

/// Active reservation record.
#[derive(Debug, PartialEq, Eq)]
pub struct ModelReservation {
    pub reservation_id: String,
    pub model: String,
    pub consumer: String,
    pub requested_slots: u16,
    pub granted_at_unix_secs: u64,
}

impl Clone for ModelReservation {
    fn clone(&self) -> (res: Self)
        ensures
            res == *self,
    {
        ModelReservation {
            reservation_id: self.reservation_id.clone(),
            model: self.model.clone(),
            consumer: self.consumer.clone(),
            requested_slots: self.requested_slots,
            granted_at_unix_secs: self.granted_at_unix_secs,
        }
    }
}

impl Keyed for ModelReservation {
    open spec fn key_of(&self) -> Seq<char> {
        self.reservation_id@
    }

    fn key(&self) -> (r: &str) {
        self.reservation_id.as_str()
    }
}

impl Keyed for ModelConfig {
    open spec fn key_of(&self) -> Seq<char> {
        self.id@
    }

    fn key(&self) -> (r: &str) {
        self.id.as_str()
    }
}

/// Minimal OpenAI-compatible `/models` response.
#[derive(Debug, PartialEq, Eq)]
pub struct OpenAiModelListResponse {
    pub object: String,
    pub data: Vec<OpenAiModelCard>,
}

/// Minimal OpenAI-compatible model card.
#[derive(Debug, PartialEq, Eq)]
pub struct OpenAiModelCard {
    pub id: String,
    pub object: String,
    pub created: u64,
    pub owned_by: String,
}

/// Minimal OpenAI-compatible chat completion request. The sampling
/// temperature that clients may send is not used by the skeleton runtime
/// and is not held here.
#[derive(Debug, PartialEq, Eq)]
pub struct OpenAiChatCompletionRequest {
    pub model: String,
    pub messages: Vec<OpenAiChatMessage>,
    pub stream: bool,
    pub max_tokens: Option<u32>,
}

/// Minimal OpenAI-compatible chat message.
#[derive(Debug, PartialEq, Eq)]
pub struct OpenAiChatMessage {
    pub role: String,
    pub content: String,
}

/// Minimal OpenAI-compatible chat completion response.
#[derive(Debug, PartialEq, Eq)]
pub struct OpenAiChatCompletionResponse {
    pub id: String,
    pub object: String,
    pub created: u64,
    pub model: String,
    pub choices: Vec<OpenAiChatChoice>,
    pub usage: OpenAiUsage,
}

/// Single OpenAI-compatible choice.
#[derive(Debug, PartialEq, Eq)]
pub struct OpenAiChatChoice {
    pub index: u32,
    pub message: OpenAiChatMessage,
    pub finish_reason: String,
}

/// Minimal OpenAI-compatible usage block.
#[derive(Debug, Clone, Copy, PartialEq, Eq, Structural)]
pub struct OpenAiUsage {
    pub prompt_tokens: u32,
    pub completion_tokens: u32,
    pub total_tokens: u32,
}

/// Models in strictly increasing order of id.
pub open spec fn ids_sorted(t: Seq<ModelConfigView>) -> bool {
    forall|i: int, j: int| 0 <= i < j < t.len() ==> text_lt(#[trigger] t[i].id, #[trigger] t[j].id)
}

/// The position of the last model with id `k` in `ms`, or -1.
pub open spec fn last_index(ms: Seq<ModelConfigView>, k: Seq<char>) -> int
    decreases ms.len(),
{
    if ms.len() == 0 {
        -1
    } else if ms.last().id == k {
        ms.len() - 1
    } else {
        last_index(ms.drop_last(), k)
    }
}

/// `t` is the table that the configured models `ms` give, keyed by id: one
/// entry per configured id, in id order, each the last configuration with
/// that id.
pub open spec fn model_table(ms: Seq<ModelConfigView>, t: Seq<ModelConfigView>) -> bool {
    &&& ids_sorted(t)
    &&& forall|i: int|
        0 <= i < t.len() ==> 0 <= #[trigger] last_index(ms, t[i].id) && t[i] == ms[last_index(
            ms,
            t[i].id,
        )]
    &&& forall|j: int| 0 <= j < ms.len() ==> has_model(t, #[trigger] ms[j].id)
}

/// Whether the table `t` has a model with id `k`.
pub open spec fn has_model(t: Seq<ModelConfigView>, k: Seq<char>) -> bool {
    exists|i: int| 0 <= i < t.len() && #[trigger] t[i].id == k
}

proof fn lemma_last_index_bounds(ms: Seq<ModelConfigView>, k: Seq<char>)
    ensures
        -1 <= last_index(ms, k) < ms.len(),
        last_index(ms, k) >= 0 ==> ms[last_index(ms, k)].id == k,
        last_index(ms, k) < 0 ==> forall|j: int| 0 <= j < ms.len() ==> ms[j].id != k,
    decreases ms.len(),
{
    if ms.len() > 0 {
        lemma_last_index_bounds(ms.drop_last(), k);
        if ms.last().id != k {
            assert forall|j: int| 0 <= j < ms.len() && last_index(ms, k) < 0 implies ms[j].id
                != k by {
                if j < ms.len() - 1 {
                    assert(ms[j] == ms.drop_last()[j]);
                }
            }
        }
    }
}


/// In an id-ordered table, an id stands at one place only.
pub proof fn lemma_ids_unique(t: Seq<ModelConfigView>, a: int, b: int)
    requires
        ids_sorted(t),
        0 <= a < t.len(),
        0 <= b < t.len(),
        t[a].id == t[b].id,
    ensures
        a == b,
{
    crate::text::lemma_text_lt_irreflexive(t[a].id);
    if a < b {
        assert(text_lt(t[a].id, t[b].id));
    } else if b < a {
        assert(text_lt(t[b].id, t[a].id));
    }
}

proof fn lemma_sorted_views(ms: Seq<ModelConfig>)
    requires
        keys_sorted(ms),
    ensures
        ids_sorted(model_views(ms)),
{
    assert forall|i: int, j: int| 0 <= i < j < model_views(ms).len() implies text_lt(
        #[trigger] model_views(ms)[i].id,
        #[trigger] model_views(ms)[j].id,
    ) by {
        assert(model_views(ms)[i].id == ms[i].key_of());
        assert(model_views(ms)[j].id == ms[j].key_of());
    }
}

proof fn lemma_table_step(
    ms: Seq<ModelConfigView>,
    t: Seq<ModelConfigView>,
    x: ModelConfigView,
    pos: int,
    found: bool,
    t2: Seq<ModelConfigView>,
)
    requires
        model_table(ms, t),
        ids_sorted(t2),
        0 <= pos <= t.len(),
        forall|i: int| 0 <= i < pos ==> text_lt(#[trigger] t[i].id, x.id),
        found ==> pos < t.len() && t[pos].id == x.id && t2 == t.update(pos, x),
        !found ==> t2 == t.insert(pos, x) && forall|i: int|
            pos <= i < t.len() ==> text_lt(x.id, #[trigger] t[i].id),
    ensures
        model_table(ms.push(x), t2),
{
    let q = ms.push(x);
    assert(q.drop_last() =~= ms);
    assert forall|k: Seq<char>| #[trigger] last_index(q, k) == (if x.id == k {
        ms.len() as int
    } else {
        last_index(ms, k)
    }) by {}
    assert forall|i: int| 0 <= i < t.len() implies t[i].id != x.id || (found && i == pos) by {
        crate::text::lemma_text_lt_irreflexive(x.id);
        if i < pos {
        } else if !found {
        } else if i > pos {
            assert(text_lt(t[pos].id, t[i].id));
        }
    }
    assert forall|i: int| 0 <= i < t2.len() implies 0 <= #[trigger] last_index(q, t2[i].id)
        && t2[i] == q[last_index(q, t2[i].id)] by {
        if t2[i].id == x.id {
            if found {
                assert(i == pos) by {
                    if i != pos {
                        assert(t2[i] == t[i]);
                    }
                }
            } else {
                assert(i == pos) by {
                    if i < pos {
                        assert(t2[i] == t[i]);
                    } else if i > pos {
                        assert(t2[i] == t[i - 1]);
                    }
                }
            }
        } else {
            let i0 = if !found && i > pos {
                i - 1
            } else {
                i
            };
            assert(t2[i] == t[i0]);
            assert(0 <= last_index(ms, t[i0].id));
            lemma_last_index_bounds(ms, t[i0].id);
            assert(q[last_index(ms, t[i0].id)] == ms[last_index(ms, t[i0].id)]);
        }
    }
    assert forall|j: int| 0 <= j < q.len() implies has_model(t2, #[trigger] q[j].id) by {
        if j == ms.len() {
            assert(t2[pos].id == q[j].id);
        } else {
            assert(q[j] == ms[j]);
            assert(has_model(t, ms[j].id));
            let i0 = choose|i: int| 0 <= i < t.len() && #[trigger] t[i].id == ms[j].id;
            if found {
                if i0 == pos {
                    assert(t2[pos].id == q[j].id);
                } else {
                    assert(t2[i0].id == q[j].id);
                }
            } else {
                if i0 < pos {
                    assert(t2[i0].id == q[j].id);
                } else {
                    assert(t2[i0 + 1].id == q[j].id);
                }
            }
        }
    }
}

/// Slots that the reservations `rs` hold on model `model`, summed exactly.
pub open spec fn requested_for(rs: Seq<ModelReservation>, model: Seq<char>) -> nat
    decreases rs.len(),
{
    if rs.len() == 0 {
        0
    } else {
        requested_for(rs.drop_last(), model) + if rs.last().model@ == model {
            rs.last().requested_slots as nat
        } else {
            0nat
        }
    }
}

/// Slots reserved on `model`, summed with saturation at `u16::MAX`.
pub open spec fn reserved_for(rs: Seq<ModelReservation>, model: Seq<char>) -> u16 {
    if requested_for(rs, model) > u16::MAX {
        u16::MAX
    } else {
        requested_for(rs, model) as u16
    }
}

/// Slots of a model with `total` slots left free when `reserved` are taken.
pub open spec fn free_slots(total: u16, reserved: u16) -> u16 {
    if total >= reserved {
        (total - reserved) as u16
    } else {
        0
    }
}

/// The content of a skeleton runtime: its backend, the prefix of its
/// answers, its model table in id order, its counters, and its active
/// reservations in reservation-id order.
pub struct RuntimeView {
    pub backend: RuntimeBackend,
    pub response_prefix: Seq<char>,
    pub models: Seq<ModelConfigView>,
    pub next_reservation_id: u64,
    pub next_completion_id: u64,
    pub reservations: Seq<ModelReservation>,
}

/// No model has more slots reserved than it offers.
pub open spec fn within_capacity(v: RuntimeView) -> bool {
    forall|i: int|
        0 <= i < v.models.len() ==> requested_for(v.reservations, #[trigger] v.models[i].id)
            <= v.models[i].max_parallel_reservations
}

/// Whether `id` is the label of a reservation counter value already issued:
/// one from 1 to `next`.
pub open spec fn issued_label(id: Seq<char>, next: u64) -> bool {
    exists|n: u64| 1 <= n <= next && id == reservation_label(n)
}

/// Every stored reservation names a configured model, holds at least one
/// slot, has a consumer that is not blank, and carries the id of a counter
/// value already issued.
pub open spec fn reservations_valid(v: RuntimeView) -> bool {
    forall|i: int|
        0 <= i < v.reservations.len() ==> {
            &&& has_model(v.models, (#[trigger] v.reservations[i]).model@)
            &&& v.reservations[i].requested_slots >= 1
            &&& trimmed(v.reservations[i].consumer@).len() > 0
            &&& issued_label(v.reservations[i].reservation_id@, v.next_reservation_id)
        }
}

/// What every skeleton runtime keeps: its tables in key order, no model over
/// capacity, and only valid reservations.
pub open spec fn runtime_inv(v: RuntimeView) -> bool {
    &&& ids_sorted(v.models)
    &&& keys_sorted(v.reservations)
    &&& within_capacity(v)
    &&& reservations_valid(v)
}

/// Below saturation, the id that the next grant takes is held by no stored
/// reservation.
pub proof fn lemma_next_label_fresh(v: RuntimeView)
    requires
        reservations_valid(v),
        v.next_reservation_id < u64::MAX,
    ensures
        !has_key(v.reservations, reservation_label((v.next_reservation_id + 1) as u64)),
{
    let fresh = reservation_label((v.next_reservation_id + 1) as u64);
    assert forall|j: int| 0 <= j < v.reservations.len() implies #[trigger] v.reservations[j].key_of()
        != fresh by {
        assert(issued_label(v.reservations[j].reservation_id@, v.next_reservation_id));
        let n = choose|n: u64|
            1 <= n <= v.next_reservation_id && v.reservations[j].reservation_id@
                == reservation_label(n);
        lemma_reservation_labels_distinct(n, (v.next_reservation_id + 1) as u64);
    }
}

struct SkeletonRuntimeState {
    next_reservation_id: u64,
    next_completion_id: u64,
    reservations: Vec<ModelReservation>,
}

/// Deterministic local runtime used for wiring and tests.
pub struct SkeletonRuntimeAdapter {
    backend: RuntimeBackend,
    response_prefix: String,
    models: Vec<ModelConfig>,
    state: SkeletonRuntimeState,
}

impl View for SkeletonRuntimeAdapter {
    type V = RuntimeView;

    closed spec fn view(&self) -> RuntimeView {
        RuntimeView {
            backend: self.backend,
            response_prefix: self.response_prefix@,
            models: model_views(self.models@),
            next_reservation_id: self.state.next_reservation_id,
            next_completion_id: self.state.next_completion_id,
            reservations: self.state.reservations@,
        }
    }
}

impl SkeletonRuntimeAdapter {
    /// The runtime keeps its tables in key order, no model over capacity,
    /// and only valid reservations.
    pub open spec fn wf(&self) -> bool {
        runtime_inv(self@)
    }

    closed spec fn inner_wf(&self) -> bool {
        &&& keys_sorted(self.models@)
        &&& self.wf()
    }

    proof fn lemma_inner_wf(&self)
        requires
            self.wf(),
        ensures
            self.inner_wf(),
    {
        assert forall|i: int, j: int| 0 <= i < j < self.models@.len() implies text_lt(
            #[trigger] self.models@[i].key_of(),
            #[trigger] self.models@[j].key_of(),
        ) by {
            assert(self@.models[i].id == self.models@[i].key_of());
            assert(self@.models[j].id == self.models@[j].key_of());
        }
    }

    /// Creates a new skeleton runtime from configuration: one model per
    /// configured id, the last configuration of an id winning, no
    /// reservations, and both counters at zero.
    pub fn new(config: &ComputeConfig) -> (r: Self)
        ensures
            r.wf(),
            model_table(model_views(config.models@), r@.models),
            r@.backend == config.runtime.backend,
            r@.response_prefix == config.runtime.skeleton_response_prefix@,
            r@.next_reservation_id == 0,
            r@.next_completion_id == 0,
            r@.reservations == Seq::<ModelReservation>::empty(),
    {
        let ghost ms = model_views(config.models@);
        let mut models: Vec<ModelConfig> = Vec::new();
        let mut j: usize = 0;
        assert(ms.take(0) =~= Seq::<ModelConfigView>::empty());
        assert(model_views(models@) =~= Seq::<ModelConfigView>::empty());
        while j < config.models.len()
            invariant
                j <= config.models@.len(),
                ms == model_views(config.models@),
                keys_sorted(models@),
                model_table(ms.take(j as int), model_views(models@)),
            decreases config.models@.len() - j,
        {
            let m = config.models[j].clone();
            let ghost t = model_views(models@);
            let ghost old_models = models@;
            let (pos, found) = locate(&models, m.id.as_str());
            assert forall|i: int| 0 <= i < pos implies text_lt(#[trigger] t[i].id, m@.id) by {
                assert(t[i].id == old_models[i].key_of());
            }
            if found {
                proof {
                    lemma_update_sorted(models@, pos as int, m);
                }
                models.set(pos, m);
                assert(model_views(models@) =~= t.update(pos as int, m@));
            } else {
                proof {
                    lemma_insert_sorted(models@, pos as int, m);
                    assert forall|i: int| pos <= i < t.len() implies text_lt(
                        m@.id,
                        #[trigger] t[i].id,
                    ) by {
                        assert(t[i].id == old_models[i].key_of());
                    }
                }
                models.insert(pos, m);
                assert(model_views(models@) =~= t.insert(pos as int, m@));
            }
            proof {
                lemma_sorted_views(models@);
                assert(ms.take(j + 1) =~= ms.take(j as int).push(ms[j as int]));
                lemma_table_step(ms.take(j as int), t, ms[j as int], pos as int, found, model_views(models@));
            }
            j = j + 1;
        }
        assert(ms.take(j as int) =~= ms);
        let r = SkeletonRuntimeAdapter {
            backend: config.runtime.backend,
            response_prefix: config.runtime.skeleton_response_prefix.clone(),
            models,
            state: SkeletonRuntimeState {
                next_reservation_id: 0,
                next_completion_id: 0,
                reservations: Vec::new(),
            },
        };
        assert(r@.reservations =~= Seq::<ModelReservation>::empty());
        r
    }

    fn inventory_for_model(&self, model: &ModelConfig, reserved_slots: u16) -> (r: LocalModelInventory)
        ensures
            inventory_of(self@.backend, model@, reserved_slots, r),
            r.id@ == model.id@,
            r.family@ == model.family@,
            r.runtime_backend == self.backend,
            r.context_window_tokens == model.context_window_tokens,
            r.max_output_tokens == model.max_output_tokens,
            r.total_slots == model.max_parallel_reservations,
            r.reserved_slots == reserved_slots,
            r.available_slots == (if model.max_parallel_reservations >= reserved_slots {
                model.max_parallel_reservations - reserved_slots
            } else {
                0
            }),
    {
        let available_slots = model.max_parallel_reservations.saturating_sub(reserved_slots);
        let tags = model.tags.clone();
        assert(tags@ =~= model.tags@);
        LocalModelInventory {
            id: model.id.clone(),
            family: model.family.clone(),
            runtime_backend: self.backend,
            context_window_tokens: model.context_window_tokens,
            max_output_tokens: model.max_output_tokens,
            total_slots: model.max_parallel_reservations,
            reserved_slots,
            available_slots,
            tags,
        }
    }

    fn reserved_slots_for_model(state: &SkeletonRuntimeState, model: &str) -> (r: u16)
        ensures
            r == reserved_for(state.reservations@, model@),
    {
        let rs = &state.reservations;
        let mut acc: u16 = 0;
        let mut i: usize = 0;
        assert(rs@.take(0) =~= Seq::<ModelReservation>::empty());
        while i < rs.len()
            invariant
                i <= rs@.len(),
                acc == reserved_for(rs@.take(i as int), model@),
            decreases rs@.len() - i,
        {
            assert(rs@.take(i + 1).drop_last() =~= rs@.take(i as int));
            if str_eq(rs[i].model.as_str(), model) {
                acc = acc.saturating_add(rs[i].requested_slots);
            }
            i = i + 1;
        }
        assert(rs@.take(i as int) =~= rs@);
        acc
    }

    fn ensure_model_exists(&self, model: &str) -> (r: Result<usize, ComputeError>)
        requires
            self.inner_wf(),
        ensures
            r is Ok <==> has_model(self@.models, model@),
            r matches Ok(i) ==> i < self@.models.len() && self@.models[i as int].id == model@,
            r matches Err(e) ==> e matches ComputeError::ModelNotFound(name) && name@ == model@,
    {
        let (pos, found) = locate(&self.models, model);
        proof {
            if found {
                assert(self@.models[pos as int].id == model@);
            } else {
                assert forall|i: int| 0 <= i < self@.models.len() implies #[trigger] self@.models[i].id
                    != model@ by {
                    assert(self@.models[i].id == self.models@[i].key_of());
                }
            }
        }
        if found {
            Ok(pos)
        } else {
            Err(ComputeError::ModelNotFound(String::from_str(model)))
        }
    }

    /// The inventory of each model in id order, with the slots that the
    /// active reservations hold on it and the slots left.
    pub fn local_models(&self) -> (r: Vec<LocalModelInventory>)
        requires
            self.wf(),
        ensures
            r@.len() == self@.models.len(),
            forall|i: int|
                0 <= i < r@.len() ==> inventory_of(
                    self@.backend,
                    self@.models[i],
                    reserved_for(self@.reservations, self@.models[i].id),
                    #[trigger] r@[i],
                ),
            forall|i: int|
                0 <= i < r@.len() ==> {
                    &&& (#[trigger] r@[i]).id@ == self@.models[i].id
                    &&& r@[i].family@ == self@.models[i].family
                    &&& r@[i].runtime_backend == self@.backend
                    &&& r@[i].context_window_tokens == self@.models[i].context_window_tokens
                    &&& r@[i].max_output_tokens == self@.models[i].max_output_tokens
                    &&& r@[i].total_slots == self@.models[i].max_parallel_reservations
                    &&& r@[i].reserved_slots == requested_for(
                        self@.reservations,
                        self@.models[i].id,
                    )
                    &&& r@[i].reserved_slots + r@[i].available_slots == r@[i].total_slots
                },
    {
        let mut out: Vec<LocalModelInventory> = Vec::new();
        let mut i: usize = 0;
        while i < self.models.len()
            invariant
                i <= self.models@.len(),
                out@.len() == i,
                forall|j: int|
                    0 <= j < i ==> inventory_of(
                        self@.backend,
                        self@.models[j],
                        reserved_for(self@.reservations, self@.models[j].id),
                        #[trigger] out@[j],
                    ),
                forall|j: int|
                    0 <= j < i ==> {
                        &&& (#[trigger] out@[j]).id@ == self@.models[j].id
                        &&& out@[j].family@ == self@.models[j].family
                        &&& out@[j].runtime_backend == self@.backend
                        &&& out@[j].context_window_tokens == self@.models[j].context_window_tokens
                        &&& out@[j].max_output_tokens == self@.models[j].max_output_tokens
                        &&& out@[j].total_slots == self@.models[j].max_parallel_reservations
                        &&& out@[j].reserved_slots == requested_for(
                            self@.reservations,
                            self@.models[j].id,
                        )
                        &&& out@[j].reserved_slots + out@[j].available_slots == out@[j].total_slots
                    },
                self.wf(),
            decreases self.models@.len() - i,
        {
            proof {
                assert(requested_for(self@.reservations, self@.models[i as int].id)
                    <= self@.models[i as int].max_parallel_reservations);
            }
            let model = &self.models[i];
            let reserved = Self::reserved_slots_for_model(&self.state, model.id.as_str());
            let inv = self.inventory_for_model(model, reserved);
            out.push(inv);
            i = i + 1;
        }
        out
    }

    /// Reserves slots of a local model for a consumer, granted now. Refused,
    /// in this order: a blank consumer, zero slots, an unknown model, and more
    /// slots than the model has free. A granted reservation takes the next
    /// reservation id, `resv-` and the counter in at least six digits, and is
    /// added to the reservations unless the counter has saturated.
    pub fn create_reservation(&mut self, request: CreateReservationRequest) -> (r: Result<
        ModelReservation,
        ComputeError,
    >)
        requires
            old(self).wf(),
        ensures
            final(self).wf(),
            reservation_outcome(old(self)@, request, final(self)@, r),
            r is Ok && old(self)@.next_reservation_id < u64::MAX ==> exists|i: int|
                0 <= i <= old(self)@.reservations.len() && final(self)@.reservations == old(
                    self,
                )@.reservations.insert(i, r->Ok_0),
    {
        let now = unix_timestamp_secs();
        self.create_reservation_at(request, now)
    }

    /// Reserves slots as `create_reservation` does, stamping the grant with
    /// `now`.
    pub fn create_reservation_at(&mut self, request: CreateReservationRequest, now: u64) -> (r:
        Result<ModelReservation, ComputeError>)
        requires
            old(self).wf(),
        ensures
            final(self).wf(),
            reservation_outcome(old(self)@, request, final(self)@, r),
            r matches Ok(res) ==> res.granted_at_unix_secs == now,
            r is Ok && old(self)@.next_reservation_id < u64::MAX ==> exists|i: int|
                0 <= i <= old(self)@.reservations.len() && final(self)@.reservations == old(
                    self,
                )@.reservations.insert(i, r->Ok_0),
    {
        proof {
            self.lemma_inner_wf();
        }
        let ghost o = self@;
        let consumer_trimmed = trim(request.consumer.as_str());
        if consumer_trimmed.as_str().is_empty() {
            return Err(
                ComputeError::InvalidReservationRequest(
                    String::from_str("consumer must not be empty"),
                ),
            );
        }
        if request.requested_slots == 0 {
            return Err(
                ComputeError::InvalidReservationRequest(
                    String::from_str("requested_slots must be at least 1"),
                ),
            );
        }
        let idx = match self.ensure_model_exists(request.model.as_str()) {
            Ok(idx) => idx,
            Err(e) => {
                return Err(e);
            },
        };
        let ghost m = o.models[idx as int];
        let reserved = Self::reserved_slots_for_model(&self.state, self.models[idx].id.as_str());
        let available = self.models[idx].max_parallel_reservations.saturating_sub(reserved);
        proof {
            assert forall|q: int|
                0 <= q < o.models.len() && o.models[q].id == request.model@ implies q == idx by {
                lemma_ids_unique(o.models, q, idx as int);
            }
        }
        if request.requested_slots > available {
            return Err(
                ComputeError::ModelCapacityExceeded {
                    model: self.models[idx].id.clone(),
                    requested_slots: request.requested_slots,
                    available_slots: available,
                },
            );
        }
        self.state.next_reservation_id = self.state.next_reservation_id.saturating_add(1);
        let mut reservation_id = String::from_str("resv-");
        push_zero_padded(&mut reservation_id, self.state.next_reservation_id, 6);
        let reservation = ModelReservation {
            reservation_id,
            model: self.models[idx].id.clone(),
            consumer: request.consumer,
            requested_slots: request.requested_slots,
            granted_at_unix_secs: now,
        };
        let stored = reservation.clone();
        let ghost old_rs = self.state.reservations@;
        proof {
            if o.next_reservation_id < u64::MAX {
                lemma_next_label_fresh(o);
            }
        }
        let (pos, found) = crate::keyed::upsert(&mut self.state.reservations, stored);
        proof {
            let new_rs = self.state.reservations@;
            let next = self.state.next_reservation_id;
            assert(reservation.reservation_id@ == reservation_label(next));
            assert forall|i: int| 0 <= i < new_rs.len() implies {
                &&& has_model(self@.models, (#[trigger] new_rs[i]).model@)
                &&& new_rs[i].requested_slots >= 1
                &&& trimmed(new_rs[i].consumer@).len() > 0
                &&& issued_label(new_rs[i].reservation_id@, next)
            } by {
                if new_rs[i] == reservation {
                    assert(self@.models[idx as int].id == reservation.model@);
                } else {
                    let oi = if found {
                        i
                    } else if i < pos {
                        i
                    } else {
                        i - 1
                    };
                    assert(new_rs[i] == old_rs[oi]);
                    assert(issued_label(old_rs[oi].reservation_id@, o.next_reservation_id));
                    let n = choose|n: u64|
                        1 <= n <= o.next_reservation_id && old_rs[oi].reservation_id@
                            == reservation_label(n);
                    assert(1 <= n <= next);
                }
            }
            assert(reservations_valid(self@));
            assert forall|q: int| 0 <= q < self@.models.len() implies requested_for(
                self@.reservations,
                #[trigger] self@.models[q].id,
            ) <= self@.models[q].max_parallel_reservations by {
                let k = o.models[q].id;
                assert(requested_for(old_rs, k) <= o.models[q].max_parallel_reservations);
                if found {
                    lemma_requested_update(old_rs, pos as int, reservation, k);
                } else {
                    lemma_requested_insert(old_rs, pos as int, reservation, k);
                }
                if k == m.id {
                    lemma_ids_unique(o.models, q, idx as int);
                }
            }
            if o.next_reservation_id < u64::MAX {
                assert(reservation.key_of() == reservation_label(
                    (o.next_reservation_id + 1) as u64,
                ));
                assert(!found);
                assert(self@.reservations == o.reservations.insert(pos as int, reservation));
                assert(exists|i: int|
                    0 <= i <= o.reservations.len() && self@.reservations
                        == o.reservations.insert(i, reservation));
            }
        }
        Ok(reservation)
    }

    /// Releases the reservation with id `reservation_id`, which must exist.
    pub fn release_reservation(&mut self, reservation_id: &str) -> (r: Result<(), ComputeError>)
        requires
            old(self).wf(),
        ensures
            final(self).wf(),
            release_outcome(old(self)@, reservation_id@, final(self)@, r),
    {
        let (pos, found) = locate(&self.state.reservations, reservation_id);
        if !found {
            return Err(ComputeError::ReservationNotFound(String::from_str(reservation_id)));
        }
        let ghost old_rs = self.state.reservations@;
        let ghost o = self@;
        proof {
            lemma_remove_sorted(old_rs, pos as int);
        }
        let _released = self.state.reservations.remove(pos);
        proof {
            assert forall|q: int| 0 <= q < self@.models.len() implies requested_for(
                self@.reservations,
                #[trigger] self@.models[q].id,
            ) <= self@.models[q].max_parallel_reservations by {
                let k = o.models[q].id;
                assert(requested_for(old_rs, k) <= o.models[q].max_parallel_reservations);
                lemma_requested_remove(old_rs, pos as int, k);
            }
        }
        Ok(())
    }

    /// The active reservations, in reservation-id order.
    pub fn reservations(&self) -> (r: Vec<ModelReservation>)
        ensures
            r@ == self@.reservations,
    {
        let r = self.state.reservations.clone();
        assert(r@ =~= self.state.reservations@);
        r
    }

    /// The local models as an OpenAI-compatible model list, in id order.
    pub fn openai_models(&self) -> (r: OpenAiModelListResponse)
        ensures
            r.object@ == "list"@,
            r.data@.len() == self@.models.len(),
            forall|i: int| 0 <= i < r.data@.len() ==> model_card(self@.models[i], #[trigger] r.data@[i]),
    {
        let mut data: Vec<OpenAiModelCard> = Vec::new();
        let mut i: usize = 0;
        while i < self.models.len()
            invariant
                i <= self.models@.len(),
                data@.len() == i,
                forall|j: int| 0 <= j < i ==> model_card(self@.models[j], #[trigger] data@[j]),
            decreases self.models@.len() - i,
        {
            data.push(
                OpenAiModelCard {
                    id: self.models[i].id.clone(),
                    object: String::from_str("model"),
                    created: 0,
                    owned_by: String::from_str("x0x-compute"),
                },
            );
            i = i + 1;
        }
        OpenAiModelListResponse { object: String::from_str("list"), data }
    }

    /// Answers a chat completion with the skeleton response, made now.
    pub fn chat_completion(&mut self, request: OpenAiChatCompletionRequest) -> (r: Result<
        OpenAiChatCompletionResponse,
        ComputeError,
    >)
        requires
            old(self).wf(),
        ensures
            final(self).wf(),
            completion_outcome(old(self)@, request, final(self)@, r),
    {
        let now = unix_timestamp_secs();
        self.chat_completion_at(request, now)
    }

    /// Answers a chat completion as `chat_completion` does, stamping the
    /// answer as made at `now`.
    pub fn chat_completion_at(&mut self, request: OpenAiChatCompletionRequest, now: u64) -> (r:
        Result<OpenAiChatCompletionResponse, ComputeError>)
        requires
            old(self).wf(),
        ensures
            final(self).wf(),
            completion_outcome(old(self)@, request, final(self)@, r),
            r matches Ok(resp) ==> resp.created == now,
    {
        proof {
            self.lemma_inner_wf();
        }
        let idx = match self.ensure_model_exists(request.model.as_str()) {
            Ok(idx) => idx,
            Err(e) => {
                return Err(e);
            },
        };
        if request.stream {
            return Err(
                ComputeError::UnsupportedFeature(
                    String::from_str("streaming chat completions are not implemented yet"),
                ),
            );
        }
        if request.messages.len() == 0 {
            return Err(
                ComputeError::InvalidChatRequest(String::from_str("messages must not be empty")),
            );
        }
        let prompt = prompt_content(&request.messages);
        let mut text = self.response_prefix.clone();
        text.append(" [");
        text.append(self.models[idx].id.as_str());
        text.append("] ");
        let trimmed_prompt = trim(prompt);
        text.append(trimmed_prompt.as_str());
        let completion = trim(text.as_str());
        let joined = join_contents(&request.messages);
        let prompt_tokens = estimated_tokens(joined.as_str());
        let completion_tokens = estimated_tokens(completion.as_str());
        let total_tokens = prompt_tokens.saturating_add(completion_tokens);
        self.state.next_completion_id = self.state.next_completion_id.saturating_add(1);
        let mut id = String::from_str("chatcmpl-");
        push_zero_padded(&mut id, self.state.next_completion_id, 6);
        let mut choices: Vec<OpenAiChatChoice> = Vec::new();
        choices.push(
            OpenAiChatChoice {
                index: 0,
                message: OpenAiChatMessage { role: String::from_str("assistant"), content: completion },
                finish_reason: String::from_str("stop"),
            },
        );
        Ok(
            OpenAiChatCompletionResponse {
                id,
                object: String::from_str("chat.completion"),
                created: now,
                model: self.models[idx].id.clone(),
                choices,
                usage: OpenAiUsage { prompt_tokens, completion_tokens, total_tokens },
            },
        )
    }
}

/// `inv` is the inventory of model `m` on `backend` with `reserved` slots
/// taken.
pub open spec fn inventory_of(
    backend: RuntimeBackend,
    m: ModelConfigView,
    reserved: u16,
    inv: LocalModelInventory,
) -> bool {
    &&& inv.id@ == m.id
    &&& inv.family@ == m.family
    &&& inv.runtime_backend == backend
    &&& inv.context_window_tokens == m.context_window_tokens
    &&& inv.max_output_tokens == m.max_output_tokens
    &&& inv.total_slots == m.max_parallel_reservations
    &&& inv.reserved_slots == reserved
    &&& inv.available_slots == free_slots(m.max_parallel_reservations, reserved)
    &&& texts(inv.tags@) == m.tags
}

/// The slots that reservation `x` holds on model `model`.
pub open spec fn held_by(x: ModelReservation, model: Seq<char>) -> nat {
    if x.model@ == model {
        x.requested_slots as nat
    } else {
        0
    }
}

proof fn lemma_requested_concat(a: Seq<ModelReservation>, b: Seq<ModelReservation>, k: Seq<char>)
    ensures
        requested_for(a + b, k) == requested_for(a, k) + requested_for(b, k),
    decreases b.len(),
{
    if b.len() > 0 {
        lemma_requested_concat(a, b.drop_last(), k);
        assert((a + b).drop_last() =~= a + b.drop_last());
    } else {
        assert(a + b =~= a);
    }
}

proof fn lemma_requested_single(x: ModelReservation, k: Seq<char>)
    ensures
        requested_for(seq![x], k) == held_by(x, k),
{
    let s = seq![x];
    assert(s.drop_last() =~= Seq::<ModelReservation>::empty());
    assert(s.last() == x);
    assert(requested_for(s.drop_last(), k) == 0);
}

proof fn lemma_requested_insert(s: Seq<ModelReservation>, i: int, x: ModelReservation, k: Seq<char>)
    requires
        0 <= i <= s.len(),
    ensures
        requested_for(s.insert(i, x), k) == requested_for(s, k) + held_by(x, k),
{
    assert(s.insert(i, x) =~= s.take(i) + seq![x] + s.skip(i));
    assert(s =~= s.take(i) + s.skip(i));
    lemma_requested_concat(s.take(i) + seq![x], s.skip(i), k);
    lemma_requested_concat(s.take(i), seq![x], k);
    lemma_requested_concat(s.take(i), s.skip(i), k);
    lemma_requested_single(x, k);
}

proof fn lemma_requested_remove(s: Seq<ModelReservation>, i: int, k: Seq<char>)
    requires
        0 <= i < s.len(),
    ensures
        requested_for(s, k) == requested_for(s.remove(i), k) + held_by(s[i], k),
{
    assert(s.remove(i).insert(i, s[i]) =~= s);
    lemma_requested_insert(s.remove(i), i, s[i], k);
}

proof fn lemma_requested_update(s: Seq<ModelReservation>, i: int, x: ModelReservation, k: Seq<char>)
    requires
        0 <= i < s.len(),
    ensures
        requested_for(s.update(i, x), k) + held_by(s[i], k) == requested_for(s, k) + held_by(x, k),
{
    lemma_requested_remove(s, i, k);
    assert(s.update(i, x) =~= s.remove(i).insert(i, x));
    lemma_requested_insert(s.remove(i), i, x, k);
}

/// The counter after one more step, held at `u64::MAX`.
pub open spec fn next_count(n: u64) -> u64 {
    if n == u64::MAX {
        n
    } else {
        (n + 1) as u64
    }
}

/// The id of the reservation granted when the counter reaches `n`.
pub open spec fn reservation_label(n: u64) -> Seq<char> {
    "resv-"@ + zero_padded(n as nat, 6)
}

/// What a reservation request does to a runtime `o`, giving `n` and `r`.
pub open spec fn reservation_outcome(
    o: RuntimeView,
    req: CreateReservationRequest,
    n: RuntimeView,
    r: Result<ModelReservation, ComputeError>,
) -> bool {
    if trimmed(req.consumer@).len() == 0 {
        &&& n == o
        &&& r matches Err(ComputeError::InvalidReservationRequest(msg))
        &&& msg@ == "consumer must not be empty"@
    } else if req.requested_slots == 0 {
        &&& n == o
        &&& r matches Err(ComputeError::InvalidReservationRequest(msg))
        &&& msg@ == "requested_slots must be at least 1"@
    } else if !has_model(o.models, req.model@) {
        &&& n == o
        &&& r matches Err(ComputeError::ModelNotFound(name))
        &&& name@ == req.model@
    } else {
        forall|i: int|
            0 <= i < o.models.len() && #[trigger] o.models[i].id == req.model@ ==> grant_outcome(
                o,
                req,
                o.models[i],
                n,
                r,
            )
    }
}

/// What a well-formed reservation request for model `m` does to `o`: more
/// slots than are free is refused; otherwise the counter steps on and the
/// reservation is stored under its new id.
pub open spec fn grant_outcome(
    o: RuntimeView,
    req: CreateReservationRequest,
    m: ModelConfigView,
    n: RuntimeView,
    r: Result<ModelReservation, ComputeError>,
) -> bool {
    let available = free_slots(m.max_parallel_reservations, reserved_for(o.reservations, m.id));
    if req.requested_slots > available {
        &&& n == o
        &&& r matches Err(
            ComputeError::ModelCapacityExceeded { model, requested_slots, available_slots },
        )
        &&& model@ == m.id
        &&& requested_slots == req.requested_slots
        &&& available_slots == available
    } else {
        r matches Ok(res) && {
            &&& res.reservation_id@ == reservation_label(next_count(o.next_reservation_id))
            &&& res.model@ == m.id
            &&& res.consumer == req.consumer
            &&& res.requested_slots == req.requested_slots
            &&& n.backend == o.backend
            &&& n.response_prefix == o.response_prefix
            &&& n.models == o.models
            &&& n.next_reservation_id == next_count(o.next_reservation_id)
            &&& n.next_completion_id == o.next_completion_id
            &&& crate::keyed::upserted(o.reservations, n.reservations, res)
        }
    }
}

/// The position of the last message with role `user`, if any.
pub open spec fn last_user_index(ms: Seq<OpenAiChatMessage>) -> Option<int>
    decreases ms.len(),
{
    if ms.len() == 0 {
        None
    } else if ms.last().role@ == "user"@ {
        Some(ms.len() - 1)
    } else {
        last_user_index(ms.drop_last())
    }
}

/// The prompt of a conversation: the last user message, or failing that the
/// last message.
pub open spec fn prompt_of(ms: Seq<OpenAiChatMessage>) -> Seq<char> {
    match last_user_index(ms) {
        Some(i) => ms[i].content@,
        None => if ms.len() > 0 {
            ms.last().content@
        } else {
            Seq::empty()
        },
    }
}

/// The contents of all messages joined by single spaces.
pub open spec fn joined_contents(ms: Seq<OpenAiChatMessage>) -> Seq<char>
    decreases ms.len(),
{
    if ms.len() == 0 {
        Seq::empty()
    } else if ms.len() == 1 {
        ms[0].content@
    } else {
        joined_contents(ms.drop_last()) + " "@ + ms.last().content@
    }
}

/// The skeleton's answer: its prefix, the model id in brackets, and the
/// trimmed prompt, trimmed as a whole.
pub open spec fn completion_text(prefix: Seq<char>, model: Seq<char>, prompt: Seq<char>) -> Seq<
    char,
> {
    trimmed(prefix + " ["@ + model + "] "@ + trimmed(prompt))
}

/// Estimated tokens of a text: its whitespace-separated words, at least one,
/// at most `u32::MAX`.
pub open spec fn token_estimate(s: Seq<char>) -> u32 {
    if word_count(s) == 0 {
        1
    } else if word_count(s) > u32::MAX {
        u32::MAX
    } else {
        word_count(s) as u32
    }
}

/// The id of the completion made when the counter reaches `n`.
pub open spec fn completion_label(n: u64) -> Seq<char> {
    "chatcmpl-"@ + zero_padded(n as nat, 6)
}

/// Estimates the tokens of `text` by counting its words, at least one.
pub fn estimated_tokens(text: &str) -> (r: u32)
    ensures
        r == token_estimate(text@),
{
    let count = count_words(text);
    let count = if count < 1 {
        1
    } else {
        count
    };
    if count > u32::MAX as usize {
        u32::MAX
    } else {
        count as u32
    }
}

/// What a chat completion request does to a runtime `o`, giving `n` and
/// `r`: an unknown model, a streaming request and an empty conversation are
/// refused, in that order; otherwise the completion counter steps on and the
/// skeleton answer comes back.
pub open spec fn completion_outcome(
    o: RuntimeView,
    req: OpenAiChatCompletionRequest,
    n: RuntimeView,
    r: Result<OpenAiChatCompletionResponse, ComputeError>,
) -> bool {
    if !has_model(o.models, req.model@) {
        &&& n == o
        &&& r matches Err(ComputeError::ModelNotFound(name))
        &&& name@ == req.model@
    } else if req.stream {
        &&& n == o
        &&& r matches Err(ComputeError::UnsupportedFeature(msg))
        &&& msg@ == "streaming chat completions are not implemented yet"@
    } else if req.messages@.len() == 0 {
        &&& n == o
        &&& r matches Err(ComputeError::InvalidChatRequest(msg))
        &&& msg@ == "messages must not be empty"@
    } else {
        let text = completion_text(o.response_prefix, req.model@, prompt_of(req.messages@));
        let prompt_tokens = token_estimate(joined_contents(req.messages@));
        let completion_tokens = token_estimate(text);
        &&& n == (RuntimeView { next_completion_id: next_count(o.next_completion_id), ..o })
        &&& r matches Ok(resp)
        &&& resp.id@ == completion_label(next_count(o.next_completion_id))
        &&& resp.object@ == "chat.completion"@
        &&& resp.model@ == req.model@
        &&& resp.choices@.len() == 1
        &&& resp.choices@[0].index == 0
        &&& resp.choices@[0].message.role@ == "assistant"@
        &&& resp.choices@[0].message.content@ == text
        &&& resp.choices@[0].finish_reason@ == "stop"@
        &&& resp.usage.prompt_tokens == prompt_tokens
        &&& resp.usage.completion_tokens == completion_tokens
        &&& resp.usage.total_tokens == (if prompt_tokens + completion_tokens > u32::MAX {
            u32::MAX
        } else {
            (prompt_tokens + completion_tokens) as u32
        })
    }
}

fn prompt_content(messages: &Vec<OpenAiChatMessage>) -> (r: &str)
    requires
        messages@.len() > 0,
    ensures
        r@ == prompt_of(messages@),
{
    let n = messages.len();
    let ghost ms = messages@;
    let mut i: usize = n;
    assert(ms.take(n as int) =~= ms);
    while i > 0
        invariant
            i <= n,
            n == ms.len(),
            ms == messages@,
            last_user_index(ms) == last_user_index(ms.take(i as int)),
        decreases i,
    {
        assert(ms.take(i as int).last() == ms[i - 1]);
        assert(ms.take(i as int).drop_last() =~= ms.take(i - 1));
        if str_eq(messages[i - 1].role.as_str(), "user") {
            return messages[i - 1].content.as_str();
        }
        i = i - 1;
    }
    assert(ms.take(0) =~= Seq::<OpenAiChatMessage>::empty());
    messages[n - 1].content.as_str()
}

fn join_contents(messages: &Vec<OpenAiChatMessage>) -> (r: String)
    ensures
        r@ == joined_contents(messages@),
{
    let n = messages.len();
    let ghost ms = messages@;
    if n == 0 {
        return String::new();
    }
    let mut out = messages[0].content.clone();
    let mut i: usize = 1;
    assert(ms.take(1).drop_last() =~= Seq::<OpenAiChatMessage>::empty());
    assert(joined_contents(ms.take(1)) == ms[0].content@);
    while i < n
        invariant
            1 <= i <= n,
            n == ms.len(),
            ms == messages@,
            out@ == joined_contents(ms.take(i as int)),
        decreases n - i,
    {
        out.append(" ");
        out.append(messages[i].content.as_str());
        assert(ms.take(i + 1).drop_last() =~= ms.take(i as int));
        assert(ms.take(i + 1).last() == ms[i as int]);
        i = i + 1;
    }
    assert(ms.take(n as int) =~= ms);
    out
}

/// `c` is the OpenAI-compatible card of model `m`.
pub open spec fn model_card(m: ModelConfigView, c: OpenAiModelCard) -> bool {
    &&& c.id@ == m.id
    &&& c.object@ == "model"@
    &&& c.created == 0
    &&& c.owned_by@ == "x0x-compute"@
}

/// In a runtime within capacity, each model's inventory balances: the
/// reserved and the available slots make up its total.
pub proof fn lemma_inventory_balance(v: RuntimeView, i: int, inv: LocalModelInventory)
    requires
        within_capacity(v),
        0 <= i < v.models.len(),
        inventory_of(v.backend, v.models[i], reserved_for(v.reservations, v.models[i].id), inv),
    ensures
        inv.reserved_slots <= inv.total_slots,
        inv.reserved_slots + inv.available_slots == inv.total_slots,
{
    assert(requested_for(v.reservations, v.models[i].id) <= v.models[i].max_parallel_reservations);
}

/// The gateway's model list names the local inventory's models, in the same
/// order.
pub proof fn lemma_gateway_lists_inventory(
    v: RuntimeView,
    inventory: Seq<LocalModelInventory>,
    cards: Seq<OpenAiModelCard>,
)
    requires
        inventory.len() == v.models.len(),
        forall|i: int|
            0 <= i < inventory.len() ==> inventory_of(
                v.backend,
                v.models[i],
                reserved_for(v.reservations, v.models[i].id),
                #[trigger] inventory[i],
            ),
        cards.len() == v.models.len(),
        forall|i: int| 0 <= i < cards.len() ==> model_card(v.models[i], #[trigger] cards[i]),
    ensures
        cards.len() == inventory.len(),
        forall|i: int| 0 <= i < cards.len() ==> (#[trigger] cards[i]).id@ == inventory[i].id@,
{
    assert forall|i: int| 0 <= i < cards.len() implies (#[trigger] cards[i]).id@
        == inventory[i].id@ by {
        assert(model_card(v.models[i], cards[i]));
        assert(inventory_of(
            v.backend,
            v.models[i],
            reserved_for(v.reservations, v.models[i].id),
            inventory[i],
        ));
    }
}

/// Releasing a freshly granted reservation, one that took a new id, gives
/// back the reservations as they were before the grant.
pub proof fn lemma_release_undoes_grant(
    before: Seq<ModelReservation>,
    granted: Seq<ModelReservation>,
    res: ModelReservation,
    after: Seq<ModelReservation>,
)
    requires
        keys_sorted(before),
        crate::keyed::upserted(before, granted, res),
        !has_key(before, res.key_of()),
        forall|j: int|
            0 <= j < granted.len() && #[trigger] granted[j].key_of() == res.key_of() ==> after
                == granted.remove(j),
    ensures
        after == before,
{
    let i = choose|i: int| 0 <= i <= before.len() && granted == before.insert(i, res);
    assert(granted[i] == res);
    assert(granted.remove(i) =~= before);
}

/// The usage block of an answered completion never totals less than either
/// of its parts.
pub proof fn lemma_usage_total_covers_parts(
    o: RuntimeView,
    req: OpenAiChatCompletionRequest,
    n: RuntimeView,
    r: Result<OpenAiChatCompletionResponse, ComputeError>,
)
    requires
        completion_outcome(o, req, n, r),
        r is Ok,
    ensures
        r->Ok_0.usage.total_tokens >= r->Ok_0.usage.prompt_tokens,
        r->Ok_0.usage.total_tokens >= r->Ok_0.usage.completion_tokens,
{
}

/// Different counter values give different reservation ids, so the
/// grants made before the counter saturates never share an id.
pub proof fn lemma_reservation_labels_distinct(a: u64, b: u64)
    requires
        a != b,
    ensures
        reservation_label(a) != reservation_label(b),
{
    reveal_strlit("resv-");
    if reservation_label(a) == reservation_label(b) {
        assert(zero_padded(a as nat, 6) =~= reservation_label(a).skip(5));
        assert(zero_padded(b as nat, 6) =~= reservation_label(b).skip(5));
        crate::text::lemma_zero_padded_injective(a as nat, b as nat, 6);
    }
}

/// Different counter values give different completion ids.
pub proof fn lemma_completion_labels_distinct(a: u64, b: u64)
    requires
        a != b,
    ensures
        completion_label(a) != completion_label(b),
{
    reveal_strlit("chatcmpl-");
    if completion_label(a) == completion_label(b) {
        assert(zero_padded(a as nat, 6) =~= completion_label(a).skip(9));
        assert(zero_padded(b as nat, 6) =~= completion_label(b).skip(9));
        crate::text::lemma_zero_padded_injective(a as nat, b as nat, 6);
    }
}

/// A grant under a new id takes exactly its slots on its own model and none
/// on any other.
pub proof fn lemma_grant_takes_its_slots(
    before: Seq<ModelReservation>,
    after: Seq<ModelReservation>,
    res: ModelReservation,
    model: Seq<char>,
)
    requires
        crate::keyed::upserted(before, after, res),
        !has_key(before, res.key_of()),
    ensures
        requested_for(after, model) == requested_for(before, model) + held_by(res, model),
{
    let i = choose|i: int| 0 <= i <= before.len() && after == before.insert(i, res);
    lemma_requested_insert(before, i, res, model);
}

/// Releasing a reservation gives back exactly its slots.
pub proof fn lemma_release_frees_its_slots(
    before: Seq<ModelReservation>,
    j: int,
    after: Seq<ModelReservation>,
    model: Seq<char>,
)
    requires
        0 <= j < before.len(),
        after == before.remove(j),
    ensures
        requested_for(after, model) + held_by(before[j], model) == requested_for(before, model),
{
    lemma_requested_remove(before, j, model);
}

/// The skeleton's answer to a prompt that is not blank ends with the
/// trimmed prompt: it is its prefix and bracketed model id, trimmed at the
/// start, followed by the trimmed prompt.
pub proof fn lemma_answer_ends_with_prompt(prefix: Seq<char>, model: Seq<char>, prompt: Seq<char>)
    requires
        trimmed(prompt).len() > 0,
    ensures
        completion_text(prefix, model, prompt) == crate::text::trim_start_spec(
            prefix + " ["@ + model + "] "@,
        ) + trimmed(prompt),
{
    reveal_strlit(" [");
    let head = prefix + " ["@ + model + "] "@;
    let t = trimmed(prompt);
    assert(head[prefix.len() + 1int] == '[');
    crate::text::lemma_trim_start_concat(head, t, prefix.len() + 1int);
    assert(prefix + " ["@ + model + "] "@ + t == head + t);
    crate::text::lemma_trim_end_shape(crate::text::trim_start_spec(prompt));
    let whole = crate::text::trim_start_spec(head) + t;
    assert(whole.last() == t.last());
    crate::text::lemma_trim_end_keeps(whole);
}

/// What releasing the reservation with id `id` does to `o`, giving `n` and
/// `r`: a held id is removed and nothing else changes; an unknown id is
/// refused and changes nothing.
pub open spec fn release_outcome(
    o: RuntimeView,
    id: Seq<char>,
    n: RuntimeView,
    r: Result<(), ComputeError>,
) -> bool {
    if has_key(o.reservations, id) {
        &&& r is Ok
        &&& n == (RuntimeView { reservations: n.reservations, ..o })
        &&& forall|j: int|
            0 <= j < o.reservations.len() && #[trigger] o.reservations[j].key_of() == id
                ==> n.reservations == o.reservations.remove(j)
    } else {
        &&& n == o
        &&& r matches Err(ComputeError::ReservationNotFound(name))
        &&& name@ == id
    }
}

/// One call on a runtime, with what it returned.
pub enum RuntimeCall {
    Reserve {
        reservation_request: CreateReservationRequest,
        granted: Result<ModelReservation, ComputeError>,
    },
    Release { id: Seq<char>, released: Result<(), ComputeError> },
    Complete {
        completion_request: OpenAiChatCompletionRequest,
        answered: Result<OpenAiChatCompletionResponse, ComputeError>,
    },
}

/// What call `c` does to `o`, giving `n`, as the functions' contracts state.
#[verifier::opaque]
pub open spec fn call_outcome(o: RuntimeView, c: RuntimeCall, n: RuntimeView) -> bool {
    match c {
        RuntimeCall::Reserve { reservation_request, granted } => reservation_outcome(
            o,
            reservation_request,
            n,
            granted,
        ),
        RuntimeCall::Release { id, released } => release_outcome(o, id, n, released),
        RuntimeCall::Complete { completion_request, answered } => completion_outcome(
            o,
            completion_request,
            n,
            answered,
        ),
    }
}

/// `states[i + 1]` is what `calls[i]` left of `states[i]`, for every call,
/// starting from a fresh runtime.
pub open spec fn runtime_history(states: Seq<RuntimeView>, calls: Seq<RuntimeCall>) -> bool {
    &&& states.len() == calls.len() + 1
    &&& states[0].next_reservation_id == 0
    &&& states[0].next_completion_id == 0
    &&& forall|i: int| 0 <= i < calls.len() ==> call_outcome(states[i], #[trigger] calls[i], states[i + 1])
}

/// Whether call `c` was a granted reservation.
pub open spec fn is_grant(c: RuntimeCall) -> bool {
    c matches RuntimeCall::Reserve { granted: Ok(_), .. }
}

/// Whether call `c` was an answered completion.
pub open spec fn is_answer(c: RuntimeCall) -> bool {
    c matches RuntimeCall::Complete { answered: Ok(_), .. }
}

/// Number of granted reservations among `calls`.
pub open spec fn grants(calls: Seq<RuntimeCall>) -> nat
    decreases calls.len(),
{
    if calls.len() == 0 {
        0
    } else {
        grants(calls.drop_last()) + if is_grant(calls.last()) {
            1nat
        } else {
            0nat
        }
    }
}

/// Number of answered completions among `calls`.
pub open spec fn answers(calls: Seq<RuntimeCall>) -> nat
    decreases calls.len(),
{
    if calls.len() == 0 {
        0
    } else {
        answers(calls.drop_last()) + if is_answer(calls.last()) {
            1nat
        } else {
            0nat
        }
    }
}

/// `n`, held at `u64::MAX`.
pub open spec fn capped(n: nat) -> u64 {
    if n > u64::MAX {
        u64::MAX
    } else {
        n as u64
    }
}

proof fn lemma_call_counters(o: RuntimeView, c: RuntimeCall, n: RuntimeView)
    requires
        call_outcome(o, c, n),
    ensures
        n.next_reservation_id == (if is_grant(c) {
            next_count(o.next_reservation_id)
        } else {
            o.next_reservation_id
        }),
        n.next_completion_id == (if is_answer(c) {
            next_count(o.next_completion_id)
        } else {
            o.next_completion_id
        }),
        c matches RuntimeCall::Reserve { granted: Ok(res), .. } ==> res.reservation_id@
            == reservation_label(next_count(o.next_reservation_id)),
        c matches RuntimeCall::Complete { answered: Ok(resp), .. } ==> resp.id@ == completion_label(
            next_count(o.next_completion_id),
        ),
{
    reveal(call_outcome);
    match c {
        RuntimeCall::Reserve { reservation_request, granted } => {
            let request = reservation_request;
            if has_model(o.models, request.model@) && trimmed(request.consumer@).len() > 0
                && request.requested_slots != 0 {
                let i = choose|i: int|
                    0 <= i < o.models.len() && #[trigger] o.models[i].id == request.model@;
                assert(grant_outcome(o, request, o.models[i], n, granted));
            }
        },
        RuntimeCall::Release { .. } => {},
        RuntimeCall::Complete { .. } => {},
    }
}

proof fn lemma_take_last<A>(s: Seq<A>, i: int)
    requires
        0 <= i < s.len(),
    ensures
        s.take(i + 1).drop_last() == s.take(i),
        s.take(i + 1).last() == s[i],
{
    assert(s.take(i + 1).drop_last() =~= s.take(i));
}

/// After the first `i` calls of `calls`, the counters of `v` are the
/// numbers of granted reservations and of answered completions among them,
/// held at `u64::MAX`.
pub open spec fn counters_after(v: RuntimeView, calls: Seq<RuntimeCall>, i: int) -> bool {
    &&& v.next_reservation_id == capped(grants(calls.take(i)))
    &&& v.next_completion_id == capped(answers(calls.take(i)))
}

/// Call `i` of `calls`, if it was granted or answered, carries the label of
/// the count of such calls up to and including it.
pub open spec fn labelled_by_count(calls: Seq<RuntimeCall>, i: int) -> bool {
    &&& calls[i] matches RuntimeCall::Reserve { granted: Ok(res), .. } ==> res.reservation_id@
        == reservation_label(capped(grants(calls.take(i + 1))))
    &&& calls[i] matches RuntimeCall::Complete { answered: Ok(resp), .. } ==> resp.id@
        == completion_label(capped(answers(calls.take(i + 1))))
}

proof fn lemma_capped_step(g: nat, step: bool)
    ensures
        capped(g + if step { 1nat } else { 0nat }) == (if step {
            next_count(capped(g))
        } else {
            capped(g)
        }),
{
}

proof fn lemma_counters_upto(states: Seq<RuntimeView>, calls: Seq<RuntimeCall>, k: int)
    requires
        runtime_history(states, calls),
        0 <= k <= calls.len(),
    ensures
        counters_after(states[k], calls, k),
        k < calls.len() ==> labelled_by_count(calls, k),
    decreases k,
{
    if k == 0 {
        assert(calls.take(0) =~= Seq::<RuntimeCall>::empty());
    } else {
        lemma_counters_upto(states, calls, k - 1);
        assert(call_outcome(states[k - 1], calls[k - 1], states[k]));
        lemma_call_counters(states[k - 1], calls[k - 1], states[k]);
        lemma_take_last(calls, k - 1);
        lemma_capped_step(grants(calls.take(k - 1)), is_grant(calls[k - 1]));
        lemma_capped_step(answers(calls.take(k - 1)), is_answer(calls[k - 1]));
    }
    if k < calls.len() {
        assert(call_outcome(states[k], calls[k], states[k + 1]));
        lemma_call_counters(states[k], calls[k], states[k + 1]);
        lemma_take_last(calls, k);
        lemma_capped_step(grants(calls.take(k)), is_grant(calls[k]));
        lemma_capped_step(answers(calls.take(k)), is_answer(calls[k]));
    }
}

/// Along any history of a fresh runtime, the reservation counter is the
/// number of granted reservations and the completion counter the number of
/// answered completions, both held at `u64::MAX`; the k-th grant takes id
/// `resv-` and k in at least six digits, and the k-th answer id `chatcmpl-`
/// and k. Failed calls, releases and the other kind of call leave a counter
/// as it is.
pub proof fn lemma_history_counters(states: Seq<RuntimeView>, calls: Seq<RuntimeCall>)
    requires
        runtime_history(states, calls),
    ensures
        forall|i: int| 0 <= i <= calls.len() ==> counters_after(#[trigger] states[i], calls, i),
        forall|i: int| 0 <= i < calls.len() ==> labelled_by_count(calls, i),
{
    assert forall|i: int| 0 <= i <= calls.len() implies counters_after(
        #[trigger] states[i],
        calls,
        i,
    ) by {
        lemma_counters_upto(states, calls, i);
    }
    assert forall|i: int| 0 <= i < calls.len() implies labelled_by_count(calls, i) by {
        lemma_counters_upto(states, calls, i);
    }
}

proof fn lemma_grants_grow(calls: Seq<RuntimeCall>, i: int, j: int)
    requires
        0 <= i < j < calls.len(),
        is_grant(calls[j]),
    ensures
        grants(calls.take(i + 1)) < grants(calls.take(j + 1)),
    decreases j - i,
{
    lemma_take_last(calls, j);
    if i + 1 < j {
        lemma_grants_grow_plain(calls, i + 1, j);
    }
}

proof fn lemma_grants_grow_plain(calls: Seq<RuntimeCall>, a: int, b: int)
    requires
        0 <= a <= b <= calls.len(),
    ensures
        grants(calls.take(a)) <= grants(calls.take(b)),
    decreases b - a,
{
    if a < b {
        lemma_grants_grow_plain(calls, a, b - 1);
        lemma_take_last(calls, b - 1);
    }
}

proof fn lemma_answers_grow_plain(calls: Seq<RuntimeCall>, a: int, b: int)
    requires
        0 <= a <= b <= calls.len(),
    ensures
        answers(calls.take(a)) <= answers(calls.take(b)),
    decreases b - a,
{
    if a < b {
        lemma_answers_grow_plain(calls, a, b - 1);
        lemma_take_last(calls, b - 1);
    }
}

/// Along any history of a fresh runtime, two granted reservations get
/// different ids as long as the counter has not saturated, released or not;
/// likewise two answered completions.
pub proof fn lemma_history_ids_distinct(
    states: Seq<RuntimeView>,
    calls: Seq<RuntimeCall>,
    i: int,
    j: int,
)
    requires
        runtime_history(states, calls),
        0 <= i < j < calls.len(),
    ensures
        calls[i] matches RuntimeCall::Reserve { granted: Ok(a), .. } ==> (calls[j] matches RuntimeCall::Reserve {
            granted: Ok(b),
            ..
        } ==> grants(calls.take(j + 1)) <= u64::MAX ==> a.reservation_id@ != b.reservation_id@),
        calls[i] matches RuntimeCall::Complete { answered: Ok(a), .. } ==> (calls[j] matches RuntimeCall::Complete {
            answered: Ok(b),
            ..
        } ==> answers(calls.take(j + 1)) <= u64::MAX ==> a.id@ != b.id@),
{
    lemma_history_counters(states, calls);
    assert(labelled_by_count(calls, i));
    assert(labelled_by_count(calls, j));
    if is_grant(calls[j]) {
        lemma_grants_grow(calls, i, j);
        lemma_grants_grow_plain(calls, i + 1, j + 1);
        if grants(calls.take(j + 1)) <= u64::MAX {
            lemma_reservation_labels_distinct(
                capped(grants(calls.take(i + 1))),
                capped(grants(calls.take(j + 1))),
            );
        }
    }
    if is_answer(calls[j]) {
        lemma_take_last(calls, j);
        lemma_answers_grow_plain(calls, i + 1, j);
        if answers(calls.take(j + 1)) <= u64::MAX {
            lemma_completion_labels_distinct(
                capped(answers(calls.take(i + 1))),
                capped(answers(calls.take(j + 1))),
            );
        }
    }
}

/// Granting a reservation below saturation and then releasing it by its id
/// succeeds and gives back the runtime as it was but for the reservation
/// counter, so the reservations and the inventory too; releasing the same
/// id again is refused as not found.
pub proof fn lemma_grant_then_release(
    o: RuntimeView,
    request: CreateReservationRequest,
    granted: RuntimeView,
    r: Result<ModelReservation, ComputeError>,
    released: RuntimeView,
    r2: Result<(), ComputeError>,
    again: RuntimeView,
    r3: Result<(), ComputeError>,
)
    requires
        runtime_inv(o),
        o.next_reservation_id < u64::MAX,
        reservation_outcome(o, request, granted, r),
        r is Ok,
        release_outcome(granted, r->Ok_0.reservation_id@, released, r2),
        release_outcome(released, r->Ok_0.reservation_id@, again, r3),
    ensures
        r2 is Ok,
        released == (RuntimeView {
            next_reservation_id: (o.next_reservation_id + 1) as u64,
            ..o
        }),
        r3 matches Err(ComputeError::ReservationNotFound(_)),
{
    let res = r->Ok_0;
    let i = choose|i: int| 0 <= i < o.models.len() && #[trigger] o.models[i].id == request.model@;
    assert(grant_outcome(o, request, o.models[i], granted, r));
    lemma_next_label_fresh(o);
    assert(res.key_of() == reservation_label((o.next_reservation_id + 1) as u64));
    let p = choose|p: int| 0 <= p <= o.reservations.len() && granted.reservations == o.reservations.insert(p, res);
    assert(granted.reservations[p] == res);
    assert(has_key(granted.reservations, res.key_of()));
    lemma_release_undoes_grant(o.reservations, granted.reservations, res, released.reservations);
}

proof fn lemma_issued_grows(id: Seq<char>, a: u64, b: u64)
    requires
        issued_label(id, a),
        a <= b,
    ensures
        issued_label(id, b),
{
    let k = choose|k: u64| 1 <= k <= a && id == reservation_label(k);
    assert(1 <= k <= b && id == reservation_label(k));
}

proof fn lemma_grant_keeps_inv(
    o: RuntimeView,
    req: CreateReservationRequest,
    mi: int,
    n: RuntimeView,
    r: Result<ModelReservation, ComputeError>,
)
    requires
        runtime_inv(o),
        0 <= mi < o.models.len(),
        o.models[mi].id == req.model@,
        trimmed(req.consumer@).len() > 0,
        req.requested_slots != 0,
        grant_outcome(o, req, o.models[mi], n, r),
    ensures
        runtime_inv(n),
{
    let m = o.models[mi];
    let available = free_slots(m.max_parallel_reservations, reserved_for(o.reservations, m.id));
    if req.requested_slots <= available {
        let res = r->Ok_0;
        let rs = o.reservations;
        let ns = n.reservations;
        let next = n.next_reservation_id;
        assert(requested_for(rs, m.id) <= m.max_parallel_reservations);
        assert(issued_label(res.reservation_id@, next)) by {
            assert(1 <= next && res.reservation_id@ == reservation_label(next));
        }
        if has_key(rs, res.key_of()) {
            let j = choose|j: int| 0 <= j < rs.len() && #[trigger] rs[j].key_of() == res.key_of();
            assert(ns == rs.update(j, res));
            assert forall|q: int| 0 <= q < ns.len() implies {
                &&& has_model(n.models, (#[trigger] ns[q]).model@)
                &&& ns[q].requested_slots >= 1
                &&& trimmed(ns[q].consumer@).len() > 0
                &&& issued_label(ns[q].reservation_id@, next)
            } by {
                if q == j {
                    assert(n.models[mi].id == res.model@);
                } else {
                    assert(ns[q] == rs[q]);
                    lemma_issued_grows(rs[q].reservation_id@, o.next_reservation_id, next);
                }
            }
            assert forall|q: int| 0 <= q < n.models.len() implies requested_for(
                ns,
                #[trigger] n.models[q].id,
            ) <= n.models[q].max_parallel_reservations by {
                let k = o.models[q].id;
                assert(requested_for(rs, k) <= o.models[q].max_parallel_reservations);
                lemma_requested_update(rs, j, res, k);
                if k == m.id {
                    lemma_ids_unique(o.models, q, mi);
                }
            }
        } else {
            let p = choose|p: int| 0 <= p <= rs.len() && ns == rs.insert(p, res);
            assert forall|q: int| 0 <= q < ns.len() implies {
                &&& has_model(n.models, (#[trigger] ns[q]).model@)
                &&& ns[q].requested_slots >= 1
                &&& trimmed(ns[q].consumer@).len() > 0
                &&& issued_label(ns[q].reservation_id@, next)
            } by {
                if q == p {
                    assert(n.models[mi].id == res.model@);
                } else {
                    let oq = if q < p {
                        q
                    } else {
                        q - 1
                    };
                    assert(ns[q] == rs[oq]);
                    lemma_issued_grows(rs[oq].reservation_id@, o.next_reservation_id, next);
                }
            }
            assert forall|q: int| 0 <= q < n.models.len() implies requested_for(
                ns,
                #[trigger] n.models[q].id,
            ) <= n.models[q].max_parallel_reservations by {
                let k = o.models[q].id;
                assert(requested_for(rs, k) <= o.models[q].max_parallel_reservations);
                lemma_requested_insert(rs, p, res, k);
                if k == m.id {
                    lemma_ids_unique(o.models, q, mi);
                }
            }
        }
    }
}

proof fn lemma_release_keeps_inv(
    o: RuntimeView,
    id: Seq<char>,
    n: RuntimeView,
    r: Result<(), ComputeError>,
)
    requires
        runtime_inv(o),
        release_outcome(o, id, n, r),
    ensures
        runtime_inv(n),
{
    if has_key(o.reservations, id) {
        let rs = o.reservations;
        let j = choose|j: int| 0 <= j < rs.len() && #[trigger] rs[j].key_of() == id;
        assert(n.reservations == rs.remove(j));
        crate::keyed::lemma_remove_sorted(rs, j);
        assert forall|q: int| 0 <= q < n.reservations.len() implies {
            &&& has_model(n.models, (#[trigger] n.reservations[q]).model@)
            &&& n.reservations[q].requested_slots >= 1
            &&& trimmed(n.reservations[q].consumer@).len() > 0
            &&& issued_label(n.reservations[q].reservation_id@, n.next_reservation_id)
        } by {
            let oq = if q < j {
                q
            } else {
                q + 1
            };
            assert(n.reservations[q] == rs[oq]);
        }
        assert forall|q: int| 0 <= q < n.models.len() implies requested_for(
            n.reservations,
            #[trigger] n.models[q].id,
        ) <= n.models[q].max_parallel_reservations by {
            assert(requested_for(rs, o.models[q].id) <= o.models[q].max_parallel_reservations);
            lemma_requested_remove(rs, j, o.models[q].id);
        }
    }
}

/// Every call on a runtime keeps what a runtime keeps: its tables in key
/// order, no model over capacity, and only reservations that name a
/// configured model, hold at least one slot, have a consumer that is not
/// blank and carry an id already issued.
pub proof fn lemma_call_keeps_inv(o: RuntimeView, c: RuntimeCall, n: RuntimeView)
    requires
        runtime_inv(o),
        call_outcome(o, c, n),
    ensures
        runtime_inv(n),
{
    reveal(call_outcome);
    match c {
        RuntimeCall::Reserve { reservation_request, granted } => {
            let req = reservation_request;
            if trimmed(req.consumer@).len() > 0 && req.requested_slots != 0 && has_model(
                o.models,
                req.model@,
            ) {
                let mi = choose|i: int| 0 <= i < o.models.len() && #[trigger] o.models[i].id == req.model@;
                assert(grant_outcome(o, req, o.models[mi], n, granted));
                lemma_grant_keeps_inv(o, req, mi, n, granted);
            }
        },
        RuntimeCall::Release { id, released } => {
            lemma_release_keeps_inv(o, id, n, released);
        },
        RuntimeCall::Complete { .. } => {},
    }
}

/// Each model of `v` has no more slots reserved than it offers, and its
/// reserved and free slots make up its total.
pub open spec fn slots_balance(v: RuntimeView) -> bool {
    forall|q: int|
        0 <= q < v.models.len() ==> {
            let total = v.models[q].max_parallel_reservations;
            let reserved = reserved_for(v.reservations, #[trigger] v.models[q].id);
            &&& reserved <= total
            &&& reserved + free_slots(total, reserved) == total
        }
}

/// Along any history of a runtime that starts as `new` leaves one, every
/// state keeps the invariant; so in every state each model has no more
/// slots reserved than it offers and its inventory balances, and every
/// stored reservation names a configured model, holds at least one slot and
/// has a consumer that is not blank.
pub proof fn lemma_history_keeps_inv(states: Seq<RuntimeView>, calls: Seq<RuntimeCall>)
    requires
        runtime_history(states, calls),
        runtime_inv(states[0]),
    ensures
        forall|i: int| 0 <= i < states.len() ==> runtime_inv(#[trigger] states[i]),
        forall|i: int| 0 <= i < states.len() ==> slots_balance(#[trigger] states[i]),
{
    assert forall|i: int| 0 <= i < states.len() implies runtime_inv(#[trigger] states[i])
        && slots_balance(states[i]) by {
        lemma_inv_upto(states, calls, i);
        let v = states[i];
        assert forall|q: int| 0 <= q < v.models.len() implies {
            let total = v.models[q].max_parallel_reservations;
            let reserved = reserved_for(v.reservations, #[trigger] v.models[q].id);
            &&& reserved <= total
            &&& reserved + free_slots(total, reserved) == total
        } by {
            assert(requested_for(v.reservations, v.models[q].id)
                <= v.models[q].max_parallel_reservations);
        }
    }
}

proof fn lemma_inv_upto(states: Seq<RuntimeView>, calls: Seq<RuntimeCall>, k: int)
    requires
        runtime_history(states, calls),
        runtime_inv(states[0]),
        0 <= k < states.len(),
    ensures
        runtime_inv(states[k]),
    decreases k,
{
    if k > 0 {
        lemma_inv_upto(states, calls, k - 1);
        assert(call_outcome(states[k - 1], calls[k - 1], states[k]));
        lemma_call_keeps_inv(states[k - 1], calls[k - 1], states[k]);
    }
}

/// Slots on a model are counted by each reservation's requested slots: no
/// reservations hold none, and one more reservation adds its requested
/// slots on the model it names and nothing on any other.
pub proof fn lemma_slots_add_up(rs: Seq<ModelReservation>, x: ModelReservation, model: Seq<char>)
    ensures
        requested_for(Seq::<ModelReservation>::empty(), model) == 0,
        x.model@ == model ==> requested_for(rs.push(x), model) == requested_for(rs, model)
            + x.requested_slots,
        x.model@ != model ==> requested_for(rs.push(x), model) == requested_for(rs, model),
        requested_for(seq![x], x.model@) == x.requested_slots,
{
    assert(rs.push(x).drop_last() =~= rs);
    assert(seq![x].drop_last() =~= Seq::<ModelReservation>::empty());
    assert(requested_for(seq![x].drop_last(), x.model@) == 0);
    assert(seq![x].last() == x);
}

/// Every active reservation holds no more slots than its model offers, and
/// any two reservations on one model together hold no more than it offers.
pub proof fn lemma_reservations_fit(v: RuntimeView, q: int, a: int, b: int)
    requires
        runtime_inv(v),
        0 <= q < v.models.len(),
        0 <= a < v.reservations.len(),
        0 <= b < v.reservations.len(),
        a != b,
        v.reservations[a].model@ == v.models[q].id,
        v.reservations[b].model@ == v.models[q].id,
    ensures
        v.reservations[a].requested_slots + v.reservations[b].requested_slots
            <= v.models[q].max_parallel_reservations,
{
    let rs = v.reservations;
    let k = v.models[q].id;
    assert(requested_for(rs, k) <= v.models[q].max_parallel_reservations);
    let hi = if a < b { b } else { a };
    let lo = if a < b { a } else { b };
    lemma_requested_remove(rs, hi, k);
    lemma_requested_remove(rs.remove(hi), lo, k);
    assert(rs.remove(hi)[lo] == rs[lo]);
}

/// A granted reservation of k slots on model m, below saturation, raises
/// m's reserved slots by exactly k and leaves every other model's as it
/// was; the grant is refused exactly when k is more than m's total less
/// what is already reserved on it.
pub proof fn lemma_grant_reserves_requested_slots(
    o: RuntimeView,
    req: CreateReservationRequest,
    n: RuntimeView,
    r: Result<ModelReservation, ComputeError>,
    other: Seq<char>,
)
    requires
        runtime_inv(o),
        o.next_reservation_id < u64::MAX,
        reservation_outcome(o, req, n, r),
        trimmed(req.consumer@).len() > 0,
        req.requested_slots != 0,
        has_model(o.models, req.model@),
        other != req.model@,
    ensures
        forall|i: int|
            0 <= i < o.models.len() && #[trigger] o.models[i].id == req.model@ ==> (r is Ok <==> req.requested_slots
                + requested_for(o.reservations, req.model@) <= o.models[i].max_parallel_reservations),
        r is Ok ==> requested_for(n.reservations, req.model@) == requested_for(
            o.reservations,
            req.model@,
        ) + req.requested_slots,
        r is Ok ==> requested_for(n.reservations, other) == requested_for(o.reservations, other),
        r is Err ==> n == o,
{
    let mi = choose|i: int| 0 <= i < o.models.len() && #[trigger] o.models[i].id == req.model@;
    assert(grant_outcome(o, req, o.models[mi], n, r));
    assert forall|i: int|
        0 <= i < o.models.len() && #[trigger] o.models[i].id == req.model@ implies i == mi by {
        lemma_ids_unique(o.models, i, mi);
    }
    assert(requested_for(o.reservations, req.model@) <= o.models[mi].max_parallel_reservations);
    if r is Ok {
        let res = r->Ok_0;
        lemma_next_label_fresh(o);
        let p = choose|p: int|
            0 <= p <= o.reservations.len() && n.reservations == o.reservations.insert(p, res);
        lemma_requested_insert(o.reservations, p, res, req.model@);
        lemma_requested_insert(o.reservations, p, res, other);
    }
}

/// Releasing a held reservation lowers the reserved slots of the model it
/// names by exactly its requested slots, and no other model's.
pub proof fn lemma_release_returns_requested_slots(
    o: RuntimeView,
    id: Seq<char>,
    n: RuntimeView,
    r: Result<(), ComputeError>,
    j: int,
    other: Seq<char>,
)
    requires
        release_outcome(o, id, n, r),
        0 <= j < o.reservations.len(),
        o.reservations[j].key_of() == id,
        other != o.reservations[j].model@,
    ensures
        r is Ok,
        requested_for(n.reservations, o.reservations[j].model@) + o.reservations[j].requested_slots
            == requested_for(o.reservations, o.reservations[j].model@),
        requested_for(n.reservations, other) == requested_for(o.reservations, other),
{
    assert(n.reservations == o.reservations.remove(j));
    lemma_requested_remove(o.reservations, j, o.reservations[j].model@);
    lemma_requested_remove(o.reservations, j, other);
}

proof fn lemma_last_user_index_spec(ms: Seq<OpenAiChatMessage>)
    ensures
        last_user_index(ms) matches Some(i) ==> 0 <= i < ms.len() && ms[i].role@ == "user"@
            && forall|j: int| i < j < ms.len() ==> ms[j].role@ != "user"@,
        last_user_index(ms) is None ==> forall|j: int| 0 <= j < ms.len() ==> ms[j].role@ != "user"@,
    decreases ms.len(),
{
    if ms.len() > 0 {
        lemma_last_user_index_spec(ms.drop_last());
        if ms.last().role@ != "user"@ {
            assert forall|j: int| 0 <= j < ms.len() - 1 implies ms[j] == ms.drop_last()[j] by {}
        }
    }
}

/// The prompt that a conversation is answered with is the content of its
/// last message with role `user`, whether or not that is the final message;
/// with no user message it is the final message's content. In particular a
/// conversation that ends with a user message is answered to that message.
pub proof fn lemma_prompt_is_last_user_message(ms: Seq<OpenAiChatMessage>)
    requires
        ms.len() > 0,
    ensures
        ms.last().role@ == "user"@ ==> prompt_of(ms) == ms.last().content@,
        (exists|i: int| 0 <= i < ms.len() && (#[trigger] ms[i]).role@ == "user"@) ==> exists|i: int|
            0 <= i < ms.len() && (#[trigger] ms[i]).role@ == "user"@ && prompt_of(ms)
                == ms[i].content@ && forall|j: int| i < j < ms.len() ==> ms[j].role@ != "user"@,
        (forall|i: int| 0 <= i < ms.len() ==> (#[trigger] ms[i]).role@ != "user"@) ==> prompt_of(ms)
            == ms.last().content@,
{
    lemma_last_user_index_spec(ms);
    if ms.last().role@ == "user"@ {
        assert(ms[ms.len() - 1].role@ == "user"@);
    }
    if let Some(i) = last_user_index(ms) {
        assert(ms[i].role@ == "user"@);
    } else {
        assert forall|i: int| 0 <= i < ms.len() implies (#[trigger] ms[i]).role@ != "user"@ by {}
    }
}

} // verus!
